use literary_engine::chapter::split_into_chapters;
use literary_engine::chunking::split_into_chunks;
use literary_engine::docx::extract_docx_text;
use literary_engine::epub::{
    extract_html_text, extract_manifest_items, extract_rootfile_path, extract_spine_ids,
    normalize_archive_path,
};
use literary_engine::epub_export::{is_rtl_language, validate_translation_mapping, EpubBlockTranslation};
use literary_engine::export::escape_xml;
use literary_engine::pdf::normalize_extracted_pdf_text;

#[test]
fn ascii_chunks_end_after_the_last_whitespace_within_the_budget() {
    let chunks = split_into_chunks("alpha beta gamma delta", 10);
    let texts: Vec<&str> = chunks.iter().map(|c| c.content.as_str()).collect();
    assert_eq!(texts, vec!["alpha ", "beta ", "gamma ", "delta"]);
}

#[test]
fn splits_persian_text_without_breaking_characters() {
    let text = "سلام دنیا — یک متن آزمایشی برای آزمایش شکستن متن";
    let chunks = split_into_chunks(text, 8);
    for chunk in &chunks {
        assert!(
            chunk.content.chars().count() <= 8,
            "chunk too large: {:?} ({} chars)",
            chunk.content,
            chunk.content.chars().count()
        );
    }
    let reassembled: String = chunks.iter().map(|c| c.content.as_str()).collect();
    assert_eq!(reassembled, text);
}

#[test]
fn preserves_all_content_losslessly() {
    let text = "Hello 你好 مرحبا world";
    let chunks = split_into_chunks(text, 6);
    let reassembled: String = chunks.iter().map(|c| c.content.as_str()).collect();
    assert_eq!(reassembled, text);
}

#[test]
fn single_chunk_for_short_text() {
    let chunks = split_into_chunks("short", 100);
    assert_eq!(chunks.len(), 1);
    assert_eq!(chunks[0].content, "short");
    assert_eq!(chunks[0].index, 0);
}

#[test]
fn chunk_indices_are_sequential() {
    let chunks = split_into_chunks("a b c d e f g h i j", 4);
    for (i, chunk) in chunks.iter().enumerate() {
        assert_eq!(chunk.index, i);
    }
}

#[test]
fn empty_text_produces_no_chunks() {
    let chunks = split_into_chunks("", 10);
    assert!(chunks.is_empty());
}

#[test]
fn zero_budget_still_makes_progress_one_character_at_a_time() {
    let chunks = split_into_chunks("abc", 0);
    let texts: Vec<&str> = chunks.iter().map(|c| c.content.as_str()).collect();
    assert_eq!(texts, vec!["a", "b", "c"]);
}

#[test]
fn extracts_paragraphs_and_inline_runs() {
    let xml = r#"<w:document><w:body><w:p><w:r><w:t>Hello </w:t></w:r><w:r><w:t>world</w:t></w:r></w:p><w:p><w:r><w:t>Second line</w:t></w:r></w:p></w:body></w:document>"#;
    assert_eq!(extract_docx_text(xml), "Hello world\nSecond line");
}

#[test]
fn decodes_common_xml_entities() {
    let xml = r#"<w:p><w:r><w:t>Tom &amp; Jerry &lt;3</w:t></w:r></w:p>"#;
    assert_eq!(extract_docx_text(xml), "Tom & Jerry <3");
}

#[test]
fn preserves_tabs_and_line_breaks() {
    let xml = r#"<w:p><w:r><w:t>A</w:t></w:r><w:tab/><w:r><w:t>B</w:t></w:r><w:br/><w:r><w:t>C</w:t></w:r></w:p>"#;
    assert_eq!(extract_docx_text(xml), "A\tB\nC");
}

#[test]
fn accepts_text_nodes_with_xml_space_attribute() {
    let xml = r#"<w:p><w:r><w:t xml:space="preserve"> spaced </w:t></w:r></w:p>"#;
    assert_eq!(extract_docx_text(xml), "spaced");
}

#[test]
fn does_not_confuse_table_tags_with_text_nodes() {
    let xml = r#"<w:tbl><w:tr><w:tc><w:p><w:r><w:t>Cell text</w:t></w:r></w:p></w:tc></w:tr></w:tbl>"#;
    assert_eq!(extract_docx_text(xml), "Cell text");
}

#[test]
fn extracts_rootfile_path() {
    let xml = r#"<rootfile full-path="OEBPS/content.opf" media-type="application/oebps-package+xml"/>"#;
    assert_eq!(
        extract_rootfile_path(xml).as_deref(),
        Some("OEBPS/content.opf")
    );
}

#[test]
fn extracts_manifest_and_spine() {
    let opf = r#"
            <manifest>
              <item id="c1" href="Text/chapter1.xhtml" media-type="application/xhtml+xml"/>
              <item id="c2" href="Text/chapter2.xhtml" media-type="application/xhtml+xml"/>
            </manifest>
            <spine>
              <itemref idref="c2"/>
              <itemref idref="c1"/>
            </spine>
        "#;

    let manifest = extract_manifest_items(opf);
    assert_eq!(manifest.len(), 2);
    assert_eq!(manifest[0].id, "c1");
    assert_eq!(manifest[0].href, "Text/chapter1.xhtml");
    assert_eq!(extract_spine_ids(opf), vec!["c2", "c1"]);
}

#[test]
fn extracts_html_as_readable_text() {
    let html = r#"
            <html><body>
              <h1>Chapter &amp; One</h1>
              <p>Hello <em>world</em>.</p>
              <script>ignore()</script>
              <p>Second&nbsp;line.</p>
            </body></html>
        "#;
    let text = extract_html_text(html);
    assert!(text.contains("Chapter & One"));
    assert!(text.contains("Hello world."));
    assert!(text.contains("Second line."));
    assert!(!text.contains("ignore"));
}

#[test]
fn normalizes_relative_archive_paths() {
    let base = "OEBPS/Text";
    assert_eq!(
        normalize_archive_path(base, "../Styles/main.css"),
        "OEBPS/Styles/main.css"
    );
}

#[test]
fn escapes_xml_sensitive_characters() {
    assert_eq!(escape_xml("A & <B>"), "A &amp; &lt;B&gt;");
}

#[test]
fn normalizes_pdf_line_endings_page_breaks_and_blank_runs() {
    let text = "Chapter 1\r\nFirst line   \r\n\r\n\r\n\u{000c}Chapter 2\0\nSecond line\t";
    let normalized = normalize_extracted_pdf_text(text);

    assert_eq!(
        normalized,
        "Chapter 1\nFirst line\n\nChapter 2\nSecond line"
    );
}

#[test]
fn preserves_leading_indentation_but_removes_nul_noise() {
    let normalized = normalize_extracted_pdf_text("\0  dialogue\n    indented line\0");

    assert_eq!(normalized, "  dialogue\n    indented line");
}

#[test]
fn explicit_mapping_rejects_unknown_duplicate_and_empty_blocks() {
    let known = vec!["b_000002".to_string()];
    assert!(validate_translation_mapping(
        &known,
        &vec![EpubBlockTranslation::new("b_unknown", "x")]
    )
    .is_err());
    assert!(validate_translation_mapping(
        &known,
        &vec![
            EpubBlockTranslation::new("b_000002", "x"),
            EpubBlockTranslation::new("b_000002", "y"),
        ]
    )
    .is_err());
    assert!(validate_translation_mapping(
        &known,
        &vec![EpubBlockTranslation::new("b_000002", "   ")]
    )
    .is_err());
}

#[test]
fn accepted_mapping_is_ordered_by_block_id() {
    let known = vec!["b_2".to_string(), "b_1".to_string()];
    let mapping = validate_translation_mapping(
        &known,
        &vec![
            EpubBlockTranslation::new("b_2", "two"),
            EpubBlockTranslation::new("b_1", "one"),
        ],
    )
    .unwrap();
    assert_eq!(
        mapping,
        vec![
            ("b_1".to_string(), "one".to_string()),
            ("b_2".to_string(), "two".to_string())
        ]
    );
}

#[test]
fn rtl_language_detection_is_conservative() {
    for language in ["fa", "fa-IR", "ar", "he", "ur", "ps", "ckb"] {
        assert!(is_rtl_language(language), "{language}");
    }
    for language in ["en", "fr", "ja", "zh"] {
        assert!(!is_rtl_language(language), "{language}");
    }
}

#[test]
fn plain_prose_stays_in_one_chapter() {
    let chapters = split_into_chapters("First paragraph.\n\nSecond paragraph.");
    assert_eq!(chapters.len(), 1);
    assert!(chapters[0].content.contains("Second paragraph"));
}

#[test]
fn english_headings_create_chapters() {
    let chapters = split_into_chapters("Chapter 1\nHello\nChapter 2\nWorld");
    assert_eq!(chapters.len(), 2);
    assert_eq!(chapters[0].title, "Chapter 1");
    assert_eq!(chapters[1].content, "World");
}

#[test]
fn persian_headings_create_chapters() {
    let chapters = split_into_chapters("فصل ۱\nسلام\nفصل ۲\nخداحافظ");
    assert_eq!(chapters.len(), 2);
    assert_eq!(chapters[1].title, "فصل ۲");
}

#[test]
fn chapter_api_is_exposed() {
    let chapters = split_into_chapters("Chapter 1\nOne\nChapter 2\nTwo");
    assert_eq!(chapters.len(), 2);
    assert_eq!(chapters[0].index, 0);
    assert_eq!(chapters[1].content, "Two");
}
