use std::io::Write;
use literary_engine::archive::{
    docx_document_from_archive, epub_document_from_archive, load_docx_file, load_epub_file, load_file,
    load_pdf_file, load_text_file, pdf_document_from_bytes,
};
use literary_engine::export::persian_docx_bytes;
use literary_engine::docx::{
    collect_elements, docx_document, docx_text_document, extract_element, find_attribute_value,
};
use literary_engine::document::{load_file_format, loadable_format};
use literary_engine::epub::{epub_document, epub_reading_plan};
use literary_engine::document::load_document;
use literary_engine::error::DocumentError;
use literary_engine::pdf::{document_from_pdf_text, pdf_document};
use literary_engine::manuscript::{build_manuscript, paragraph_count_fits};
use literary_engine::models::{Chapter, DocumentFormat, Manuscript, SourceLocation};
use literary_engine::parser::{
    file_stem_title, looks_like_chapter_heading, split_paragraph_text, stable_id, BlockKind,
    ParsedBlock, ParsedDocument,
};
use literary_engine::plain_text::{parse_frontmatter, parse_text_content};

fn ingest_text(path: &str, content: &str, markdown: bool) -> Result<Manuscript, DocumentError> {
    let parsed = parse_text_content(content, markdown, path)?;
    assert!(paragraph_count_fits(&parsed.blocks));
    build_manuscript(parsed)
}

fn block(kind: BlockKind, text: &str, source: &SourceLocation) -> ParsedBlock {
    ParsedBlock {
        kind,
        text: text.to_string(),
        source: source.clone(),
    }
}

#[test]
fn constructs_scenes_and_source_positions() {
    let source = SourceLocation::new("story.txt", DocumentFormat::Txt);
    let parsed = ParsedDocument {
        title: "Story".into(),
        author: None,
        language: None,
        metadata: Vec::new(),
        source: source.clone(),
        blocks: vec![
            block(BlockKind::Heading(1), "Chapter 1", &source),
            block(BlockKind::Paragraph, "First.", &source),
            block(BlockKind::SceneBreak, "***", &source),
            block(BlockKind::Paragraph, "Second.", &source),
        ],
    };
    let manuscript = build_manuscript(parsed).unwrap();
    assert_eq!(manuscript.chapters[0].scenes.len(), 2);
    assert_eq!(
        manuscript.chapters[0].scenes[1].paragraphs[0].source.scene,
        Some(2)
    );
}

#[test]
fn extracts_markdown_metadata() {
    let content = "---\ntitle: The House\nauthor: A. Writer\nlanguage: en\n---\n\n## Chapter 1\n\nFirst.\n\n***\n\nSecond.";
    let parsed = parse_text_content(content, true, "draft.md").unwrap();
    assert_eq!(parsed.title, "The House");
    assert_eq!(parsed.author.as_deref(), Some("A. Writer"));
    assert!(parsed
        .blocks
        .iter()
        .any(|block| block.kind == BlockKind::SceneBreak));
}

#[test]
fn imports_txt_with_ordered_chapters_and_source_tracking() {
    let manuscript = ingest_text(
        "novel.txt",
        "Chapter 1\nFirst paragraph.\n\nSecond paragraph.\n\nChapter 2\nFinal paragraph.",
        false,
    )
    .unwrap();
    assert_eq!(manuscript.chapters.len(), 2);
    assert_eq!(
        manuscript
            .chapters
            .iter()
            .map(|chapter| chapter.order)
            .collect::<Vec<_>>(),
        vec![1, 2]
    );
    let paragraph = &manuscript.chapters[0].scenes[0].paragraphs[1];
    assert_eq!(paragraph.source.format, DocumentFormat::Txt);
    assert_eq!(paragraph.source.chapter, Some(1));
    assert_eq!(paragraph.source.paragraph, Some(2));
}

#[test]
fn imports_markdown_metadata_and_scenes() {
    let manuscript = ingest_text(
        "novel.md",
        "---\ntitle: Winter House\nauthor: Jane Example\nlanguage: en\n---\n\n## Chapter 1\n\nFirst.\n\n***\n\nSecond.",
        true,
    )
    .unwrap();
    assert_eq!(manuscript.book.title, "Winter House");
    assert_eq!(manuscript.book.author.as_deref(), Some("Jane Example"));
    assert_eq!(manuscript.book.language.as_deref(), Some("en"));
    assert_eq!(manuscript.chapters[0].scenes.len(), 2);
}

#[test]
fn blank_text_is_an_empty_document() {
    match ingest_text("empty.txt", "  \n", false) {
        Err(DocumentError::EmptyDocument(path)) => assert_eq!(path, "empty.txt"),
        other => panic!("unexpected result: {:?}", other.map(|m| m.chapters.len())),
    }
}

#[test]
fn blocks_without_paragraph_text_have_no_structure() {
    let source = SourceLocation::new("story.txt", DocumentFormat::Txt);
    let parsed = ParsedDocument {
        title: "Story".into(),
        author: None,
        language: None,
        metadata: Vec::new(),
        source: source.clone(),
        blocks: vec![block(BlockKind::Paragraph, "   ", &source)],
    };
    match build_manuscript(parsed) {
        Err(DocumentError::InvalidStructure(message)) => {
            assert_eq!(message, "document has no non-empty chapters")
        }
        other => panic!("unexpected result: {:?}", other.map(|m| m.chapters.len())),
    }
    let only_heading = ParsedDocument {
        title: "Story".into(),
        author: None,
        language: None,
        metadata: Vec::new(),
        source: source.clone(),
        blocks: vec![block(BlockKind::Heading(1), "Chapter 1", &source)],
    };
    match build_manuscript(only_heading) {
        Err(DocumentError::EmptyDocument(path)) => assert_eq!(path, "story.txt"),
        other => panic!("unexpected result: {:?}", other.map(|m| m.chapters.len())),
    }
}

#[test]
fn prose_without_headings_gets_a_numbered_chapter_title() {
    let manuscript = ingest_text("prose.txt", "One.\n\nTwo.", false).unwrap();
    assert_eq!(manuscript.chapters.len(), 1);
    let chapter = &manuscript.chapters[0];
    assert_eq!(chapter.title, "Chapter 1");
    assert_eq!(chapter.index, 0);
    assert_eq!(chapter.content, "One.\n\nTwo.");
    assert_eq!(chapter.scenes[0].text, "One.\n\nTwo.");
    assert_eq!(chapter.scenes[0].paragraphs[1].position, 2);
    assert_eq!(chapter.source.chapter, Some(1));
}

#[test]
fn chapter_content_separates_scenes_with_a_marker() {
    let manuscript = ingest_text("s.txt", "Chapter 1\nA.\n\n***\n\nB.", false).unwrap();
    assert_eq!(manuscript.chapters[0].content, "A.\n\n***\n\nB.");
    assert_eq!(manuscript.chapters[0].scenes[1].order, 2);
}

#[test]
fn identifiers_are_stable_and_depend_on_every_part() {
    assert_eq!(stable_id(&vec!["a".to_string()]), "doc-089be207b544f1e4");
    assert_eq!(
        stable_id(&vec!["story.txt".to_string(), "Story".to_string()]),
        "doc-585c2fb0e96654db"
    );
    assert_ne!(
        stable_id(&vec!["ab".to_string()]),
        stable_id(&vec!["a".to_string(), "b".to_string()])
    );
    let first = ingest_text("novel.txt", "Chapter 1\nText.", false).unwrap();
    let second = ingest_text("novel.txt", "Chapter 1\nText.", false).unwrap();
    assert_eq!(first.book.id, second.book.id);
    assert_eq!(first.book.id, stable_id(&vec!["novel.txt".to_string(), "novel".to_string()]));
    assert_eq!(
        first.chapters[0].scenes[0].paragraphs[0].id,
        second.chapters[0].scenes[0].paragraphs[0].id
    );
}

#[test]
fn paragraphs_join_wrapped_lines_and_drop_blank_pieces() {
    assert_eq!(
        split_paragraph_text("  first line\r\n  continues \r\n\r\n\n\nsecond\rpart"),
        vec!["first line continues", "second part"]
    );
    assert!(split_paragraph_text("\n\n  \n\n").is_empty());
}

#[test]
fn chapter_headings_accept_book_and_persian_markers() {
    assert!(looks_like_chapter_heading("  BOOK One "));
    assert!(looks_like_chapter_heading("Part 2"));
    assert!(looks_like_chapter_heading("فصل اول"));
    assert!(looks_like_chapter_heading("بخش دوم"));
    assert!(!looks_like_chapter_heading("Chapters are fun"));
    assert!(!looks_like_chapter_heading(&format!("Chapter {}", "x".repeat(120))));
}

#[test]
fn front_matter_keys_are_lowercased_sorted_and_last_wins() {
    let (metadata, body) =
        parse_frontmatter("\u{feff}---\nTitle: \"First\"\nauthor: 'Someone'\ntitle: Second\nnote\n: x\n---\r\n\nBody text");
    assert_eq!(
        metadata,
        vec![
            ("author".to_string(), "Someone".to_string()),
            ("title".to_string(), "Second".to_string())
        ]
    );
    assert_eq!(body, "Body text");
    let (none, same) = parse_frontmatter("no front matter");
    assert!(none.is_empty());
    assert_eq!(same, "no front matter");
}

#[test]
fn markdown_first_heading_titles_the_document() {
    let parsed = parse_text_content("# My Book\n\n## Chapter 1\n\nText.", true, "x/y/file.md").unwrap();
    assert_eq!(parsed.title, "My Book");
    assert_eq!(parsed.blocks[0].kind, BlockKind::Heading(2));
    assert_eq!(parsed.blocks[0].text, "Chapter 1");
    let plain = parse_text_content("# My Book\n\nText.", false, "x/y/file.name.txt").unwrap();
    assert_eq!(plain.title, "file.name");
    assert_eq!(plain.blocks[0].kind, BlockKind::Paragraph);
}

#[test]
fn file_stems_follow_the_last_extension() {
    assert_eq!(file_stem_title("dir/novel.txt"), "novel");
    assert_eq!(file_stem_title(".hidden"), ".hidden");
    assert_eq!(file_stem_title("archive.tar.gz"), "archive.tar");
    assert_eq!(file_stem_title("dir/"), "dir");
    assert_eq!(file_stem_title(""), "Untitled");
}

#[test]
fn load_document_preserves_content() {
    let document = load_document("Story", "Hello world");
    assert_eq!(document.title, "Story");
    assert_eq!(document.text, "Hello world");
}

#[test]
fn builds_document_from_extracted_pdf_text() {
    let document = document_from_pdf_text("The Hunters Moon.pdf", "Chapter 1\nHello")
        .expect("non-empty extracted text should produce a document");
    assert_eq!(document.title, "The Hunters Moon");
    assert_eq!(document.text, "Chapter 1\nHello");
}

#[test]
fn rejects_image_only_or_empty_pdf_text() {
    let error = document_from_pdf_text("scan.pdf", "  \n\u{000c}\0")
        .expect_err("blank extracted text should be rejected");
    match error {
        DocumentError::ParsingFailure(message) => assert!(message.contains("require OCR")),
        other => panic!("unexpected error {:?}", other),
    }
}

#[test]
fn imports_docx_core_metadata_heading_styles_and_paragraph_locations() {
    let core = r#"<cp:coreProperties><dc:title>Glass City</dc:title><dc:creator>D. Writer</dc:creator><dc:language>en-US</dc:language></cp:coreProperties>"#;
    let xml = r#"<w:document><w:body><w:p><w:pPr><w:pStyle w:val="Heading1"/></w:pPr><w:r><w:t>Chapter 1</w:t></w:r></w:p><w:p><w:r><w:t>DOCX paragraph.</w:t></w:r></w:p></w:body></w:document>"#;
    let parsed = docx_document("novel.docx", xml, &Some(core.to_string())).unwrap();
    assert!(paragraph_count_fits(&parsed.blocks));
    let manuscript = build_manuscript(parsed).unwrap();
    assert_eq!(manuscript.book.title, "Glass City");
    assert_eq!(manuscript.book.author.as_deref(), Some("D. Writer"));
    assert_eq!(manuscript.book.language.as_deref(), Some("en-US"));
    let source = &manuscript.chapters[0].scenes[0].paragraphs[0].source;
    assert_eq!(source.resource.as_deref(), Some("word/document.xml"));
    assert_eq!(source.paragraph, Some(2));
}

#[test]
fn imports_pdf_text_metadata_and_page_locations() {
    let pages = vec![
        "Chapter 1\n\nA PDF paragraph.\n\nSecond one.".to_string(),
        "More text.".to_string(),
    ];
    let parsed = pdf_document(
        "novel.pdf",
        &pages,
        Some("  PDF Novel ".to_string()),
        Some("P. Author".to_string()),
    )
    .unwrap();
    assert_eq!(parsed.title, "PDF Novel");
    assert_eq!(parsed.author.as_deref(), Some("P. Author"));
    assert_eq!(
        parsed.metadata,
        vec![
            ("author".to_string(), "P. Author".to_string()),
            ("title".to_string(), "PDF Novel".to_string())
        ]
    );
    assert_eq!(parsed.blocks.len(), 4);
    assert_eq!(parsed.blocks[0].kind, BlockKind::Heading(1));
    assert_eq!(parsed.blocks[1].text, "A PDF paragraph.");
    assert_eq!(parsed.blocks[1].source.page, Some(1));
    assert_eq!(parsed.blocks[1].source.paragraph, Some(2));
    assert_eq!(parsed.blocks[3].source.page, Some(2));
    assert_eq!(parsed.blocks[3].source.paragraph, Some(1));
    let manuscript = build_manuscript(parsed).unwrap();
    assert_eq!(manuscript.book.title, "PDF Novel");
    assert_eq!(manuscript.chapters[0].scenes[0].paragraphs[2].source.page, Some(2));
}

#[test]
fn pdf_pages_without_text_need_ocr() {
    let error = pdf_document("scan.pdf", &vec!["  \u{000c} ".to_string()], None, None).unwrap_err();
    match error {
        DocumentError::ParsingFailure(message) => assert_eq!(
            message,
            "PDF scan.pdf contains no extractable text; scanned/image-only PDFs require OCR before ingestion"
        ),
        other => panic!("unexpected error {:?}", other),
    }
}

#[test]
fn docx_elements_attributes_and_properties_are_read_from_markup() {
    let xml = "<w:p a='1'>one</w:p><w:p>two</w:p><w:p>open";
    assert_eq!(collect_elements(xml, "w:p"), vec!["<w:p a='1'>one</w:p>", "<w:p>two</w:p>"]);
    assert_eq!(
        find_attribute_value("<w:pStyle w:val='Title'/>", "w:pStyle", "w:val"),
        Some("Title".to_string())
    );
    assert_eq!(find_attribute_value("<w:pStyle/>", "w:pStyle", "w:val"), None);
    assert_eq!(
        extract_element("<dc:title lang=\"en\"> A &amp; B </dc:title>", "dc:title"),
        Some("A & B".to_string())
    );
    assert_eq!(extract_element("<dc:title>unclosed", "dc:title"), None);
    match docx_document("blank.docx", "<w:p><w:r><w:t> </w:t></w:r></w:p>", &None) {
        Err(DocumentError::EmptyDocument(path)) => assert_eq!(path, "blank.docx"),
        other => panic!("unexpected result {:?}", other.map(|d| d.blocks.len())),
    }
}

#[test]
fn epub_spine_resolves_manifest_paths_against_the_package_directory() {
    let opf = r#"<package><metadata><dc:title>Moon Book</dc:title></metadata><manifest><item id="one" href="Text/one.xhtml"/><item id="two" href="../two.xhtml"/></manifest><spine><itemref idref="two"/><itemref idref="missing"/><itemref idref="one"/></spine></package>"#;
    let (title, paths) = epub_reading_plan("OEBPS/content.opf", opf).unwrap();
    assert_eq!(title.as_deref(), Some("Moon Book"));
    assert_eq!(paths, vec!["two.xhtml", "OEBPS/Text/one.xhtml"]);
    match epub_reading_plan("content.opf", "<package><spine></spine></package>") {
        Err(DocumentError::InvalidStructure(message)) => {
            assert_eq!(message, "EPUB package has an empty spine")
        }
        other => panic!("unexpected result {:?}", other),
    }
}

#[test]
fn epub_sections_join_with_blank_lines_and_skip_empty_ones() {
    let htmls = vec![
        "<html><body><h1>Chapter 1</h1><p>Opening paragraph.</p></body></html>".to_string(),
        "<html><body>  </body></html>".to_string(),
        "<html><body><p>Closing paragraph.</p></body></html>".to_string(),
    ];
    let document = epub_document("books/novel.epub", &Some(" ".to_string()), &htmls).unwrap();
    assert_eq!(document.title, "novel");
    assert_eq!(
        document.text,
        "Chapter 1\nOpening paragraph.\n\nClosing paragraph."
    );
    match epub_document("empty.epub", &None, &vec!["<p> </p>".to_string()]) {
        Err(DocumentError::EmptyDocument(path)) => assert_eq!(path, "empty.epub"),
        other => panic!("unexpected result {:?}", other),
    }
}

#[test]
fn whole_docx_bodies_become_documents() {
    let document = docx_text_document(
        "novel.docx",
        "<w:p><w:r><w:t>Hello world</w:t></w:r></w:p>",
    )
    .unwrap();
    assert_eq!(document.title, "novel");
    assert_eq!(document.text, "Hello world");
    assert!(matches!(
        docx_text_document("blank.docx", "<w:p></w:p>"),
        Err(DocumentError::EmptyDocument(_))
    ));
}

#[test]
fn unsupported_extensions_have_no_loader() {
    assert_eq!(loadable_format("story.rtf"), None);
    assert_eq!(loadable_format("story.TXT"), Some(DocumentFormat::Txt));
    assert_eq!(loadable_format("story.md"), Some(DocumentFormat::Markdown));
    assert_eq!(loadable_format("story.markdown"), None);
    assert_eq!(loadable_format("dir/book.Epub"), Some(DocumentFormat::Epub));
    assert_eq!(loadable_format("noextension"), None);
}

#[test]
fn rejects_unsupported_extensions() {
    let error = load_file_format("story.rtf").expect_err("RTF is not supported");
    assert!(matches!(error, DocumentError::UnsupportedFormat(_)));
    assert!(error.message().contains(".txt, .md, .docx, .epub, .pdf"));
}

#[test]
fn supported_extensions_pick_their_format_in_any_case() {
    assert_eq!(load_file_format("book.PDF"), Ok(DocumentFormat::Pdf));
    assert_eq!(load_file_format("notes.md"), Ok(DocumentFormat::Markdown));
    assert_eq!(
        load_file_format("notes.markdown"),
        Err(DocumentError::UnsupportedFormat("notes.markdown".to_string()))
    );
}

#[test]
fn error_messages_name_their_kind_and_subject() {
    assert_eq!(
        DocumentError::UnsupportedFormat("a.rtf".into()).message(),
        "unsupported document format for a.rtf (supported: .txt, .md, .docx, .epub, .pdf)"
    );
    assert_eq!(DocumentError::Io("gone".into()).message(), "I/O error: gone");
    assert_eq!(
        DocumentError::EmptyDocument("empty.txt".into()).message(),
        "document empty.txt contains no text"
    );
    assert_eq!(
        DocumentError::InvalidStructure("no spine".into()).message(),
        "invalid document structure: no spine"
    );
}

fn zip_bytes(entries: &[(&str, &str)]) -> Vec<u8> {
    let mut writer = zip::ZipWriter::new(std::io::Cursor::new(Vec::new()));
    for (name, text) in entries {
        writer.start_file(*name, zip::write::SimpleFileOptions::default()).unwrap();
        writer.write_all(text.as_bytes()).unwrap();
    }
    writer.finish().unwrap().into_inner()
}

#[test]
fn docx_is_read_from_the_bytes_of_its_archive() {
    let bytes = zip_bytes(&[
        (
            "docProps/core.xml",
            r#"<cp:coreProperties><dc:title>Glass City</dc:title><dc:creator>D. Writer</dc:creator><dc:language>en-US</dc:language></cp:coreProperties>"#,
        ),
        (
            "word/document.xml",
            r#"<w:document><w:body><w:p><w:pPr><w:pStyle w:val="Heading1"/></w:pPr><w:r><w:t>Chapter 1</w:t></w:r></w:p><w:p><w:r><w:t>DOCX paragraph.</w:t></w:r></w:p></w:body></w:document>"#,
        ),
    ]);
    let parsed = docx_document_from_archive("novel.docx", &bytes).unwrap();
    assert_eq!(parsed.title, "Glass City");
    assert_eq!(parsed.author.as_deref(), Some("D. Writer"));
    assert_eq!(parsed.blocks.len(), 2);
    assert_eq!(parsed.blocks[1].text, "DOCX paragraph.");
    let manuscript = build_manuscript(parsed).unwrap();
    let source = &manuscript.chapters[0].scenes[0].paragraphs[0].source;
    assert_eq!(source.resource.as_deref(), Some("word/document.xml"));
    assert_eq!(source.paragraph, Some(2));
}

#[test]
fn broken_archives_are_reported_by_kind() {
    match docx_document_from_archive("bad.docx", b"not a zip") {
        Err(DocumentError::CorruptedFile(m)) => {
            assert!(m.starts_with("bad.docx is not a readable DOCX archive: "))
        }
        other => panic!("unexpected {other:?}"),
    }
    let no_body = zip_bytes(&[("docProps/core.xml", "<x/>")]);
    match docx_document_from_archive("empty.docx", &no_body) {
        Err(DocumentError::CorruptedFile(m)) => {
            assert!(m.starts_with("DOCX is missing word/document.xml: "))
        }
        other => panic!("unexpected {other:?}"),
    }
    assert!(matches!(epub_document_from_archive("bad.epub", b"nope"), Err(DocumentError::Archive(_))));
    let no_root = zip_bytes(&[("META-INF/container.xml", "<container/>")]);
    assert_eq!(
        epub_document_from_archive("x.epub", &no_root).unwrap_err(),
        DocumentError::InvalidStructure("EPUB container has no rootfile".into())
    );
    assert_eq!(
        pdf_document_from_bytes("scan.pdf", b"not a pdf", &Err("bad header".to_string())).unwrap_err(),
        DocumentError::ParsingFailure("failed to extract PDF scan.pdf: bad header".into())
    );
}

#[test]
fn epub_is_read_in_spine_order_from_its_archive() {
    let bytes = zip_bytes(&[
        (
            "META-INF/container.xml",
            r#"<container><rootfile full-path="OEBPS/content.opf"/></container>"#,
        ),
        (
            "OEBPS/content.opf",
            r#"<package><metadata><dc:title>Moon Book</dc:title></metadata><manifest><item id="c1" href="one.xhtml"/><item id="c2" href="two.xhtml"/></manifest><spine><itemref idref="c2"/><itemref idref="c1"/></spine></package>"#,
        ),
        ("OEBPS/one.xhtml", "<html><body><h1>Chapter 2</h1><p>Closing paragraph.</p></body></html>"),
        ("OEBPS/two.xhtml", "<html><body><h1>Chapter 1</h1><p>Opening paragraph.</p></body></html>"),
    ]);
    let parsed = epub_document_from_archive("novel.epub", &bytes).unwrap();
    assert_eq!(parsed.title, "Moon Book");
    assert_eq!(parsed.source.format, DocumentFormat::Epub);
    assert!(parsed.blocks.iter().all(|b| b.source.format == DocumentFormat::Epub));
    let texts: Vec<&str> = parsed.blocks.iter().map(|b| b.text.as_str()).collect();
    assert_eq!(texts[0], "Chapter 1");
    assert!(texts.contains(&"Closing paragraph."));
    let manuscript = build_manuscript(parsed).unwrap();
    assert_eq!(manuscript.chapters.len(), 2);
}

#[test]
fn exported_docx_round_trips_persian_chapters() {
    let chapters = vec![
        Chapter::translated(0, "فصل ۱".into(), "این پاراگراف اول است.\n\nاین پاراگراف دوم است.".into()),
        Chapter::translated(1, "فصل ۲".into(), "پایان داستان.".into()),
    ];
    let bytes = persian_docx_bytes("رمان آزمایشی", &chapters).unwrap();
    let loaded = docx_document_from_archive("roman.docx", &bytes).unwrap();
    let text: Vec<&str> = loaded.blocks.iter().map(|b| b.text.as_str()).collect();
    let text = text.join("\n");
    assert!(text.contains("رمان آزمایشی"));
    assert!(text.contains("فصل ۱"));
    assert!(text.contains("این پاراگراف دوم است"));
    assert!(text.contains("پایان داستان"));
}

#[test]
fn rejects_empty_manuscript() {
    let error = persian_docx_bytes("خالی", &Vec::new()).unwrap_err();
    assert!(error.message().contains("without chapters"));
}

#[test]
fn paths_with_trailing_separators_name_their_last_component() {
    assert_eq!(DocumentFormat::from_path("story.txt/"), Some(DocumentFormat::Txt));
    assert_eq!(DocumentFormat::from_path("dir/Book.EPUB/./"), Some(DocumentFormat::Epub));
    assert_eq!(DocumentFormat::from_path("dir/.."), None);
    assert_eq!(file_stem_title("story.txt/"), "story");
    assert_eq!(file_stem_title("a/b.tar.gz//"), "b.tar");
    assert_eq!(file_stem_title("/"), "Untitled");
    assert_eq!(file_stem_title("./"), "Untitled");
}

#[test]
fn pdf_pages_become_blocks_with_the_file_title() {
    let pages = Ok(vec!["Chapter 1\n\nFirst page text.".to_string(), "Second page.".to_string()]);
    let parsed = pdf_document_from_bytes("dir/book.pdf", b"not a pdf", &pages).unwrap();
    assert_eq!(parsed.title, "book");
    assert_eq!(parsed.blocks.len(), 3);
    assert_eq!(parsed.blocks[0].kind, BlockKind::Heading(1));
    assert_eq!(parsed.blocks[2].source.page, Some(2));
    assert!(matches!(
        pdf_document_from_bytes("x.pdf", b"", &Ok(vec!["  ".to_string()])),
        Err(DocumentError::ParsingFailure(_))
    ));
}

#[test]
fn whole_file_loaders_read_docx_epub_pdf_and_text() {
    let docx = zip_bytes(&[(
        "word/document.xml",
        r#"<w:document><w:body><w:p><w:r><w:t>Hello docx.</w:t></w:r></w:p></w:body></w:document>"#,
    )]);
    let document = load_docx_file("dir/story.docx", &docx).unwrap();
    assert_eq!(document.title, "story");
    assert!(document.text.contains("Hello docx."));
    assert!(matches!(load_docx_file("x.docx", b"junk"), Err(DocumentError::Archive(_))));
    let blank = zip_bytes(&[("word/document.xml", "<w:document></w:document>")]);
    assert_eq!(
        load_docx_file("x.docx", &blank).unwrap_err(),
        DocumentError::EmptyDocument("x.docx".into())
    );

    let epub = zip_bytes(&[
        ("META-INF/container.xml", r#"<container><rootfile full-path="OEBPS/content.opf"/></container>"#),
        (
            "OEBPS/content.opf",
            r#"<package><metadata><dc:title>Moon Book</dc:title></metadata><manifest><item id="c1" href="one.xhtml"/></manifest><spine><itemref idref="c1"/></spine></package>"#,
        ),
        ("OEBPS/one.xhtml", "<html><body><p>Only paragraph.</p></body></html>"),
    ]);
    let document = load_epub_file("novel.epub", &epub).unwrap();
    assert_eq!(document.title, "Moon Book");
    assert!(document.text.contains("Only paragraph."));

    let pdf = load_pdf_file("scan.pdf", &Ok("Line one\r\nLine two".to_string())).unwrap();
    assert_eq!(pdf.title, "scan");
    assert_eq!(pdf.text, "Line one\nLine two");
    assert_eq!(
        load_pdf_file("scan.pdf", &Err("boom".to_string())).unwrap_err(),
        DocumentError::ParsingFailure("failed to extract text from PDF scan.pdf: boom".into())
    );

    let text = load_text_file("notes/a.txt", "Plain text".as_bytes()).unwrap();
    assert_eq!((text.title.as_str(), text.text.as_str()), ("a", "Plain text"));
    assert!(matches!(load_text_file("a.txt", &[0xff, 0xfe]), Err(DocumentError::Io(_))));
}

#[test]
fn load_file_dispatches_on_the_extension() {
    let none: Result<String, String> = Err("not a PDF".to_string());
    let text = load_file("notes/Tale.MD", "# Heading".as_bytes(), &none).unwrap();
    assert_eq!((text.title.as_str(), text.text.as_str()), ("Tale", "# Heading"));
    let plain = load_file("a/b.txt", "body".as_bytes(), &none).unwrap();
    assert_eq!(plain.text, "body");
    assert!(matches!(load_file("book.docx", b"junk", &none), Err(DocumentError::Archive(_))));
    assert!(matches!(load_file("book.epub", b"junk", &none), Err(DocumentError::Archive(_))));
    let pdf = load_file("scan.PDF", b"%PDF", &Ok("Page text".to_string())).unwrap();
    assert_eq!((pdf.title.as_str(), pdf.text.as_str()), ("scan", "Page text"));
    assert_eq!(
        load_file("story.rtf", b"x", &none).unwrap_err(),
        DocumentError::UnsupportedFormat("story.rtf".into())
    );
    assert_eq!(
        load_file("markdown.markdown", b"x", &none).unwrap_err(),
        DocumentError::UnsupportedFormat("markdown.markdown".into())
    );
}
