//! Translated EPUB export: the mapping of translated blocks and the choice of
//! reading direction.

use vstd::prelude::*;
use crate::text::{
    ascii_lower_seq, ascii_lower_vec, chars_of, eq_str, extend_str, is_blank, is_blank_range,
    slice_vec, string_of, trim, trim_vec, vec_eq, seq_lt, lt_exec, lemma_seq_lt_irreflexive,
    lemma_seq_lt_total, lemma_seq_lt_transitive,
};
use crate::error::DocumentError;

verus! {

/// The translated text for one source block.
#[derive(Debug, Clone, PartialEq, Eq)]
pub struct EpubBlockTranslation {
    pub block_id: String,
    pub text: String,
}

impl EpubBlockTranslation {
    pub fn new(block_id: &str, text: &str) -> (r: EpubBlockTranslation)
        ensures
            r.block_id@ == block_id@,
            r.text@ == text@,
    {
        EpubBlockTranslation { block_id: block_id.to_owned(), text: text.to_owned() }
    }
}

/// What an EPUB export did.
#[derive(Debug, Clone, PartialEq, Eq)]
pub struct EpubExportReport {
    pub translated_blocks: usize,
    pub files_checked: usize,
    pub warnings: Vec<String>,
    pub rtl_metadata_applied: bool,
}

/// Round-trip EPUB export needs the BookForge reader and writer, which this
/// build does not include; the request is refused with an explanation.
pub fn export_translated_epub(
    source: &str,
    output: &str,
    target_language: &str,
    translations: &Vec<EpubBlockTranslation>,
) -> (r: Result<EpubExportReport, DocumentError>)
    ensures
        r matches Err(DocumentError::InvalidStructure(m)) && m@
            == "EPUB round-trip export requires the document-engine 'bookforge-epub' feature"@,
{
    Err(
        DocumentError::InvalidStructure(
            String::from_str(
                "EPUB round-trip export requires the document-engine 'bookforge-epub' feature",
            ),
        ),
    )
}

/// The block id and text of a translation.
pub open spec fn pair_of(t: EpubBlockTranslation) -> (Seq<char>, Seq<char>) {
    (t.block_id@, t.text@)
}

/// Why translation `k` of `ts` is refused, given the known block ids: its block
/// is unknown, its text is blank, or its block was already translated.
pub open spec fn mapping_fault(known: Seq<Seq<char>>, ts: Seq<(Seq<char>, Seq<char>)>, k: int) -> bool {
    ||| !known.contains(ts[k].0)
    ||| is_blank(ts[k].1)
    ||| exists|j: int| 0 <= j < k && ts[j].0 == ts[k].0
}

/// Keys strictly ascending.
pub open spec fn keys_ascending(r: Seq<(Seq<char>, Seq<char>)>) -> bool {
    forall|i: int, j: int| 0 <= i < j < r.len() ==> seq_lt(#[trigger] r[i].0, #[trigger] r[j].0)
}

/// `r` holds exactly the pairs of `ts`.
pub open spec fn same_pairs(r: Seq<(Seq<char>, Seq<char>)>, ts: Seq<(Seq<char>, Seq<char>)>) -> bool {
    &&& forall|k: int| 0 <= k < ts.len() ==> r.contains(#[trigger] ts[k])
    &&& forall|j: int| 0 <= j < r.len() ==> ts.contains(#[trigger] r[j])
}

/// The index of the first refused translation, if any.
fn first_fault(known_blocks: &Vec<String>, translations: &Vec<EpubBlockTranslation>) -> (r: Option<
    (usize, u8),
>)
    ensures
        ({
            let ts = translations@.map_values(|t: EpubBlockTranslation| pair_of(t));
            let known = known_blocks@.map_values(|s: String| s@);
            &&& r is None ==> forall|k: int| 0 <= k < ts.len() ==> !mapping_fault(known, ts, k)
            &&& r matches Some(f) ==> f.0 < ts.len() && mapping_fault(known, ts, f.0 as int)
        }),
{
    let ghost ts = translations@.map_values(|t: EpubBlockTranslation| pair_of(t));
    let ghost known = known_blocks@.map_values(|s: String| s@);
    let mut i: usize = 0;
    while i < translations.len()
        invariant
            i <= translations@.len(),
            ts == translations@.map_values(|t: EpubBlockTranslation| pair_of(t)),
            known == known_blocks@.map_values(|s: String| s@),
            forall|k: int| 0 <= k < i ==> !mapping_fault(known, ts, k),
        decreases translations.len() - i,
    {
        assert(ts[i as int] == pair_of(translations@[i as int]));
        let id = chars_of(translations[i].block_id.as_str());
        let mut found = false;
        let mut j: usize = 0;
        while j < known_blocks.len()
            invariant
                j <= known_blocks@.len(),
                known == known_blocks@.map_values(|s: String| s@),
                found <==> exists|w: int| 0 <= w < j && known[w] == id@,
            decreases known_blocks.len() - j,
        {
            let kj = chars_of(known_blocks[j].as_str());
            assert(known[j as int] == kj@);
            if vec_eq(&kj, &id) {
                found = true;
            }
            j += 1;
        }
        if !found {
            assert(!known.contains(id@));
            return Some((i, 0));
        }
        let txt = chars_of(translations[i].text.as_str());
        assert(txt@.subrange(0, txt@.len() as int) =~= txt@);
        if is_blank_range(&txt, 0, txt.len()) {
            return Some((i, 1));
        }
        let mut dup = false;
        let mut j: usize = 0;
        while j < i
            invariant
                j <= i < translations@.len(),
                ts == translations@.map_values(|t: EpubBlockTranslation| pair_of(t)),
                id@ == ts[i as int].0,
                dup <==> exists|w: int| 0 <= w < j && ts[w].0 == id@,
            decreases i - j,
        {
            let other = chars_of(translations[j].block_id.as_str());
            assert(ts[j as int] == pair_of(translations@[j as int]));
            if vec_eq(&other, &id) {
                dup = true;
            }
            j += 1;
        }
        if dup {
            return Some((i, 2));
        }
        i += 1;
    }
    None
}

/// Checks an explicit translated-block mapping: it must not be empty, every
/// block must exist, carry non-blank text, and appear once. The accepted
/// mapping comes back ordered by block id.
pub fn validate_translation_mapping(
    known_blocks: &Vec<String>,
    translations: &Vec<EpubBlockTranslation>,
) -> (r: Result<Vec<(String, String)>, DocumentError>)
    ensures
        ({
            let ts = translations@.map_values(|t: EpubBlockTranslation| pair_of(t));
            let known = known_blocks@.map_values(|s: String| s@);
            &&& r is Ok <==> (ts.len() > 0 && forall|k: int|
                0 <= k < ts.len() ==> !mapping_fault(known, ts, k))
            &&& r matches Ok(v) ==> {
                let rv = v@.map_values(|p: (String, String)| (p.0@, p.1@));
                &&& keys_ascending(rv)
                &&& same_pairs(rv, ts)
                &&& rv.len() == ts.len()
            }
            &&& r matches Err(e) ==> e is InvalidStructure
        }),
{
    let ghost ts = translations@.map_values(|t: EpubBlockTranslation| pair_of(t));
    if translations.len() == 0 {
        return Err(
            DocumentError::InvalidStructure(
                String::from_str("EPUB export has no explicit translated block mappings"),
            ),
        );
    }
    match first_fault(known_blocks, translations) {
        Some((k, kind)) => {
            let id = chars_of(translations[k].block_id.as_str());
            let mut m = if kind == 0 {
                chars_of("EPUB translation contains unknown block id '")
            } else if kind == 1 {
                chars_of("EPUB translation for block '")
            } else {
                chars_of("EPUB translation contains duplicate block id '")
            };
            crate::text::extend_all(&mut m, &id);
            if kind == 1 {
                extend_str(&mut m, "' is empty");
            } else {
                extend_str(&mut m, "'");
            }
            return Err(DocumentError::InvalidStructure(string_of(&m)));
        },
        None => {},
    }
    let ghost known = known_blocks@.map_values(|s: String| s@);
    let mut out: Vec<(String, String)> = Vec::new();
    let mut i: usize = 0;
    while i < translations.len()
        invariant
            i <= translations@.len(),
            ts == translations@.map_values(|t: EpubBlockTranslation| pair_of(t)),
            known == known_blocks@.map_values(|s: String| s@),
            forall|k: int| 0 <= k < ts.len() ==> !mapping_fault(known, ts, k),
            keys_ascending(out@.map_values(|p: (String, String)| (p.0@, p.1@))),
            same_pairs(out@.map_values(|p: (String, String)| (p.0@, p.1@)), ts.take(i as int)),
            out@.len() == i,
        decreases translations.len() - i,
    {
        let ghost rv = out@.map_values(|p: (String, String)| (p.0@, p.1@));
        assert(ts[i as int] == pair_of(translations@[i as int]));
        let id = chars_of(translations[i].block_id.as_str());
        let mut pos: usize = 0;
        while pos < out.len() && lt_exec(&chars_of(out[pos].0.as_str()), &id)
            invariant
                pos <= out@.len(),
                rv == out@.map_values(|p: (String, String)| (p.0@, p.1@)),
                forall|q: int| 0 <= q < pos ==> seq_lt(#[trigger] rv[q].0, id@),
            decreases out.len() - pos,
        {
            pos += 1;
        }
        proof {
            if pos < out@.len() {
                assert(!seq_lt(rv[pos as int].0, id@));
                assert(ts.take(i as int).contains(rv[pos as int]));
                let w = choose|w: int| 0 <= w < i && ts.take(i as int)[w] == rv[pos as int];
                assert(ts[w] == rv[pos as int]);
                assert(!mapping_fault(known, ts, i as int));
                assert(rv[pos as int].0 != id@);
                lemma_seq_lt_total(rv[pos as int].0, id@);
            }
        }
        let pair = (translations[i].block_id.clone(), translations[i].text.clone());
        let ghost pv = (pair.0@, pair.1@);
        assert(pv == ts[i as int]);
        out.insert(pos, pair);
        let ghost nv = out@.map_values(|p: (String, String)| (p.0@, p.1@));
        assert(nv =~= rv.take(pos as int).push(pv) + rv.skip(pos as int));
        assert forall|a: int, b: int| 0 <= a < b < nv.len() implies seq_lt(
            #[trigger] nv[a].0,
            #[trigger] nv[b].0,
        ) by {
            if b < pos {
                assert(nv[a] == rv[a] && nv[b] == rv[b]);
            } else if b == pos {
                assert(nv[a] == rv[a]);
            } else if a == pos {
                assert(nv[b] == rv[b - 1]);
                if b - 1 > pos {
                    lemma_seq_lt_transitive(id@, rv[pos as int].0, rv[b - 1].0);
                }
            } else if a < pos {
                assert(nv[a] == rv[a] && nv[b] == rv[b - 1]);
            } else {
                assert(nv[a] == rv[a - 1] && nv[b] == rv[b - 1]);
            }
        }
        assert forall|k: int| 0 <= k < ts.take(i + 1).len() implies nv.contains(
            #[trigger] ts.take(i + 1)[k],
        ) by {
            if k == i {
                assert(nv[pos as int] == pv);
            } else {
                assert(ts.take(i + 1)[k] == ts.take(i as int)[k]);
                assert(rv.contains(ts.take(i as int)[k]));
                let w = choose|w: int| 0 <= w < rv.len() && rv[w] == ts.take(i as int)[k];
                if w < pos {
                    assert(nv[w] == rv[w]);
                } else {
                    assert(nv[w + 1] == rv[w]);
                }
            }
        }
        assert forall|j: int| 0 <= j < nv.len() implies ts.take(i + 1).contains(#[trigger] nv[j]) by {
            if j == pos {
                assert(ts.take(i + 1)[i as int] == pv);
            } else {
                let rj = if j < pos {
                    j
                } else {
                    j - 1
                };
                assert(nv[j] == rv[rj]);
                assert(ts.take(i as int).contains(rv[rj]));
                let w = choose|w: int| 0 <= w < i && ts.take(i as int)[w] == rv[rj];
                assert(ts.take(i + 1)[w] == rv[rj]);
            }
        }
        i += 1;
    }
    assert(ts.take(ts.len() as int) =~= ts);
    Ok(out)
}

/// The primary subtag of a language tag: trimmed, ASCII-lowercased, up to the
/// first `'-'` or `'_'`.
pub open spec fn primary_subtag(lang: Seq<char>) -> Seq<char> {
    let l = ascii_lower_seq(trim(lang));
    l.take(subtag_end(l, 0))
}

/// The position of the first `'-'` or `'_'` at or after `i`, or the length.
pub open spec fn subtag_end(l: Seq<char>, i: int) -> int
    decreases l.len() - i,
{
    if i < 0 || i >= l.len() || l[i] == '-' || l[i] == '_' {
        if i < 0 {
            0
        } else if i > l.len() {
            l.len() as int
        } else {
            i
        }
    } else {
        subtag_end(l, i + 1)
    }
}

/// Languages written right to left: Persian, Arabic, Hebrew, Urdu, Pashto,
/// Central Kurdish.
pub open spec fn rtl_language(lang: Seq<char>) -> bool {
    let p = primary_subtag(lang);
    p == "fa"@ || p == "ar"@ || p == "he"@ || p == "ur"@ || p == "ps"@ || p == "ckb"@
}

/// Whether the language tag names a right-to-left language.
pub fn is_rtl_language(language: &str) -> (r: bool)
    ensures
        r == rtl_language(language@),
{
    let t = trim_vec(&chars_of(language));
    let l = ascii_lower_vec(&t);
    let mut e: usize = 0;
    while e < l.len() && l[e] != '-' && l[e] != '_'
        invariant
            e <= l.len(),
            subtag_end(l@, e as int) == subtag_end(l@, 0),
        decreases l.len() - e,
    {
        e += 1;
    }
    let p = slice_vec(&l, 0, e);
    assert(p@ =~= l@.take(e as int));
    eq_str(&p, "fa") || eq_str(&p, "ar") || eq_str(&p, "he") || eq_str(&p, "ur") || eq_str(&p, "ps")
        || eq_str(&p, "ckb")
}

} // verus!
