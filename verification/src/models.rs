//! The manuscript model: formats, source locations, books, chapters, scenes
//! and paragraphs.

use vstd::prelude::*;
use crate::text::{ascii_lower_vec, chars_of, eq_str, ascii_lower_seq, slice_vec, string_of};
use crate::fmt::{dec_digits, dec_string};

verus! {

/// The manuscript formats the engine ingests.
#[derive(Debug, Clone, Copy, PartialEq, Eq, Structural, Hash, PartialOrd, Ord)]
pub enum DocumentFormat {
    Pdf,
    Epub,
    Docx,
    Txt,
    Markdown,
}

/// The text after the last `'/'` of a path.
pub open spec fn last_component(p: Seq<char>) -> Seq<char>
    decreases p.len(),
{
    if p.len() == 0 {
        p
    } else if p.last() == '/' {
        seq![]
    } else {
        last_component(p.drop_last()).push(p.last())
    }
}

/// A path without its trailing separators and trailing `.` components, as
/// `Path` reads its components.
pub open spec fn strip_tail(p: Seq<char>) -> Seq<char>
    decreases p.len(),
{
    if p.len() == 0 {
        p
    } else if p.last() == '/' {
        strip_tail(p.drop_last())
    } else if p.len() >= 2 && p.last() == '.' && p[p.len() - 2] == '/' {
        strip_tail(p.drop_last())
    } else {
        p
    }
}

/// The last component of a path (`Path::file_name`, when it is a name):
/// trailing separators and `.` components do not count.
pub open spec fn file_name_of(p: Seq<char>) -> Seq<char> {
    last_component(strip_tail(p))
}

/// The length of the prefix of `p` that `strip_tail` keeps.
pub fn stripped_len(p: &Vec<char>) -> (n: usize)
    ensures
        n <= p@.len(),
        p@.take(n as int) == strip_tail(p@),
{
    let mut n: usize = p.len();
    assert(p@.take(n as int) =~= p@);
    loop
        invariant
            n <= p@.len(),
            strip_tail(p@) == strip_tail(p@.take(n as int)),
        ensures
            n <= p@.len(),
            strip_tail(p@) == p@.take(n as int),
        decreases n,
    {
        let ghost t = p@.take(n as int);
        if n > 0 && p[n - 1] == '/' {
            assert(t.drop_last() =~= p@.take(n - 1));
            n -= 1;
        } else if n >= 2 && p[n - 1] == '.' && p[n - 2] == '/' {
            assert(t.drop_last() =~= p@.take(n - 1));
            n -= 1;
        } else {
            break;
        }
    }
    n
}

/// The position of the last `'.'` in `s`, if any.
pub open spec fn last_dot(s: Seq<char>) -> Option<int>
    decreases s.len(),
{
    if s.len() == 0 {
        None
    } else if s.last() == '.' {
        Some(s.len() - 1)
    } else {
        last_dot(s.drop_last())
    }
}

/// `Path::extension`: the text after the last dot of the file name, unless the
/// name has no dot, starts with its only dot, or is `..`.
pub open spec fn extension_of(p: Seq<char>) -> Option<Seq<char>> {
    let name = file_name_of(p);
    if name == ".."@ {
        None
    } else {
        match last_dot(name) {
            None => None,
            Some(d) => if d == 0 {
                None
            } else {
                Some(name.subrange(d + 1, name.len() as int))
            },
        }
    }
}

/// The format for a lowercased extension.
pub open spec fn format_for_extension(e: Seq<char>) -> Option<DocumentFormat> {
    if e == "pdf"@ {
        Some(DocumentFormat::Pdf)
    } else if e == "epub"@ {
        Some(DocumentFormat::Epub)
    } else if e == "docx"@ {
        Some(DocumentFormat::Docx)
    } else if e == "txt"@ {
        Some(DocumentFormat::Txt)
    } else if e == "md"@ || e == "markdown"@ {
        Some(DocumentFormat::Markdown)
    } else {
        None
    }
}

/// The format a path's extension names (case-insensitively).
pub open spec fn format_of_path(p: Seq<char>) -> Option<DocumentFormat> {
    match extension_of(p) {
        None => None,
        Some(e) => format_for_extension(ascii_lower_seq(e)),
    }
}

/// The extension of a path's file name (`Path::extension`).
pub fn extension(path: &str) -> (r: Option<String>)
    ensures
    match r {
        Some(e) => extension_of(path@) == Some(e@),
        None => extension_of(path@) is None,
    },
{
    let full = chars_of(path);
    let end = stripped_len(&full);
    let p = slice_vec(&full, 0, end);
    assert(p@ == strip_tail(path@));
    // file name
    let mut name_start: usize = p.len();
    assert(p@.take(p@.len() as int) =~= p@);
    assert(p@.subrange(p@.len() as int, p@.len() as int) =~= Seq::<char>::empty());
    assert(p@ + Seq::<char>::empty() =~= p@);
    while name_start > 0 && p[name_start - 1] != '/'
        invariant
            name_start <= p.len(),
            last_component(p@) == last_component(p@.take(name_start as int)) + p@.subrange(
                name_start as int,
                p@.len() as int,
            ),
        decreases name_start,
    {
        let ghost t = p@.take(name_start as int);
        assert(t.drop_last() =~= p@.take(name_start - 1));
        assert(p@.subrange(name_start - 1, p@.len() as int) =~= seq![t.last()] + p@.subrange(
            name_start as int,
            p@.len() as int,
        ));
        name_start -= 1;
    }
    proof {
        let t = p@.take(name_start as int);
        if name_start > 0 {
            assert(t.last() == '/');
        } else {
            assert(t.len() == 0);
        }
        assert(last_component(p@) =~= p@.subrange(name_start as int, p@.len() as int));
    }
    let name = slice_vec(&p, name_start, p.len());
    if eq_str(&name, "..") {
        return None;
    }
    let mut d: usize = name.len();
    assert(name@.take(name@.len() as int) =~= name@);
    while d > 0 && name[d - 1] != '.'
        invariant
            d <= name.len(),
            last_dot(name@) == last_dot(name@.take(d as int)),
        decreases d,
    {
        assert(name@.take(d as int).drop_last() =~= name@.take(d - 1));
        d -= 1;
    }
    assert(name@.take(name@.len() as int) =~= name@);
    if d == 0 {
        assert(last_dot(name@.take(0)) is None);
        return None;
    }
    assert(last_dot(name@.take(d as int)) == Some(d - 1));
    if d - 1 == 0 {
        return None;
    }
    let ext = slice_vec(&name, d, name.len());
    assert(ext@ =~= name@.subrange(d as int, name@.len() as int));
    Some(string_of(&ext))
}

impl DocumentFormat {
    /// The format named by the extension of `path`, if it is supported.
    pub fn from_path(path: &str) -> (r: Option<DocumentFormat>)
        ensures
            r == format_of_path(path@),
    {
        let ext = match extension(path) {
            Some(e) => chars_of(e.as_str()),
            None => return None,
        };
        let lower = ascii_lower_vec(&ext);
        if eq_str(&lower, "pdf") {
            Some(DocumentFormat::Pdf)
        } else if eq_str(&lower, "epub") {
            Some(DocumentFormat::Epub)
        } else if eq_str(&lower, "docx") {
            Some(DocumentFormat::Docx)
        } else if eq_str(&lower, "txt") {
            Some(DocumentFormat::Txt)
        } else if eq_str(&lower, "md") || eq_str(&lower, "markdown") {
            Some(DocumentFormat::Markdown)
        } else {
            None
        }
    }
}

/// Where a piece of manuscript text came from.
#[derive(Debug, Clone, PartialEq, Eq)]
pub struct SourceLocation {
    pub path: String,
    pub format: DocumentFormat,
    pub page: Option<u32>,
    pub resource: Option<String>,
    pub chapter: Option<usize>,
    pub scene: Option<usize>,
    pub paragraph: Option<usize>,
}

impl SourceLocation {
    /// A location naming only the file and its format.
    pub fn new(path: &str, format: DocumentFormat) -> (r: SourceLocation)
        ensures
            r.path@ == path@,
            r.format == format,
            r.page is None,
            r.resource is None,
            r.chapter is None,
            r.scene is None,
            r.paragraph is None,
    {
        SourceLocation {
            path: String::from_str(path),
            format,
            page: None,
            resource: None,
            chapter: None,
            scene: None,
            paragraph: None,
        }
    }
}

/// A copy of an optional string.
pub fn copy_opt_string(o: &Option<String>) -> (r: Option<String>)
    ensures
        r == *o,
{
    match o {
        Some(s) => Some(s.clone()),
        None => None,
    }
}

impl SourceLocation {
    /// A field-by-field copy.
    pub fn copy(&self) -> (r: SourceLocation)
        ensures
            r == *self,
    {
        SourceLocation {
            path: self.path.clone(),
            format: self.format,
            page: self.page,
            resource: copy_opt_string(&self.resource),
            chapter: self.chapter,
            scene: self.scene,
            paragraph: self.paragraph,
        }
    }
}

/// Bibliographic data of a manuscript.
#[derive(Debug, Clone)]
pub struct Book {
    pub id: String,
    pub title: String,
    pub author: Option<String>,
    pub language: Option<String>,
    /// Metadata entries (key, value) in ascending key order.
    pub metadata: Vec<(String, String)>,
}

/// One translation unit of the manuscript.
#[derive(Debug, Clone)]
pub struct Paragraph {
    pub id: String,
    pub scene_id: String,
    pub original_text: String,
    pub position: usize,
    pub source: SourceLocation,
}

/// A scene: the paragraphs between scene breaks.
#[derive(Debug, Clone)]
pub struct Scene {
    pub id: String,
    pub chapter_id: String,
    pub order: usize,
    pub text: String,
    /// Importance labels assigned downstream.
    pub importance_labels: Vec<String>,
    pub paragraphs: Vec<Paragraph>,
    pub source: SourceLocation,
}

/// A chapter of the manuscript.
#[derive(Debug, Clone)]
pub struct Chapter {
    pub id: String,
    pub title: String,
    pub order: usize,
    /// Zero-based position among the chapters.
    pub index: usize,
    pub content: String,
    pub scenes: Vec<Scene>,
    pub source: SourceLocation,
}

/// `"translated-chapter-{index + 1}"`.
pub open spec fn translated_chapter_id(index: nat) -> Seq<char> {
    "translated-chapter-"@ + dec_digits(index + 1)
}

impl Chapter {
    /// A chapter of translated text with no scene structure.
    pub fn translated(index: usize, title: String, content: String) -> (c: Chapter)
        requires
            index < usize::MAX,
        ensures
            c.id@ == translated_chapter_id(index as nat),
            c.title == title,
            c.order == index + 1,
            c.index == index,
            c.content == content,
            c.scenes@.len() == 0,
            c.source.path@ == "translated"@,
            c.source.format == DocumentFormat::Txt,
            c.source.page is None && c.source.resource is None && c.source.chapter is None
                && c.source.scene is None && c.source.paragraph is None,
    {
        let mut id = chars_of("translated-chapter-");
        let n = crate::fmt::dec_vec(index + 1);
        crate::text::extend_all(&mut id, &n);
        Chapter {
            id: string_of(&id),
            title,
            order: index + 1,
            index,
            content,
            scenes: Vec::new(),
            source: SourceLocation::new("translated", DocumentFormat::Txt),
        }
    }
}

/// A parsed manuscript: book data and ordered chapters.
#[derive(Debug, Clone)]
pub struct Manuscript {
    pub book: Book,
    pub chapters: Vec<Chapter>,
    pub source: SourceLocation,
}

/// The number of paragraphs across the scenes of the chapters.
pub open spec fn paragraph_total(chapters: Seq<Chapter>) -> int
    decreases chapters.len(),
{
    if chapters.len() == 0 {
        0
    } else {
        paragraph_total(chapters.drop_last()) + scene_paragraphs(chapters.last().scenes@)
    }
}

/// The number of paragraphs across scenes.
pub open spec fn scene_paragraphs(scenes: Seq<Scene>) -> int
    decreases scenes.len(),
{
    if scenes.len() == 0 {
        0
    } else {
        scene_paragraphs(scenes.drop_last()) + scenes.last().paragraphs@.len()
    }
}

/// The paragraphs of the scenes, in order.
pub open spec fn scenes_flat(scenes: Seq<Scene>) -> Seq<Paragraph>
    decreases scenes.len(),
{
    if scenes.len() == 0 {
        seq![]
    } else {
        scenes_flat(scenes.drop_last()) + scenes.last().paragraphs@
    }
}

/// Every scene's paragraphs, chapter after chapter.
pub open spec fn chapters_flat(chapters: Seq<Chapter>) -> Seq<Paragraph>
    decreases chapters.len(),
{
    if chapters.len() == 0 {
        seq![]
    } else {
        chapters_flat(chapters.drop_last()) + scenes_flat(chapters.last().scenes@)
    }
}

impl Paragraph {
    /// A field-by-field copy.
    pub fn copy(&self) -> (r: Paragraph)
        ensures
            r == *self,
    {
        Paragraph {
            id: self.id.clone(),
            scene_id: self.scene_id.clone(),
            original_text: self.original_text.clone(),
            position: self.position,
            source: self.source.copy(),
        }
    }
}

impl Manuscript {
    /// The number of chapters.
    pub fn chapter_count(&self) -> (n: usize)
        ensures
            n == self.chapters@.len(),
    {
        self.chapters.len()
    }

    /// The number of paragraphs, that is of translation units.
    pub fn paragraph_count(&self) -> (n: usize)
        requires
            paragraph_total(self.chapters@) <= usize::MAX,
        ensures
            n == paragraph_total(self.chapters@),
    {
        let mut total: usize = 0;
        let mut c: usize = 0;
        while c < self.chapters.len()
            invariant
                c <= self.chapters@.len(),
                paragraph_total(self.chapters@) <= usize::MAX,
                total == paragraph_total(self.chapters@.take(c as int)),
            decreases self.chapters.len() - c,
        {
            let ghost prefix = self.chapters@.take(c as int);
            assert(self.chapters@.take(c + 1).drop_last() =~= prefix);
            proof {
                lemma_paragraph_total_prefix(self.chapters@, c + 1);
            }
            let scenes = &self.chapters[c].scenes;
            let mut s: usize = 0;
            let mut sub: usize = 0;
            while s < scenes.len()
                invariant
                    s <= scenes@.len(),
                    total + scene_paragraphs(scenes@) <= usize::MAX,
                    sub == scene_paragraphs(scenes@.take(s as int)),
                decreases scenes.len() - s,
            {
                assert(scenes@.take(s + 1).drop_last() =~= scenes@.take(s as int));
                proof {
                    lemma_scene_paragraphs_prefix(scenes@, s + 1);
                }
                sub = sub + scenes[s].paragraphs.len();
                s += 1;
            }
            assert(scenes@.take(scenes@.len() as int) =~= scenes@);
            total = total + sub;
            c += 1;
        }
        assert(self.chapters@.take(self.chapters@.len() as int) =~= self.chapters@);
        total
    }
}

impl Manuscript {
    /// The translation units of the manuscript: every scene's paragraphs,
    /// chapter after chapter, scene after scene.
    pub fn translation_units(&self) -> (r: Vec<Paragraph>)
        ensures
            r@ == chapters_flat(self.chapters@),
    {
        let chs = &self.chapters;
        let mut out: Vec<Paragraph> = Vec::new();
        let mut c: usize = 0;
        while c < chs.len()
            invariant
                c <= chs@.len(),
                out@ == chapters_flat(chs@.take(c as int)),
            decreases chs.len() - c,
        {
            assert(chs@.take(c + 1).drop_last() =~= chs@.take(c as int));
            let scenes = &chs[c].scenes;
            let ghost base = out@;
            let mut s: usize = 0;
            while s < scenes.len()
                invariant
                    s <= scenes@.len(),
                    out@ == base + scenes_flat(scenes@.take(s as int)),
                decreases scenes.len() - s,
            {
                assert(scenes@.take(s + 1).drop_last() =~= scenes@.take(s as int));
                let ps = &scenes[s].paragraphs;
                let ghost before = out@;
                let mut k: usize = 0;
                while k < ps.len()
                    invariant
                        k <= ps@.len(),
                        out@ == before + ps@.take(k as int),
                    decreases ps.len() - k,
                {
                    out.push(ps[k].copy());
                    assert(out@ =~= before + ps@.take(k + 1));
                    k += 1;
                }
                assert(ps@.take(ps@.len() as int) =~= ps@);
                assert(out@ =~= base + scenes_flat(scenes@.take(s + 1)));
                s += 1;
            }
            assert(scenes@.take(scenes@.len() as int) =~= scenes@);
            assert(out@ =~= chapters_flat(chs@.take(c + 1)));
            c += 1;
        }
        assert(chs@.take(chs@.len() as int) =~= chs@);
        out
    }

    /// Whether the number of paragraphs fits in `usize`, as
    /// `paragraph_count` needs.
    pub fn paragraph_count_fits(&self) -> (r: bool)
        ensures
            r == (paragraph_total(self.chapters@) <= usize::MAX),
    {
        let mut total: usize = 0;
        let mut c: usize = 0;
        while c < self.chapters.len()
            invariant
                c <= self.chapters@.len(),
                total == paragraph_total(self.chapters@.take(c as int)),
            decreases self.chapters.len() - c,
        {
            assert(self.chapters@.take(c + 1).drop_last() =~= self.chapters@.take(c as int));
            proof {
                lemma_paragraph_total_prefix(self.chapters@, c + 1);
            }
            let scenes = &self.chapters[c].scenes;
            let mut s: usize = 0;
            let mut sub: usize = 0;
            while s < scenes.len()
                invariant
                    s <= scenes@.len(),
                    c < self.chapters@.len(),
                    scenes == &self.chapters@[c as int].scenes,
                    total == paragraph_total(self.chapters@.take(c as int)),
                    sub == scene_paragraphs(scenes@.take(s as int)),
                decreases scenes.len() - s,
            {
                assert(scenes@.take(s + 1).drop_last() =~= scenes@.take(s as int));
                let n = scenes[s].paragraphs.len();
                if n > usize::MAX - sub {
                    proof {
                        lemma_scene_paragraphs_prefix(scenes@, s + 1);
                        lemma_paragraph_total_nonneg(self.chapters@.take(c as int));
                        assert(self.chapters@.take(c + 1).drop_last() =~= self.chapters@.take(c as int));
                        assert(self.chapters@.take(c + 1).last().scenes@ == scenes@);
                        lemma_paragraph_total_prefix(self.chapters@, c + 1);
                    }
                    return false;
                }
                sub = sub + n;
                s += 1;
            }
            assert(scenes@.take(scenes@.len() as int) =~= scenes@);
            if sub > usize::MAX - total {
                proof {
                    lemma_paragraph_total_prefix(self.chapters@, c + 1);
                }
                return false;
            }
            total = total + sub;
            c += 1;
        }
        assert(self.chapters@.take(self.chapters@.len() as int) =~= self.chapters@);
        true
    }
}

pub proof fn lemma_paragraph_total_nonneg(c: Seq<Chapter>)
    ensures
        paragraph_total(c) >= 0,
    decreases c.len(),
{
    if c.len() > 0 {
        lemma_paragraph_total_nonneg(c.drop_last());
        lemma_scene_paragraphs_nonneg(c.last().scenes@);
    }
}

pub proof fn lemma_scene_paragraphs_prefix(s: Seq<Scene>, n: int)
    requires
        0 <= n <= s.len(),
    ensures
        scene_paragraphs(s.take(n)) <= scene_paragraphs(s),
    decreases s.len(),
{
    if n < s.len() {
        lemma_scene_paragraphs_prefix(s.drop_last(), n);
        assert(s.drop_last().take(n) =~= s.take(n));
    } else {
        assert(s.take(n) =~= s);
    }
}

pub proof fn lemma_scene_paragraphs_nonneg(s: Seq<Scene>)
    ensures
        scene_paragraphs(s) >= 0,
    decreases s.len(),
{
    if s.len() > 0 {
        lemma_scene_paragraphs_nonneg(s.drop_last());
    }
}

pub proof fn lemma_paragraph_total_prefix(c: Seq<Chapter>, n: int)
    requires
        0 <= n <= c.len(),
    ensures
        paragraph_total(c.take(n)) <= paragraph_total(c),
    decreases c.len(),
{
    if n < c.len() {
        lemma_paragraph_total_prefix(c.drop_last(), n);
        lemma_scene_paragraphs_nonneg(c.last().scenes@);
        assert(c.drop_last().take(n) =~= c.take(n));
    } else {
        assert(c.take(n) =~= c);
    }
}

} // verus!
