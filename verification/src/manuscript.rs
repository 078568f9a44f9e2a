//! Building the manuscript model from parsed blocks: chapters start at heading
//! blocks, scenes at scene breaks, and every paragraph gets a stable id and a
//! source location.

use vstd::prelude::*;
use crate::text::{chars_of, join, join_strings, string_of, trim, trim_vec, views};
use crate::fmt::{dec_digits, dec_string, dec_vec};
use crate::parser::{
    BlockKind, ParsedBlock, ParsedDocument, chapter_heading, chapter_heading_chars, split_paragraphs,
    split_paragraph_text, stable_id, stable_id_spec,
};
use crate::models::{Book, Chapter, Manuscript, Paragraph, Scene, SourceLocation};
use crate::error::DocumentError;

verus! {

broadcast use vstd::string::group_string_axioms;

impl ParsedBlock {
    /// A field-by-field copy.
    pub fn copy(&self) -> (r: ParsedBlock)
        ensures
            r == *self,
    {
        ParsedBlock { kind: self.kind, text: self.text.clone(), source: self.source.copy() }
    }
}

// ---------------------------------------------------------------------------
// Chapter groups
// ---------------------------------------------------------------------------

/// A chapter group: its title, its source and its blocks.
pub type Group = (Seq<char>, SourceLocation, Seq<ParsedBlock>);

/// A block opens a chapter when it is a heading, or a paragraph that reads as
/// a chapter heading.
pub open spec fn starts_chapter(b: ParsedBlock) -> bool {
    b.kind is Heading || (b.kind == BlockKind::Paragraph && chapter_heading(b.text@))
}

/// The title of the `n`-th group (zero-based): its heading, else `Chapter n+1`.
pub open spec fn fallback_title(t: Option<Seq<char>>, n: nat) -> Seq<char> {
    match t {
        Some(x) => x,
        None => "Chapter "@ + dec_digits(n + 1),
    }
}

/// The grouping state: closed groups, current heading, current source and the
/// blocks read since the heading.
pub type ChapterScan = (Seq<Group>, Option<Seq<char>>, SourceLocation, Seq<ParsedBlock>);

/// The groups once the current one is closed; a group without blocks is not
/// kept.
pub open spec fn close_group(st: ChapterScan) -> Seq<Group> {
    if st.3.len() > 0 {
        st.0.push((fallback_title(st.1, st.0.len()), st.2, st.3))
    } else {
        st.0
    }
}

/// One block read. A heading closes the current group and starts one titled by
/// its trimmed text, located at it; another block joins the current group (the
/// first block before any heading gives the group its location).
pub open spec fn chapter_step(st: ChapterScan, b: ParsedBlock) -> ChapterScan {
    if starts_chapter(b) {
        (close_group(st), Some(trim(b.text@)), b.source, seq![])
    } else {
        (
            st.0,
            st.1,
            if st.3.len() == 0 && st.1 is None {
                b.source
            } else {
                st.2
            },
            st.3.push(b),
        )
    }
}

/// The grouping state after reading the blocks in order.
pub open spec fn chapter_fold(bs: Seq<ParsedBlock>, init: ChapterScan) -> ChapterScan
    decreases bs.len(),
{
    if bs.len() == 0 {
        init
    } else {
        chapter_step(chapter_fold(bs.drop_last(), init), bs.last())
    }
}

/// The chapter groups of a document's blocks.
pub open spec fn chapter_groups(bs: Seq<ParsedBlock>, source: SourceLocation) -> Seq<Group> {
    close_group(chapter_fold(bs, (seq![], None, source, seq![])))
}

/// The view of an exec chapter group.
pub open spec fn group_view(g: (String, SourceLocation, Vec<ParsedBlock>)) -> Group {
    (g.0@, g.1, g.2@)
}

fn fallback_title_exec(t: &Option<Vec<char>>, n: usize) -> (r: String)
    requires
        n < usize::MAX,
    ensures
        r@ == fallback_title(
            match t {
                Some(x) => Some(x@),
                None => None,
            },
            n as nat,
        ),
{
    match t {
        Some(x) => string_of(x),
        None => {
            let mut v = chars_of("Chapter ");
            let d = dec_vec(n + 1);
            crate::text::extend_all(&mut v, &d);
            string_of(&v)
        },
    }
}

/// Groups the blocks into chapters.
pub fn group_chapters(blocks: &Vec<ParsedBlock>, source: &SourceLocation) -> (r: Vec<
    (String, SourceLocation, Vec<ParsedBlock>),
>)
    ensures
        r@.map_values(|g: (String, SourceLocation, Vec<ParsedBlock>)| group_view(g))
            == chapter_groups(blocks@, *source),
{
    let ghost init: ChapterScan = (seq![], None, *source, seq![]);
    let mut groups: Vec<(String, SourceLocation, Vec<ParsedBlock>)> = Vec::new();
    let mut title: Option<Vec<char>> = None;
    let mut src = source.copy();
    let mut cur: Vec<ParsedBlock> = Vec::new();
    let mut i: usize = 0;
    while i < blocks.len()
        invariant
            i <= blocks@.len(),
            init == (Seq::<Group>::empty(), None::<Seq<char>>, *source, Seq::<ParsedBlock>::empty()),
            groups@.len() + cur@.len() <= i,
            ({
                let st = chapter_fold(blocks@.take(i as int), init);
                &&& groups@.map_values(|g: (String, SourceLocation, Vec<ParsedBlock>)| group_view(g))
                    == st.0
                &&& match title {
                    Some(x) => st.1 == Some(x@),
                    None => st.1 is None,
                }
                &&& src == st.2
                &&& cur@ == st.3
            }),
        decreases blocks.len() - i,
    {
        assert(blocks@.take(i + 1).drop_last() =~= blocks@.take(i as int));
        assert(blocks@.take(i + 1).last() == blocks@[i as int]);
        let b = &blocks[i];
        let heading = match b.kind {
            BlockKind::Heading(_) => true,
            BlockKind::Paragraph => chapter_heading_chars(&chars_of(b.text.as_str())),
            BlockKind::SceneBreak => false,
        };
        if heading {
            if cur.len() > 0 {
                let t = fallback_title_exec(&title, groups.len());
                let ghost before = groups@.map_values(
                    |g: (String, SourceLocation, Vec<ParsedBlock>)| group_view(g),
                );
                let taken = cur;
                cur = Vec::new();
                let ghost gv = (t@, src, taken@);
                groups.push((t, src, taken));
                assert(groups@.map_values(|g: (String, SourceLocation, Vec<ParsedBlock>)| group_view(g))
                    =~= before.push(gv));
            }
            title = Some(trim_vec(&chars_of(b.text.as_str())));
            src = b.source.copy();
        } else {
            if cur.len() == 0 && title.is_none() {
                src = b.source.copy();
            }
            cur.push(b.copy());
        }
        i += 1;
    }
    assert(blocks@.take(blocks@.len() as int) =~= blocks@);
    if cur.len() > 0 {
        let t = fallback_title_exec(&title, groups.len());
        let ghost before = groups@.map_values(
            |g: (String, SourceLocation, Vec<ParsedBlock>)| group_view(g),
        );
        let ghost gv = (t@, src, cur@);
        groups.push((t, src, cur));
        assert(groups@.map_values(|g: (String, SourceLocation, Vec<ParsedBlock>)| group_view(g))
            =~= before.push(gv));
    }
    groups
}

// ---------------------------------------------------------------------------
// Scene groups
// ---------------------------------------------------------------------------

/// The scene state: closed scenes and the blocks since the last break.
pub type SceneScan = (Seq<Seq<ParsedBlock>>, Seq<ParsedBlock>);

/// One block read: a scene break closes a non-empty scene; any other block
/// joins the current scene.
pub open spec fn scene_step(st: SceneScan, b: ParsedBlock) -> SceneScan {
    if b.kind == BlockKind::SceneBreak {
        if st.1.len() > 0 {
            (st.0.push(st.1), seq![])
        } else {
            st
        }
    } else {
        (st.0, st.1.push(b))
    }
}

/// The scene state after reading the blocks in order.
pub open spec fn scene_fold(bs: Seq<ParsedBlock>) -> SceneScan
    decreases bs.len(),
{
    if bs.len() == 0 {
        (seq![], seq![])
    } else {
        scene_step(scene_fold(bs.drop_last()), bs.last())
    }
}

/// The non-empty runs of blocks between scene breaks.
pub open spec fn scene_groups(bs: Seq<ParsedBlock>) -> Seq<Seq<ParsedBlock>> {
    let st = scene_fold(bs);
    if st.1.len() > 0 {
        st.0.push(st.1)
    } else {
        st.0
    }
}

/// Splits a chapter's blocks into scenes at scene breaks.
pub fn split_scenes(blocks: &Vec<ParsedBlock>) -> (r: Vec<Vec<ParsedBlock>>)
    ensures
        r@.map_values(|v: Vec<ParsedBlock>| v@) == scene_groups(blocks@),
{
    let mut done: Vec<Vec<ParsedBlock>> = Vec::new();
    let mut cur: Vec<ParsedBlock> = Vec::new();
    let mut i: usize = 0;
    while i < blocks.len()
        invariant
            i <= blocks@.len(),
            ({
                let st = scene_fold(blocks@.take(i as int));
                &&& done@.map_values(|v: Vec<ParsedBlock>| v@) == st.0
                &&& cur@ == st.1
            }),
        decreases blocks.len() - i,
    {
        assert(blocks@.take(i + 1).drop_last() =~= blocks@.take(i as int));
        assert(blocks@.take(i + 1).last() == blocks@[i as int]);
        if blocks[i].kind == BlockKind::SceneBreak {
            if cur.len() > 0 {
                let ghost before = done@.map_values(|v: Vec<ParsedBlock>| v@);
                let taken = cur;
                cur = Vec::new();
                let ghost tv = taken@;
                done.push(taken);
                assert(done@.map_values(|v: Vec<ParsedBlock>| v@) =~= before.push(tv));
            }
        } else {
            cur.push(blocks[i].copy());
        }
        i += 1;
    }
    assert(blocks@.take(blocks@.len() as int) =~= blocks@);
    if cur.len() > 0 {
        let ghost before = done@.map_values(|v: Vec<ParsedBlock>| v@);
        let ghost tv = cur@;
        done.push(cur);
        assert(done@.map_values(|v: Vec<ParsedBlock>| v@) =~= before.push(tv));
    }
    done
}


// ---------------------------------------------------------------------------
// Paragraphs and their number
// ---------------------------------------------------------------------------

/// The paragraphs of blocks, in order, each with the location of its block.
pub open spec fn scene_items(bs: Seq<ParsedBlock>) -> Seq<(Seq<char>, SourceLocation)>
    decreases bs.len(),
{
    if bs.len() == 0 {
        seq![]
    } else {
        let b = bs.last();
        scene_items(bs.drop_last()) + split_paragraphs(b.text@).map_values(
            |t: Seq<char>| (t, b.source),
        )
    }
}

pub proof fn lemma_scene_items_append(a: Seq<ParsedBlock>, b: Seq<ParsedBlock>)
    ensures
        scene_items(a + b) == scene_items(a) + scene_items(b),
    decreases b.len(),
{
    if b.len() == 0 {
        assert(a + b =~= a);
        assert(scene_items(a) + scene_items(b) =~= scene_items(a));
    } else {
        assert((a + b).drop_last() =~= a + b.drop_last());
        assert((a + b).last() == b.last());
        lemma_scene_items_append(a, b.drop_last());
        let f = split_paragraphs(b.last().text@).map_values(|t: Seq<char>| (t, b.last().source));
        assert(scene_items(a) + scene_items(b.drop_last()) + f =~= scene_items(a) + (scene_items(
            b.drop_last(),
        ) + f));
    }
}

/// Every chapter group holds at most as many paragraphs as the whole document.
pub proof fn lemma_group_items_bounded(bs: Seq<ParsedBlock>, source: SourceLocation)
    ensures
        forall|k: int|
            0 <= k < chapter_groups(bs, source).len() ==> scene_items(
                (#[trigger] chapter_groups(bs, source)[k]).2,
            ).len() <= scene_items(bs).len(),
{
    let init: ChapterScan = (seq![], None, source, seq![]);
    lemma_chapter_fold_items(bs, init);
}

proof fn lemma_chapter_fold_items(bs: Seq<ParsedBlock>, init: ChapterScan)
    requires
        init.0.len() == 0,
        init.3.len() == 0,
    ensures
        forall|k: int|
            0 <= k < chapter_fold(bs, init).0.len() ==> scene_items(
                (#[trigger] chapter_fold(bs, init).0[k]).2,
            ).len() <= scene_items(bs).len(),
        scene_items(chapter_fold(bs, init).3).len() <= scene_items(bs).len(),
        forall|k: int|
            0 <= k < close_group(chapter_fold(bs, init)).len() ==> scene_items(
                (#[trigger] close_group(chapter_fold(bs, init))[k]).2,
            ).len() <= scene_items(bs).len(),
    decreases bs.len(),
{
    if bs.len() > 0 {
        let prev = chapter_fold(bs.drop_last(), init);
        lemma_chapter_fold_items(bs.drop_last(), init);
        let b = bs.last();
        assert(scene_items(bs).len() >= scene_items(bs.drop_last()).len());
        if !starts_chapter(b) {
            assert(prev.3.push(b).drop_last() =~= prev.3);
        }
    }
    let st = chapter_fold(bs, init);
    assert forall|k: int| 0 <= k < close_group(st).len() implies scene_items(
        (#[trigger] close_group(st)[k]).2,
    ).len() <= scene_items(bs).len() by {
        if k < st.0.len() {
            assert(close_group(st)[k] == st.0[k]);
        }
    }
}

/// Every scene holds at most as many paragraphs as its chapter.
pub proof fn lemma_scene_items_bounded(bs: Seq<ParsedBlock>)
    ensures
        forall|k: int|
            0 <= k < scene_groups(bs).len() ==> scene_items(#[trigger] scene_groups(bs)[k]).len()
                <= scene_items(bs).len(),
{
    lemma_scene_fold_items(bs);
    let st = scene_fold(bs);
    assert forall|k: int| 0 <= k < scene_groups(bs).len() implies scene_items(
        #[trigger] scene_groups(bs)[k],
    ).len() <= scene_items(bs).len() by {
        if k < st.0.len() {
            assert(scene_groups(bs)[k] == st.0[k]);
        }
    }
}

proof fn lemma_scene_fold_items(bs: Seq<ParsedBlock>)
    ensures
        forall|k: int|
            0 <= k < scene_fold(bs).0.len() ==> scene_items(#[trigger] scene_fold(bs).0[k]).len()
                <= scene_items(bs).len(),
        scene_items(scene_fold(bs).1).len() <= scene_items(bs).len(),
    decreases bs.len(),
{
    if bs.len() > 0 {
        let prev = scene_fold(bs.drop_last());
        lemma_scene_fold_items(bs.drop_last());
        let b = bs.last();
        assert(scene_items(bs).len() >= scene_items(bs.drop_last()).len());
        if b.kind != BlockKind::SceneBreak {
            assert(prev.1.push(b).drop_last() =~= prev.1);
        }
    }
}

/// `l` is the location `s` placed in chapter `chapter` and scene `scene`, at
/// paragraph `position` unless `s` already names a paragraph.
pub open spec fn placed(l: SourceLocation, s: SourceLocation, chapter: int, scene: int, position: int) -> bool {
    &&& l.path == s.path
    &&& l.format == s.format
    &&& l.page == s.page
    &&& l.resource == s.resource
    &&& l.chapter == Some(chapter as usize)
    &&& l.scene == Some(scene as usize)
    &&& l.paragraph == (if s.paragraph is Some {
        s.paragraph
    } else {
        Some(position as usize)
    })
}

/// `p` is paragraph `k` (zero-based) of the scene `scene_id`, made from `item`.
pub open spec fn paragraph_ok(
    p: Paragraph,
    scene_id: Seq<char>,
    chapter: int,
    scene: int,
    k: int,
    item: (Seq<char>, SourceLocation),
) -> bool {
    &&& p.id@ == stable_id_spec(seq![scene_id, "paragraph"@, dec_digits((k + 1) as nat), item.0])
    &&& p.scene_id@ == scene_id
    &&& p.original_text@ == item.0
    &&& p.position == k + 1
    &&& placed(p.source, item.1, chapter, scene, k + 1)
}

fn located(src: &SourceLocation, chapter: usize, scene: usize, position: usize) -> (r: SourceLocation)
    ensures
        placed(r, *src, chapter as int, scene as int, position as int),
{
    let mut l = src.copy();
    l.chapter = Some(chapter);
    l.scene = Some(scene);
    if l.paragraph.is_none() {
        l.paragraph = Some(position);
    }
    l
}

/// The paragraphs of a scene's blocks, numbered from one across the scene.
pub fn build_paragraphs(scene_id: &String, blocks: &Vec<ParsedBlock>, chapter: usize, scene: usize) -> (r: Vec<
    Paragraph,
>)
    requires
        scene_items(blocks@).len() < usize::MAX,
    ensures
        r@.len() == scene_items(blocks@).len(),
        forall|k: int|
            0 <= k < r@.len() ==> paragraph_ok(
                #[trigger] r@[k],
                scene_id@,
                chapter as int,
                scene as int,
                k,
                scene_items(blocks@)[k],
            ),
{
    let mut out: Vec<Paragraph> = Vec::new();
    let mut i: usize = 0;
    while i < blocks.len()
        invariant
            i <= blocks@.len(),
            scene_items(blocks@).len() < usize::MAX,
            out@.len() == scene_items(blocks@.take(i as int)).len(),
            forall|k: int|
                0 <= k < out@.len() ==> paragraph_ok(
                    #[trigger] out@[k],
                    scene_id@,
                    chapter as int,
                    scene as int,
                    k,
                    scene_items(blocks@.take(i as int))[k],
                ),
        decreases blocks.len() - i,
    {
        let ghost prefix = scene_items(blocks@.take(i as int));
        let ghost b = blocks@[i as int];
        let ghost f = split_paragraphs(b.text@).map_values(|t: Seq<char>| (t, b.source));
        assert(blocks@.take(i + 1).drop_last() =~= blocks@.take(i as int));
        assert(blocks@.take(i + 1).last() == b);
        assert(scene_items(blocks@.take(i + 1)) == prefix + f);
        proof {
            lemma_scene_items_append(blocks@.take(i + 1), blocks@.skip(i + 1));
            assert(blocks@.take(i + 1) + blocks@.skip(i + 1) =~= blocks@);
        }
        let texts = split_paragraph_text(blocks[i].text.as_str());
        let mut j: usize = 0;
        while j < texts.len()
            invariant
                j <= texts@.len(),
                views(texts@) == split_paragraphs(b.text@),
                f == split_paragraphs(b.text@).map_values(|t: Seq<char>| (t, b.source)),
                b == blocks@[i as int],
                i < blocks@.len(),
                prefix.len() + f.len() <= scene_items(blocks@).len() < usize::MAX,
                out@.len() == prefix.len() + j,
                forall|k: int|
                    0 <= k < out@.len() ==> paragraph_ok(
                        #[trigger] out@[k],
                        scene_id@,
                        chapter as int,
                        scene as int,
                        k,
                        (prefix + f)[k],
                    ),
            decreases texts.len() - j,
        {
            let position = out.len() + 1;
            let text = &texts[j];
            assert(views(texts@)[j as int] == text@);
            assert(f[j as int] == (text@, b.source));
            let mut parts: Vec<String> = Vec::new();
            parts.push(scene_id.clone());
            parts.push(String::from_str("paragraph"));
            parts.push(dec_string(position));
            parts.push(text.clone());
            assert(views(parts@) =~= seq![
                scene_id@,
                "paragraph"@,
                dec_digits(position as nat),
                text@,
            ]);
            let id = stable_id(&parts);
            let source = located(&blocks[i].source, chapter, scene, position);
            let p = Paragraph {
                id,
                scene_id: scene_id.clone(),
                original_text: text.clone(),
                position,
                source,
            };
            assert((prefix + f)[out@.len() as int] == f[j as int]);
            out.push(p);
            j += 1;
        }
        assert(out@.len() == prefix.len() + f.len());
        i += 1;
    }
    assert(blocks@.take(blocks@.len() as int) =~= blocks@);
    out
}


// ---------------------------------------------------------------------------
// Scenes, chapters and the manuscript
// ---------------------------------------------------------------------------

/// The texts of paragraph items.
pub open spec fn item_texts(items: Seq<(Seq<char>, SourceLocation)>) -> Seq<Seq<char>> {
    items.map_values(|x: (Seq<char>, SourceLocation)| x.0)
}

/// `sc` is scene `scene` of chapter `chapter_id` (number `chapter`), built from
/// the blocks `bs`, which hold at least one paragraph.
pub open spec fn scene_ok(sc: Scene, chapter_id: Seq<char>, chapter: int, scene: int, bs: Seq<ParsedBlock>) -> bool {
    let items = scene_items(bs);
    &&& sc.id@ == stable_id_spec(seq![chapter_id, "scene"@, dec_digits(scene as nat)])
    &&& sc.chapter_id@ == chapter_id
    &&& sc.order == scene
    &&& sc.paragraphs@.len() == items.len()
    &&& forall|k: int|
        0 <= k < items.len() ==> paragraph_ok(
            #[trigger] sc.paragraphs@[k],
            sc.id@,
            chapter,
            scene,
            k,
            items[k],
        )
    &&& sc.text@ == join(item_texts(items), "\n\n"@)
    &&& items.len() > 0
    &&& sc.source == sc.paragraphs@[0].source
    &&& sc.importance_labels@.len() == 0
}

/// The scene built from blocks, when they hold a paragraph.
pub fn build_scene(chapter_id: &String, chapter: usize, scene: usize, blocks: &Vec<ParsedBlock>) -> (r: Option<
    Scene,
>)
    requires
        scene_items(blocks@).len() < usize::MAX,
    ensures
        r is Some <==> scene_items(blocks@).len() > 0,
        r matches Some(sc) ==> scene_ok(sc, chapter_id@, chapter as int, scene as int, blocks@),
{
    let mut parts: Vec<String> = Vec::new();
    parts.push(chapter_id.clone());
    parts.push(String::from_str("scene"));
    parts.push(dec_string(scene));
    assert(views(parts@) =~= seq![chapter_id@, "scene"@, dec_digits(scene as nat)]);
    let id = stable_id(&parts);
    let paragraphs = build_paragraphs(&id, blocks, chapter, scene);
    if paragraphs.len() == 0 {
        return None;
    }
    let ghost items = scene_items(blocks@);
    let mut texts: Vec<String> = Vec::new();
    let mut k: usize = 0;
    while k < paragraphs.len()
        invariant
            k <= paragraphs@.len(),
            paragraphs@.len() == items.len(),
            items == scene_items(blocks@),
            forall|q: int|
                0 <= q < paragraphs@.len() ==> paragraph_ok(
                    #[trigger] paragraphs@[q],
                    id@,
                    chapter as int,
                    scene as int,
                    q,
                    items[q],
                ),
            views(texts@) == item_texts(items).take(k as int),
        decreases paragraphs.len() - k,
    {
        assert(paragraph_ok(paragraphs@[k as int], id@, chapter as int, scene as int, k as int, items[k as int]));
        let ghost before = views(texts@);
        texts.push(paragraphs[k].original_text.clone());
        assert(views(texts@) =~= before.push(items[k as int].0));
        assert(item_texts(items).take(k + 1) =~= item_texts(items).take(k as int).push(items[k as int].0));
        k += 1;
    }
    assert(item_texts(items).take(items.len() as int) =~= item_texts(items));
    let text = join_strings(&texts, "\n\n");
    let source = paragraphs[0].source.copy();
    Some(Scene {
        id,
        chapter_id: chapter_id.clone(),
        order: scene,
        text: string_of(&text),
        importance_labels: Vec::new(),
        paragraphs,
        source,
    })
}

/// The scenes that hold paragraphs, with their one-based scene numbers.
pub open spec fn scene_plan(gs: Seq<Seq<ParsedBlock>>) -> Seq<(int, Seq<ParsedBlock>)>
    decreases gs.len(),
{
    if gs.len() == 0 {
        seq![]
    } else {
        let p = scene_plan(gs.drop_last());
        if scene_items(gs.last()).len() > 0 {
            p.push((gs.len() as int, gs.last()))
        } else {
            p
        }
    }
}

/// `c` is chapter number `order` of the book `book_id`, built from group `g`.
pub open spec fn chapter_ok(c: Chapter, book_id: Seq<char>, order: int, g: Group) -> bool {
    let plan = scene_plan(scene_groups(g.2));
    &&& c.id@ == stable_id_spec(seq![book_id, "chapter"@, dec_digits(order as nat), g.0])
    &&& c.title@ == g.0
    &&& c.order == order
    &&& c.index == order - 1
    &&& c.source.path == g.1.path && c.source.format == g.1.format && c.source.page == g.1.page
        && c.source.resource == g.1.resource && c.source.scene == g.1.scene
        && c.source.paragraph == g.1.paragraph
    &&& c.source.chapter == Some(order as usize)
    &&& c.scenes@.len() == plan.len()
    &&& forall|j: int|
        0 <= j < plan.len() ==> scene_ok(#[trigger] c.scenes@[j], c.id@, order, plan[j].0, plan[j].1)
    &&& c.content@ == join(c.scenes@.map_values(|sc: Scene| sc.text@), "\n\n***\n\n"@)
}

/// The chapter built from a group, when one of its scenes holds a paragraph.
pub fn build_chapter(book_id: &String, index: usize, group: &(String, SourceLocation, Vec<ParsedBlock>)) -> (r:
    Option<Chapter>)
    requires
        index < usize::MAX,
        scene_items(group.2@).len() < usize::MAX,
    ensures
        r is Some <==> scene_plan(scene_groups(group.2@)).len() > 0,
        r matches Some(c) ==> chapter_ok(c, book_id@, index + 1, group_view(*group)),
{
    let order = index + 1;
    let mut parts: Vec<String> = Vec::new();
    parts.push(book_id.clone());
    parts.push(String::from_str("chapter"));
    parts.push(dec_string(order));
    parts.push(group.0.clone());
    assert(views(parts@) =~= seq![book_id@, "chapter"@, dec_digits(order as nat), group.0@]);
    let id = stable_id(&parts);
    let groups = split_scenes(&group.2);
    let ghost gs = scene_groups(group.2@);
    proof {
        lemma_scene_items_bounded(group.2@);
    }
    let mut scenes: Vec<Scene> = Vec::new();
    let mut si: usize = 0;
    while si < groups.len()
        invariant
            si <= groups@.len(),
            groups@.map_values(|v: Vec<ParsedBlock>| v@) == gs,
            gs == scene_groups(group.2@),
            forall|k: int| 0 <= k < gs.len() ==> scene_items(#[trigger] gs[k]).len() <= scene_items(
                group.2@,
            ).len(),
            scene_items(group.2@).len() < usize::MAX,
            scenes@.len() == scene_plan(gs.take(si as int)).len(),
            forall|j: int|
                0 <= j < scenes@.len() ==> scene_ok(
                    #[trigger] scenes@[j],
                    id@,
                    order as int,
                    scene_plan(gs.take(si as int))[j].0,
                    scene_plan(gs.take(si as int))[j].1,
                ),
        decreases groups.len() - si,
    {
        assert(gs[si as int] == groups@[si as int]@);
        assert(gs.take(si + 1).drop_last() =~= gs.take(si as int));
        assert(gs.take(si + 1).last() == gs[si as int]);
        match build_scene(&id, order, si + 1, &groups[si]) {
            Some(sc) => {
                scenes.push(sc);
            },
            None => {},
        }
        si += 1;
    }
    assert(gs.take(gs.len() as int) =~= gs);
    if scenes.len() == 0 {
        return None;
    }
    let mut texts: Vec<String> = Vec::new();
    let mut k: usize = 0;
    while k < scenes.len()
        invariant
            k <= scenes@.len(),
            views(texts@) == scenes@.map_values(|sc: Scene| sc.text@).take(k as int),
        decreases scenes.len() - k,
    {
        let ghost before = views(texts@);
        texts.push(scenes[k].text.clone());
        assert(views(texts@) =~= before.push(scenes@[k as int].text@));
        assert(scenes@.map_values(|sc: Scene| sc.text@).take(k + 1) =~= scenes@.map_values(
            |sc: Scene| sc.text@,
        ).take(k as int).push(scenes@[k as int].text@));
        k += 1;
    }
    assert(scenes@.map_values(|sc: Scene| sc.text@).take(scenes@.len() as int) =~= scenes@.map_values(
        |sc: Scene| sc.text@,
    ));
    let content = join_strings(&texts, "\n\n***\n\n");
    let mut source = group.1.copy();
    source.chapter = Some(order);
    Some(Chapter {
        id,
        title: group.0.clone(),
        order,
        index,
        content: string_of(&content),
        scenes,
        source,
    })
}


/// The chapter groups that become chapters, with their one-based numbers.
pub open spec fn chapter_plan(gs: Seq<Group>) -> Seq<(int, Group)>
    decreases gs.len(),
{
    if gs.len() == 0 {
        seq![]
    } else {
        let p = chapter_plan(gs.drop_last());
        if scene_plan(scene_groups(gs.last().2)).len() > 0 {
            p.push((gs.len() as int, gs.last()))
        } else {
            p
        }
    }
}

/// The book id of a parsed document: from its path and title.
pub open spec fn book_id_spec(d: ParsedDocument) -> Seq<char> {
    stable_id_spec(seq![d.source.path@, d.title@])
}

/// `m` is the manuscript built from `d`.
pub open spec fn manuscript_of(m: Manuscript, d: ParsedDocument) -> bool {
    let plan = chapter_plan(chapter_groups(d.blocks@, d.source));
    &&& m.book.id@ == book_id_spec(d)
    &&& m.book.title == d.title
    &&& m.book.author == d.author
    &&& m.book.language == d.language
    &&& m.book.metadata == d.metadata
    &&& m.source == d.source
    &&& m.chapters@.len() == plan.len()
    &&& forall|j: int|
        0 <= j < plan.len() ==> chapter_ok(
            #[trigger] m.chapters@[j],
            book_id_spec(d),
            plan[j].0,
            plan[j].1,
        )
}

/// Builds the manuscript of a parsed document. A document whose blocks form no
/// chapter is empty; one whose chapters hold no paragraph has no structure.
pub fn build_manuscript(parsed: ParsedDocument) -> (r: Result<Manuscript, DocumentError>)
    requires
        scene_items(parsed.blocks@).len() < usize::MAX,
    ensures
        r is Ok <==> chapter_plan(chapter_groups(parsed.blocks@, parsed.source)).len() > 0,
        r matches Ok(m) ==> manuscript_of(m, parsed),
        r matches Err(e) ==> if chapter_groups(parsed.blocks@, parsed.source).len() == 0 {
            e matches DocumentError::EmptyDocument(p) && p@ == parsed.source.path@
        } else {
            e matches DocumentError::InvalidStructure(msg) && msg@
                == "document has no non-empty chapters"@
        },
{
    let mut key_parts: Vec<String> = Vec::new();
    key_parts.push(parsed.source.path.clone());
    key_parts.push(parsed.title.clone());
    assert(views(key_parts@) =~= seq![parsed.source.path@, parsed.title@]);
    let book_id = stable_id(&key_parts);
    let groups = group_chapters(&parsed.blocks, &parsed.source);
    let ghost gs = chapter_groups(parsed.blocks@, parsed.source);
    if groups.len() == 0 {
        return Err(DocumentError::EmptyDocument(parsed.source.path.clone()));
    }
    proof {
        lemma_group_items_bounded(parsed.blocks@, parsed.source);
    }
    let mut chapters: Vec<Chapter> = Vec::new();
    let mut ci: usize = 0;
    while ci < groups.len()
        invariant
            ci <= groups@.len(),
            groups@.map_values(|g: (String, SourceLocation, Vec<ParsedBlock>)| group_view(g)) == gs,
            forall|k: int|
                0 <= k < gs.len() ==> scene_items((#[trigger] gs[k]).2).len() <= scene_items(
                    parsed.blocks@,
                ).len(),
            scene_items(parsed.blocks@).len() < usize::MAX,
            chapters@.len() == chapter_plan(gs.take(ci as int)).len(),
            forall|j: int|
                0 <= j < chapters@.len() ==> chapter_ok(
                    #[trigger] chapters@[j],
                    book_id@,
                    chapter_plan(gs.take(ci as int))[j].0,
                    chapter_plan(gs.take(ci as int))[j].1,
                ),
        decreases groups.len() - ci,
    {
        assert(gs[ci as int] == group_view(groups@[ci as int]));
        assert(gs.take(ci + 1).drop_last() =~= gs.take(ci as int));
        assert(gs.take(ci + 1).last() == gs[ci as int]);
        match build_chapter(&book_id, ci, &groups[ci]) {
            Some(c) => {
                chapters.push(c);
            },
            None => {},
        }
        ci += 1;
    }
    assert(gs.take(gs.len() as int) =~= gs);
    if chapters.len() == 0 {
        return Err(
            DocumentError::InvalidStructure(String::from_str("document has no non-empty chapters")),
        );
    }
    Ok(Manuscript {
        book: Book {
            id: book_id,
            title: parsed.title,
            author: parsed.author,
            language: parsed.language,
            metadata: parsed.metadata,
        },
        chapters,
        source: parsed.source,
    })
}


/// Whether the blocks hold fewer than `usize::MAX` paragraphs, as
/// `build_manuscript` needs.
pub fn paragraph_count_fits(blocks: &Vec<ParsedBlock>) -> (r: bool)
    ensures
        r == (scene_items(blocks@).len() < usize::MAX),
{
    let mut total: usize = 0;
    let mut i: usize = 0;
    while i < blocks.len()
        invariant
            i <= blocks@.len(),
            total == scene_items(blocks@.take(i as int)).len(),
            total < usize::MAX,
        decreases blocks.len() - i,
    {
        assert(blocks@.take(i + 1).drop_last() =~= blocks@.take(i as int));
        assert(blocks@.take(i + 1).last() == blocks@[i as int]);
        proof {
            lemma_scene_items_append(blocks@.take(i + 1), blocks@.skip(i + 1));
            assert(blocks@.take(i + 1) + blocks@.skip(i + 1) =~= blocks@);
        }
        let n = split_paragraph_text(blocks[i].text.as_str()).len();
        if n >= usize::MAX - total {
            return false;
        }
        total = total + n;
        i += 1;
    }
    assert(blocks@.take(blocks@.len() as int) =~= blocks@);
    true
}


proof fn lemma_scene_plan_numbers(gs: Seq<Seq<ParsedBlock>>)
    ensures
        forall|k: int| 0 <= k < scene_plan(gs).len() ==> 1 <= #[trigger] scene_plan(gs)[k].0 <= gs.len(),
        forall|i: int, j: int|
            0 <= i < j < scene_plan(gs).len() ==> #[trigger] scene_plan(gs)[i].0 < #[trigger] scene_plan(
                gs,
            )[j].0,
    decreases gs.len(),
{
    if gs.len() > 0 {
        lemma_scene_plan_numbers(gs.drop_last());
        let p = scene_plan(gs.drop_last());
        let q = scene_plan(gs);
        if scene_items(gs.last()).len() > 0 {
            assert(q == p.push((gs.len() as int, gs.last())));
            assert forall|k: int| 0 <= k < q.len() implies 1 <= #[trigger] q[k].0 <= gs.len() by {
                if k < p.len() {
                    assert(q[k] == p[k]);
                }
            }
            assert forall|i: int, j: int| 0 <= i < j < q.len() implies #[trigger] q[i].0 < #[trigger] q[j].0 by {
                assert(q[i] == p[i]);
                if j < p.len() {
                    assert(q[j] == p[j]);
                }
            }
        }
    }
}

proof fn lemma_chapter_plan_numbers(gs: Seq<Group>)
    ensures
        forall|k: int| 0 <= k < chapter_plan(gs).len() ==> 1 <= #[trigger] chapter_plan(gs)[k].0 <= gs.len(),
        forall|i: int, j: int|
            0 <= i < j < chapter_plan(gs).len() ==> #[trigger] chapter_plan(gs)[i].0
                < #[trigger] chapter_plan(gs)[j].0,
    decreases gs.len(),
{
    if gs.len() > 0 {
        lemma_chapter_plan_numbers(gs.drop_last());
        let p = chapter_plan(gs.drop_last());
        let q = chapter_plan(gs);
        if scene_plan(scene_groups(gs.last().2)).len() > 0 {
            assert(q == p.push((gs.len() as int, gs.last())));
            assert forall|k: int| 0 <= k < q.len() implies 1 <= #[trigger] q[k].0 <= gs.len() by {
                if k < p.len() {
                    assert(q[k] == p[k]);
                }
            }
            assert forall|i: int, j: int| 0 <= i < j < q.len() implies #[trigger] q[i].0 < #[trigger] q[j].0 by {
                assert(q[i] == p[i]);
                if j < p.len() {
                    assert(q[j] == p[j]);
                }
            }
        }
    }
}

/// A built manuscript is ordered: chapter numbers strictly increase from one,
/// each chapter's index is its number less one, scene numbers strictly
/// increase within a chapter, and the paragraphs of a scene are numbered one,
/// two, three and so on, each placed in its chapter and scene.
pub proof fn lemma_manuscript_ordered(m: Manuscript, d: ParsedDocument)
    requires
        manuscript_of(m, d),
    ensures
        forall|i: int, j: int|
            0 <= i < j < m.chapters@.len() ==> #[trigger] m.chapters@[i].order
                < #[trigger] m.chapters@[j].order,
        forall|i: int| 0 <= i < m.chapters@.len() ==> 1 <= (#[trigger] m.chapters@[i]).order && m.chapters@[i].index + 1 == m.chapters@[i].order,
        forall|c: int, i: int, j: int|
            0 <= c < m.chapters@.len() && 0 <= i < j < m.chapters@[c].scenes@.len()
                ==> #[trigger] m.chapters@[c].scenes@[i].order
                < #[trigger] m.chapters@[c].scenes@[j].order,
        forall|c: int, s: int, k: int|
            0 <= c < m.chapters@.len() && 0 <= s < m.chapters@[c].scenes@.len() && 0 <= k
                < m.chapters@[c].scenes@[s].paragraphs@.len() ==> {
                let p = #[trigger] m.chapters@[c].scenes@[s].paragraphs@[k];
                &&& p.position == k + 1
                &&& p.source.chapter == Some(m.chapters@[c].order)
                &&& p.source.scene == Some(m.chapters@[c].scenes@[s].order)
            },
{
    let plan = chapter_plan(chapter_groups(d.blocks@, d.source));
    lemma_chapter_plan_numbers(chapter_groups(d.blocks@, d.source));
    assert forall|i: int, j: int|
        0 <= i < j < m.chapters@.len() implies #[trigger] m.chapters@[i].order
        < #[trigger] m.chapters@[j].order by {
        assert(chapter_ok(m.chapters@[i], book_id_spec(d), plan[i].0, plan[i].1));
        assert(chapter_ok(m.chapters@[j], book_id_spec(d), plan[j].0, plan[j].1));
        assert(plan[i].0 < plan[j].0);
    }
    assert forall|i: int| 0 <= i < m.chapters@.len() implies 1 <= (#[trigger] m.chapters@[i]).order
        && m.chapters@[i].index + 1 == m.chapters@[i].order by {
        assert(chapter_ok(m.chapters@[i], book_id_spec(d), plan[i].0, plan[i].1));
        assert(1 <= plan[i].0);
    }
    assert forall|c: int, i: int, j: int|
        0 <= c < m.chapters@.len() && 0 <= i < j < m.chapters@[c].scenes@.len()
            implies #[trigger] m.chapters@[c].scenes@[i].order
        < #[trigger] m.chapters@[c].scenes@[j].order by {
        let ch = m.chapters@[c];
        assert(chapter_ok(ch, book_id_spec(d), plan[c].0, plan[c].1));
        let sp = scene_plan(scene_groups(plan[c].1.2));
        lemma_scene_plan_numbers(scene_groups(plan[c].1.2));
        assert(scene_ok(ch.scenes@[i], ch.id@, plan[c].0, sp[i].0, sp[i].1));
        assert(scene_ok(ch.scenes@[j], ch.id@, plan[c].0, sp[j].0, sp[j].1));
        assert(sp[i].0 < sp[j].0);
    }
    assert forall|c: int, s: int, k: int|
        0 <= c < m.chapters@.len() && 0 <= s < m.chapters@[c].scenes@.len() && 0 <= k
            < m.chapters@[c].scenes@[s].paragraphs@.len() implies {
            let p = #[trigger] m.chapters@[c].scenes@[s].paragraphs@[k];
            &&& p.position == k + 1
            &&& p.source.chapter == Some(m.chapters@[c].order)
            &&& p.source.scene == Some(m.chapters@[c].scenes@[s].order)
        } by {
        let ch = m.chapters@[c];
        assert(chapter_ok(ch, book_id_spec(d), plan[c].0, plan[c].1));
        let sp = scene_plan(scene_groups(plan[c].1.2));
        lemma_scene_plan_numbers(scene_groups(plan[c].1.2));
        lemma_chapter_plan_numbers(chapter_groups(d.blocks@, d.source));
        let sc = ch.scenes@[s];
        assert(scene_ok(sc, ch.id@, plan[c].0, sp[s].0, sp[s].1));
        let items = scene_items(sp[s].1);
        assert(paragraph_ok(sc.paragraphs@[k], sc.id@, plan[c].0, sp[s].0, k, items[k]));
    }
}

} // verus!
