//! Bounded, deterministic planning of analysis units. A manuscript is never
//! sent whole: each scene's paragraphs are grouped under a character budget
//! without splitting a paragraph, neighbouring-scene context is trimmed, and
//! canon entries are included only when they occur in the unit's text.

use vstd::prelude::*;
use vstd::string::StringSliceAdditionalSpecFns;
use vstd::utf8::encode_utf8;
use crate::analysis::{
    string_views, unit_id_spec, AdvancedAnalysisError, AnalysisUnit, AnalysisUnitType, CanonContext,
};
use crate::digest::{sha256_hex, stable_hash};
use crate::fmt::{dec_digits, dec_vec};
use crate::models::{Chapter, Manuscript, Paragraph, Scene};
use crate::norm::{lowercase, unicode_lowercase};
use crate::text::{
    chars_of, contains, contains_exec, extend_all, extend_str, is_blank, join, join_exec,
    lemma_char_vec_deep, slice_vec, string_of, trim_vec, vec_eq, views,
};

verus! {

/// Limits of the planner.
#[derive(Debug, Clone, Copy, PartialEq, Eq, Structural)]
pub struct PlannerConfig {
    /// Characters of paragraph text in one unit; a group is split before a
    /// paragraph that would exceed it (a single paragraph may exceed it).
    pub max_unit_characters: usize,
    /// Characters of neighbouring-scene context per side.
    pub max_context_characters: usize,
    /// Units the planner will produce at most.
    pub max_units: usize,
    /// Canon character names injected per unit.
    pub max_canon_names_per_unit: usize,
    /// Glossary terms injected per unit.
    pub max_glossary_terms_per_unit: usize,
}

impl Default for PlannerConfig {
    fn default() -> (r: PlannerConfig)
        ensures
            r == (PlannerConfig {
                max_unit_characters: 10_000,
                max_context_characters: 800,
                max_units: 2_000,
                max_canon_names_per_unit: 24,
                max_glossary_terms_per_unit: 12,
            }),
    {
        PlannerConfig {
            max_unit_characters: 10_000,
            max_context_characters: 800,
            max_units: 2_000,
            max_canon_names_per_unit: 24,
            max_glossary_terms_per_unit: 12,
        }
    }
}

/// The text hashed into a planner fingerprint.
pub open spec fn planner_identity(c: PlannerConfig) -> Seq<char> {
    "planner\0"@ + dec_digits(c.max_unit_characters as nat) + "\0"@ + dec_digits(
        c.max_context_characters as nat,
    ) + "\0"@ + dec_digits(c.max_units as nat) + "\0"@ + dec_digits(
        c.max_canon_names_per_unit as nat,
    ) + "\0"@ + dec_digits(c.max_glossary_terms_per_unit as nat)
}

impl PlannerConfig {
    /// The SHA-256 of the limits, so that cached results follow the limits.
    pub fn fingerprint(&self) -> (r: String)
        ensures
            r@ == sha256_hex(encode_utf8(planner_identity(*self))),
    {
        let mut v = chars_of("planner\0");
        extend_all(&mut v, &dec_vec(self.max_unit_characters));
        extend_str(&mut v, "\0");
        extend_all(&mut v, &dec_vec(self.max_context_characters));
        extend_str(&mut v, "\0");
        extend_all(&mut v, &dec_vec(self.max_units));
        extend_str(&mut v, "\0");
        extend_all(&mut v, &dec_vec(self.max_canon_names_per_unit));
        extend_str(&mut v, "\0");
        extend_all(&mut v, &dec_vec(self.max_glossary_terms_per_unit));
        let identity = string_of(&v);
        stable_hash(identity.as_str().as_bytes())
    }
}

// ---------------------------------------------------------------------------
// Grouping
// ---------------------------------------------------------------------------

/// The length in characters of a paragraph's text.
pub open spec fn para_len(p: Paragraph) -> nat {
    p.original_text@.len()
}

/// Groups of consecutive paragraphs as ranges `[start, end)`, from paragraph
/// `i` on, with the open group `[start, i)` holding `chars` characters: a
/// paragraph that would push a non-empty group past `max` starts a new one.
pub open spec fn group_fold(ps: Seq<Paragraph>, max: nat, i: int, start: int, chars: nat) -> Seq<(int, int)>
    decreases ps.len() - i,
{
    if i >= ps.len() {
        if start < i {
            seq![(start, i)]
        } else {
            seq![]
        }
    } else if start < i && chars + para_len(ps[i]) > max {
        seq![(start, i)] + group_fold(ps, max, i + 1, i, para_len(ps[i]))
    } else {
        group_fold(ps, max, i + 1, start, chars + para_len(ps[i]))
    }
}

/// The paragraph groups of a scene.
pub open spec fn groups_of(ps: Seq<Paragraph>, max: nat) -> Seq<(int, int)> {
    group_fold(ps, max, 0, 0, 0)
}

/// The characters of paragraphs `[a, b)`.
pub open spec fn span_chars(ps: Seq<Paragraph>, a: int, b: int) -> nat
    decreases b - a,
{
    if a >= b {
        0
    } else {
        span_chars(ps, a, b - 1) + para_len(ps[b - 1])
    }
}

/// Ranges that tile `[from, to)` in order, each non-empty.
pub open spec fn tiles(gs: Seq<(int, int)>, from: int, to: int) -> bool {
    &&& (gs.len() == 0 <==> from == to)
    &&& gs.len() > 0 ==> gs[0].0 == from && gs.last().1 == to
    &&& forall|k: int| 0 <= k < gs.len() ==> (#[trigger] gs[k]).0 < gs[k].1
    &&& forall|k: int| 0 <= k < gs.len() - 1 ==> (#[trigger] gs[k]).1 == gs[k + 1].0
}

/// Each range stays within the budget or holds a single paragraph.
pub open spec fn within_budget(ps: Seq<Paragraph>, gs: Seq<(int, int)>, max: nat) -> bool {
    forall|k: int|
        0 <= k < gs.len() ==> span_chars(ps, (#[trigger] gs[k]).0, gs[k].1) <= max || gs[k].1
            - gs[k].0 == 1
}

proof fn lemma_group_fold(ps: Seq<Paragraph>, max: nat, i: int, start: int, chars: nat)
    requires
        0 <= start <= i <= ps.len(),
        chars == span_chars(ps, start, i),
        chars <= max || i - start <= 1,
    ensures
        tiles(group_fold(ps, max, i, start, chars), start, ps.len() as int),
        within_budget(ps, group_fold(ps, max, i, start, chars), max),
    decreases ps.len() - i,
{
    let gs = group_fold(ps, max, i, start, chars);
    if i >= ps.len() {
    } else if start < i && chars + para_len(ps[i]) > max {
        assert(span_chars(ps, i, i + 1) == para_len(ps[i])) by {
            assert(span_chars(ps, i, i) == 0);
        }
        lemma_group_fold(ps, max, i + 1, i, para_len(ps[i]));
        let rest = group_fold(ps, max, i + 1, i, para_len(ps[i]));
        assert(gs == seq![(start, i)] + rest);
        assert forall|k: int| 0 <= k < gs.len() - 1 implies (#[trigger] gs[k]).1 == gs[k + 1].0 by {
            if k > 0 {
                assert(gs[k] == rest[k - 1]);
                assert(gs[k + 1] == rest[k]);
            }
        }
        assert forall|k: int| 0 <= k < gs.len() implies (#[trigger] gs[k]).0 < gs[k].1 by {
            if k > 0 {
                assert(gs[k] == rest[k - 1]);
            }
        }
        assert forall|k: int|
            0 <= k < gs.len() implies span_chars(ps, (#[trigger] gs[k]).0, gs[k].1) <= max
                || gs[k].1 - gs[k].0 == 1 by {
            if k > 0 {
                assert(gs[k] == rest[k - 1]);
            }
        }
    } else {
        assert(span_chars(ps, start, i + 1) == chars + para_len(ps[i]));
        lemma_group_fold(ps, max, i + 1, start, chars + para_len(ps[i]));
    }
}

/// Law: a scene's groups tile its paragraphs in order, so no paragraph is
/// dropped, repeated or split.
pub proof fn lemma_groups_tile_scene(ps: Seq<Paragraph>, max: nat)
    ensures
        tiles(groups_of(ps, max), 0, ps.len() as int),
{
    lemma_group_fold(ps, max, 0, 0, 0);
}

/// Law: every group stays within the character budget, unless it is a single
/// paragraph that alone exceeds it.
pub proof fn lemma_groups_within_budget(ps: Seq<Paragraph>, max: nat)
    ensures
        within_budget(ps, groups_of(ps, max), max),
{
    lemma_group_fold(ps, max, 0, 0, 0);
}

/// Groups a scene's paragraphs under the character budget.
pub fn group_paragraphs(ps: &Vec<Paragraph>, max: usize) -> (r: Vec<(usize, usize)>)
    ensures
        r@.map_values(|g: (usize, usize)| (g.0 as int, g.1 as int)) == groups_of(ps@, max as nat),
        forall|k: int| 0 <= k < r@.len() ==> (#[trigger] r@[k]).0 < r@[k].1 <= ps@.len(),
{
    let ghost target = groups_of(ps@, max as nat);
    let mut groups: Vec<(usize, usize)> = Vec::new();
    let mut start: usize = 0;
    let mut chars: usize = 0;
    let mut i: usize = 0;
    while i < ps.len()
        invariant
            start <= i <= ps.len(),
            target == groups_of(ps@, max as nat),
            start < i ==> chars <= max || i - start == 1,
            start == i ==> chars == 0,
            forall|k: int| 0 <= k < groups@.len() ==> (#[trigger] groups@[k]).0 < groups@[k].1 <= start,
            groups@.map_values(|g: (usize, usize)| (g.0 as int, g.1 as int)) + group_fold(
                ps@,
                max as nat,
                i as int,
                start as int,
                chars as nat,
            ) == target,
        decreases ps.len() - i,
    {
        let n = ps[i].original_text.as_str().unicode_len();
        let ghost before = groups@.map_values(|g: (usize, usize)| (g.0 as int, g.1 as int));
        if start < i && (chars > max || n > max - chars) {
            groups.push((start, i));
            assert(groups@.map_values(|g: (usize, usize)| (g.0 as int, g.1 as int)) =~= before
                + seq![(start as int, i as int)]);
            start = i;
            chars = n;
        } else {
            chars = chars + n;
        }
        i += 1;
    }
    let ghost before = groups@.map_values(|g: (usize, usize)| (g.0 as int, g.1 as int));
    if start < i {
        groups.push((start, i));
        assert(groups@.map_values(|g: (usize, usize)| (g.0 as int, g.1 as int)) =~= before + seq![
            (start as int, i as int),
        ]);
    } else {
        assert(before + Seq::<(int, int)>::empty() =~= before);
    }
    groups
}

// ---------------------------------------------------------------------------
// Unit text and context
// ---------------------------------------------------------------------------

/// A paragraph as it appears in a unit: its ordinal token, then its text.
pub open spec fn para_line(p: Paragraph) -> Seq<char> {
    "[para-"@ + dec_digits(p.position as nat) + "] "@ + p.original_text@
}

/// The text of a group of paragraphs, separated by blank lines.
pub open spec fn render_spec(ps: Seq<Paragraph>) -> Seq<char> {
    join(ps.map_values(|p: Paragraph| para_line(p)), "\n\n"@)
}

/// Renders paragraphs `[a, b)` with their ordinal tokens.
pub fn render_group(ps: &Vec<Paragraph>, a: usize, b: usize) -> (r: String)
    requires
        a <= b <= ps.len(),
    ensures
        r@ == render_spec(ps@.subrange(a as int, b as int)),
{
    let ghost g = ps@.subrange(a as int, b as int);
    let mut lines: Vec<Vec<char>> = Vec::new();
    let mut k: usize = a;
    while k < b
        invariant
            a <= k <= b <= ps.len(),
            g == ps@.subrange(a as int, b as int),
            lines.deep_view() == g.take(k - a).map_values(|p: Paragraph| para_line(p)),
        decreases b - k,
    {
        let mut line = chars_of("[para-");
        extend_all(&mut line, &dec_vec(ps[k].position));
        extend_str(&mut line, "] ");
        extend_str(&mut line, ps[k].original_text.as_str());
        let ghost before = lines.deep_view();
        proof {
            lemma_char_vec_deep(&line);
        }
        lines.push(line);
        assert(g[k - a] == ps@[k as int]);
        assert(lines.deep_view() =~= before.push(para_line(g[k - a])));
        assert(g.take(k + 1 - a).map_values(|p: Paragraph| para_line(p)) =~= g.take(k - a).map_values(
            |p: Paragraph| para_line(p),
        ).push(para_line(g[k - a])));
        k += 1;
    }
    assert(g.take(b - a) =~= g);
    let sep = chars_of("\n\n");
    let out = join_exec(&lines, &sep);
    string_of(&out)
}

/// At most `n` elements from the front.
pub open spec fn at_most<A>(s: Seq<A>, n: nat) -> Seq<A> {
    if s.len() > n {
        s.take(n as int)
    } else {
        s
    }
}

/// Canon entries that occur in the lowercased unit text, at most `limit`.
pub open spec fn present_spec(candidates: Seq<String>, haystack_lower: Seq<char>, limit: nat) -> Seq<
    Seq<char>,
> {
    at_most(
        views(candidates).filter(
            |c: Seq<char>| !is_blank(c) && contains(haystack_lower, unicode_lowercase(c)),
        ),
        limit,
    )
}

/// Keeps the canon entries that actually occur in the unit text (bounded).
pub fn present_entries(candidates: &Vec<String>, haystack_lower: &Vec<char>, limit: usize) -> (r: Vec<
    String,
>)
    ensures
        views(r@) == present_spec(candidates@, haystack_lower@, limit as nat),
{
    let ghost cs = views(candidates@);
    let ghost pred = |c: Seq<char>| !is_blank(c) && contains(haystack_lower@, unicode_lowercase(c));
    let mut out: Vec<String> = Vec::new();
    let mut i: usize = 0;
    while i < candidates.len()
        invariant
            i <= candidates.len(),
            cs == views(candidates@),
            pred == (|c: Seq<char>| !is_blank(c) && contains(haystack_lower@, unicode_lowercase(c))),
            views(out@) == at_most(cs.take(i as int).filter(pred), limit as nat),
            out@.len() <= limit,
        decreases candidates.len() - i,
    {
        let ghost before = cs.take(i as int).filter(pred);
        assert(cs.take(i + 1).drop_last() =~= cs.take(i as int));
        assert(cs[i as int] == candidates@[i as int]@);
        proof {
            reveal_with_fuel(Seq::filter, 1);
        }
        let c = &candidates[i];
        let keep = trim_vec(&chars_of(c.as_str())).len() > 0 && contains_exec(
            haystack_lower,
            &chars_of(lowercase(c.as_str()).as_str()),
        );
        if keep {
            if out.len() < limit {
                let ghost ov = views(out@);
                out.push(c.clone());
                assert(views(out@) =~= ov.push(c@));
                assert(before.push(cs[i as int]).take((before.len() + 1) as int) =~= before.push(
                    cs[i as int],
                ));
            } else {
                assert(before.push(cs[i as int]).take(limit as int) =~= before.take(limit as int));
            }
        }
        i += 1;
    }
    assert(cs.take(candidates@.len() as int) =~= cs);
    out
}

/// Neighbouring-scene context: the first `max` characters, marked with ` …`
/// when text was cut.
pub open spec fn trim_ctx(text: Seq<char>, max: nat) -> Seq<char> {
    if text.len() > max {
        text.take(max as int) + " …"@
    } else {
        text
    }
}

/// Trims neighbouring-scene context to the budget.
pub fn trim_context(text: &str, max_chars: usize) -> (r: String)
    ensures
        r@ == trim_ctx(text@, max_chars as nat),
{
    let v = chars_of(text);
    if v.len() > max_chars {
        let mut out = slice_vec(&v, 0, max_chars);
        assert(out@ =~= v@.take(max_chars as int));
        extend_str(&mut out, " …");
        string_of(&out)
    } else {
        string_of(&v)
    }
}

/// The position of the first scene with id `sid`, from `k` on, or -1.
pub open spec fn first_scene(ss: Seq<Scene>, sid: Seq<char>, k: int) -> int
    decreases ss.len() - k,
{
    if k < 0 || k >= ss.len() {
        -1
    } else if ss[k].id@ == sid {
        k
    } else {
        first_scene(ss, sid, k + 1)
    }
}

/// The trimmed texts of the scenes before and after scene `idx`.
pub open spec fn neighbors_at(ss: Seq<Scene>, idx: int, max: nat) -> (Option<Seq<char>>, Option<Seq<char>>) {
    (
        if idx >= 1 {
            Some(trim_ctx(ss[idx - 1].text@, max))
        } else {
            None
        },
        if idx + 1 < ss.len() {
            Some(trim_ctx(ss[idx + 1].text@, max))
        } else {
            None
        },
    )
}

/// The neighbours of scene `sid` of chapter `cid`, from chapter `k` on; a
/// later chapter with the same id and scene overrides an earlier one.
pub open spec fn neighbor_fold(
    chs: Seq<Chapter>,
    cid: Seq<char>,
    sid: Seq<char>,
    max: nat,
    k: int,
    acc: (Option<Seq<char>>, Option<Seq<char>>),
) -> (Option<Seq<char>>, Option<Seq<char>>)
    decreases chs.len() - k,
{
    if k < 0 || k >= chs.len() {
        acc
    } else if chs[k].id@ == cid && first_scene(chs[k].scenes@, sid, 0) >= 0 {
        neighbor_fold(
            chs,
            cid,
            sid,
            max,
            k + 1,
            neighbors_at(chs[k].scenes@, first_scene(chs[k].scenes@, sid, 0), max),
        )
    } else {
        neighbor_fold(chs, cid, sid, max, k + 1, acc)
    }
}

/// The neighbouring-scene context of a scene.
pub open spec fn neighbors(chs: Seq<Chapter>, cid: Seq<char>, sid: Seq<char>, max: nat) -> (Option<Seq<char>>, Option<Seq<char>>) {
    neighbor_fold(chs, cid, sid, max, 0, (None, None))
}

/// The view of an optional string.
pub open spec fn opt_text(o: Option<String>) -> Option<Seq<char>> {
    match o {
        Some(s) => Some(s@),
        None => None,
    }
}

/// The position of the first scene with the id.
fn find_scene(ss: &Vec<Scene>, sid: &Vec<char>) -> (r: Option<usize>)
    ensures
        match r {
            Some(k) => k < ss@.len() && first_scene(ss@, sid@, 0) == k as int,
            None => first_scene(ss@, sid@, 0) == -1,
        },
{
    let mut k: usize = 0;
    while k < ss.len()
        invariant
            k <= ss.len(),
            first_scene(ss@, sid@, k as int) == first_scene(ss@, sid@, 0),
        decreases ss.len() - k,
    {
        if vec_eq(&chars_of(ss[k].id.as_str()), sid) {
            return Some(k);
        }
        k += 1;
    }
    None
}

/// The trimmed texts of the scenes around a scene, found by chapter and
/// scene id.
pub fn neighbor_context(chapters: &Vec<Chapter>, chapter_id: &str, scene_id: &str, max: usize) -> (r: (
    Option<String>,
    Option<String>,
))
    ensures
        (opt_text(r.0), opt_text(r.1)) == neighbors(chapters@, chapter_id@, scene_id@, max as nat),
{
    let cid = chars_of(chapter_id);
    let sid = chars_of(scene_id);
    let mut previous: Option<String> = None;
    let mut next: Option<String> = None;
    let mut k: usize = 0;
    while k < chapters.len()
        invariant
            k <= chapters.len(),
            cid@ == chapter_id@,
            sid@ == scene_id@,
            neighbor_fold(chapters@, cid@, sid@, max as nat, k as int, (opt_text(previous), opt_text(next)))
                == neighbors(chapters@, chapter_id@, scene_id@, max as nat),
        decreases chapters.len() - k,
    {
        let chapter = &chapters[k];
        if vec_eq(&chars_of(chapter.id.as_str()), &cid) {
            match find_scene(&chapter.scenes, &sid) {
                Some(index) => {
                    previous = if index >= 1 {
                        Some(trim_context(chapter.scenes[index - 1].text.as_str(), max))
                    } else {
                        None
                    };
                    next = if index < chapter.scenes.len() - 1 {
                        Some(trim_context(chapter.scenes[index + 1].text.as_str(), max))
                    } else {
                        None
                    };
                },
                None => {},
            }
        }
        k += 1;
    }
    (previous, next)
}

// ---------------------------------------------------------------------------
// Planning
// ---------------------------------------------------------------------------

/// The paragraph groups of a scene under the planner's budget.
pub open spec fn scene_groups(cfg: PlannerConfig, s: Scene) -> Seq<(int, int)> {
    groups_of(s.paragraphs@, cfg.max_unit_characters as nat)
}

/// The rendered text of group `gi` of a scene.
pub open spec fn group_text(cfg: PlannerConfig, s: Scene, gi: int) -> Seq<char> {
    let g = scene_groups(cfg, s)[gi];
    render_spec(s.paragraphs@.subrange(g.0, g.1))
}

/// The unit slots of the first `n` groups of scene `si` of chapter `ci`:
/// every group whose text is not blank.
pub open spec fn group_slots(cfg: PlannerConfig, chs: Seq<Chapter>, ci: int, si: int, n: int) -> Seq<
    (int, int, int),
>
    decreases n,
{
    if n <= 0 {
        seq![]
    } else {
        group_slots(cfg, chs, ci, si, n - 1) + (if is_blank(
            group_text(cfg, chs[ci].scenes@[si], n - 1),
        ) {
            seq![]
        } else {
            seq![(ci, si, n - 1)]
        })
    }
}

/// The unit slots of the first `n` scenes of chapter `ci`.
pub open spec fn scene_slots(cfg: PlannerConfig, chs: Seq<Chapter>, ci: int, n: int) -> Seq<
    (int, int, int),
>
    decreases n,
{
    if n <= 0 {
        seq![]
    } else {
        scene_slots(cfg, chs, ci, n - 1) + group_slots(
            cfg,
            chs,
            ci,
            n - 1,
            scene_groups(cfg, chs[ci].scenes@[n - 1]).len() as int,
        )
    }
}

/// The unit slots of the first `n` chapters, in manuscript order.
pub open spec fn chapter_slots(cfg: PlannerConfig, chs: Seq<Chapter>, n: int) -> Seq<(int, int, int)>
    decreases n,
{
    if n <= 0 {
        seq![]
    } else {
        chapter_slots(cfg, chs, n - 1) + scene_slots(
            cfg,
            chs,
            n - 1,
            chs[n - 1].scenes@.len() as int,
        )
    }
}

/// The unit slots of a manuscript: (chapter, scene, group) for each group of
/// paragraphs whose text is not blank, in manuscript order.
pub open spec fn unit_slots(cfg: PlannerConfig, m: Manuscript) -> Seq<(int, int, int)> {
    chapter_slots(cfg, m.chapters@, m.chapters@.len() as int)
}

/// The unit planned for a slot.
pub open spec fn unit_matches(
    u: AnalysisUnit,
    cfg: PlannerConfig,
    chs: Seq<Chapter>,
    canon: CanonContext,
    slot: (int, int, int),
) -> bool {
    let c = chs[slot.0];
    let s = c.scenes@[slot.1];
    let g = scene_groups(cfg, s)[slot.2];
    let text = group_text(cfg, s, slot.2);
    let fp = sha256_hex(encode_utf8(text));
    let nb = neighbors(chs, c.id@, s.id@, cfg.max_context_characters as nat);
    &&& u.unit_id@ == unit_id_spec(c.id@, Some(s.id@), fp, slot.2 as nat)
    &&& u.unit_type == AnalysisUnitType::Scene
    &&& u.chapter_id@ == c.id@
    &&& u.chapter_index == c.index
    &&& opt_text(u.scene_id) == Some(s.id@)
    &&& u.text_content@ == text
    &&& u.text_fingerprint@ == fp
    &&& views(u.paragraph_ids@) == s.paragraphs@.subrange(g.0, g.1).map_values(|p: Paragraph| p.id@)
    &&& opt_text(u.previous_scene_context) == nb.0
    &&& opt_text(u.next_scene_context) == nb.1
    &&& views(u.known_character_names@) == present_spec(
        canon.character_names@,
        unicode_lowercase(text),
        cfg.max_canon_names_per_unit as nat,
    )
    &&& views(u.known_glossary_terms@) == present_spec(
        canon.glossary_terms@,
        unicode_lowercase(text),
        cfg.max_glossary_terms_per_unit as nat,
    )
    &&& u.source == s.source
}

/// The units match the slots, one for one.
pub open spec fn units_match(
    us: Seq<AnalysisUnit>,
    cfg: PlannerConfig,
    chs: Seq<Chapter>,
    canon: CanonContext,
    slots: Seq<(int, int, int)>,
) -> bool {
    us.len() == slots.len() && forall|k: int|
        0 <= k < us.len() ==> #[trigger] unit_matches(us[k], cfg, chs, canon, slots[k])
}

/// Every paragraph position is one-based.
pub open spec fn positions_one_based(chs: Seq<Chapter>) -> bool {
    forall|ci: int, si: int, pi: int|
        0 <= ci < chs.len() && 0 <= si < chs[ci].scenes@.len() && 0 <= pi
            < chs[ci].scenes@[si].paragraphs@.len() ==> #[trigger] chs[ci].scenes@[si].paragraphs@[pi].position
            >= 1
}

/// The message refusing a plan with too many units.
pub open spec fn too_many_units(n: nat, max: nat) -> Seq<char> {
    "analysis would produce "@ + dec_digits(n) + " units, exceeding the configured maximum of "@
        + dec_digits(max)
        + "; raise the limit explicitly (for example LITERARY_ENGINE_ANALYSIS_MAX_UNITS)"@
}

/// Plans the units of a manuscript.
pub struct AnalysisPlanner {
    config: PlannerConfig,
}

impl AnalysisPlanner {
    /// The planner's limits.
    pub closed spec fn limits(&self) -> PlannerConfig {
        self.config
    }

    pub fn new(config: PlannerConfig) -> (r: AnalysisPlanner)
        ensures
            r.limits() == config,
    {
        AnalysisPlanner { config }
    }

    /// A planner with the default limits.
    pub fn with_defaults() -> (r: AnalysisPlanner)
        ensures
            r.limits() == (PlannerConfig {
                max_unit_characters: 10_000,
                max_context_characters: 800,
                max_units: 2_000,
                max_canon_names_per_unit: 24,
                max_glossary_terms_per_unit: 12,
            }),
    {
        AnalysisPlanner::new(PlannerConfig::default())
    }

    /// The unit of one non-blank group.
    fn build_unit(
        &self,
        chapters: &Vec<Chapter>,
        ci: usize,
        si: usize,
        gi: usize,
        g: (usize, usize),
        text_content: String,
        canon: &CanonContext,
    ) -> (u: AnalysisUnit)
        requires
            ci < chapters@.len(),
            si < chapters@[ci as int].scenes@.len(),
            gi < scene_groups(self.limits(), chapters@[ci as int].scenes@[si as int]).len(),
            (g.0 as int, g.1 as int) == scene_groups(self.limits(), chapters@[ci as int].scenes@[si as int])[gi as int],
            g.0 <= g.1 <= chapters@[ci as int].scenes@[si as int].paragraphs@.len(),
            text_content@ == group_text(self.limits(), chapters@[ci as int].scenes@[si as int], gi as int),
        ensures
            unit_matches(u, self.limits(), chapters@, *canon, (ci as int, si as int, gi as int)),
    {
        let chapter = &chapters[ci];
        let scene = &chapter.scenes[si];
        let text_fingerprint = stable_hash(text_content.as_str().as_bytes());
        let unit_id = AnalysisUnit::unit_id(
            chapter.id.as_str(),
            Some(scene.id.as_str()),
            text_fingerprint.as_str(),
            gi,
        );
        let mut paragraph_ids: Vec<String> = Vec::new();
        let ghost ps = scene.paragraphs@;
        let mut k: usize = g.0;
        while k < g.1
            invariant
                g.0 <= k <= g.1 <= ps.len(),
                ps == scene.paragraphs@,
                views(paragraph_ids@) == ps.subrange(g.0 as int, k as int).map_values(
                    |p: Paragraph| p.id@,
                ),
            decreases g.1 - k,
        {
            let ghost before = views(paragraph_ids@);
            paragraph_ids.push(scene.paragraphs[k].id.clone());
            assert(views(paragraph_ids@) =~= before.push(ps[k as int].id@));
            assert(ps.subrange(g.0 as int, k + 1).map_values(|p: Paragraph| p.id@) =~= ps.subrange(
                g.0 as int,
                k as int,
            ).map_values(|p: Paragraph| p.id@).push(ps[k as int].id@));
            k += 1;
        }
        let (previous_scene_context, next_scene_context) = neighbor_context(
            chapters,
            chapter.id.as_str(),
            scene.id.as_str(),
            self.config.max_context_characters,
        );
        let text_lower = chars_of(lowercase(text_content.as_str()).as_str());
        let known_character_names = present_entries(
            &canon.character_names,
            &text_lower,
            self.config.max_canon_names_per_unit,
        );
        let known_glossary_terms = present_entries(
            &canon.glossary_terms,
            &text_lower,
            self.config.max_glossary_terms_per_unit,
        );
        AnalysisUnit {
            unit_id,
            unit_type: AnalysisUnitType::Scene,
            chapter_id: chapter.id.clone(),
            chapter_index: chapter.index,
            scene_id: Some(scene.id.clone()),
            text_content,
            text_fingerprint,
            paragraph_ids,
            previous_scene_context,
            next_scene_context,
            known_character_names,
            known_glossary_terms,
            source: scene.source.copy(),
        }
    }


    /// Plans the bounded analysis units of a manuscript: one unit per
    /// non-blank paragraph group of each scene, in manuscript order. A plan
    /// with no unit, or with more units than the limit, is refused.
    pub fn plan(&self, manuscript: &Manuscript, canon: &CanonContext) -> (r: Result<
        Vec<AnalysisUnit>,
        AdvancedAnalysisError,
    >)
        requires
            positions_one_based(manuscript.chapters@),
        ensures
            ({
                let slots = unit_slots(self.limits(), *manuscript);
                match r {
                    Ok(us) => slots.len() > 0 && slots.len() <= self.limits().max_units
                        && units_match(us@, self.limits(), manuscript.chapters@, *canon, slots),
                    Err(e) => if slots.len() == 0 {
                        e == AdvancedAnalysisError::EmptyManuscript
                    } else {
                        slots.len() > self.limits().max_units && (e matches AdvancedAnalysisError::Configuration(m) && m@
                            == too_many_units(slots.len(), self.limits().max_units as nat))
                    },
                }
            }),
    {
        let chs = &manuscript.chapters;
        let ghost cfg = self.limits();
        let mut units: Vec<AnalysisUnit> = Vec::new();
        let mut ci: usize = 0;
        while ci < chs.len()
            invariant
                ci <= chs@.len(),
                chs == &manuscript.chapters,
                cfg == self.limits(),
                units_match(units@, cfg, chs@, *canon, chapter_slots(cfg, chs@, ci as int)),
            decreases chs.len() - ci,
        {
            let chapter = &chs[ci];
            let ghost base = chapter_slots(cfg, chs@, ci as int);
            let mut si: usize = 0;
            assert(base + scene_slots(cfg, chs@, ci as int, 0) =~= base);
            while si < chapter.scenes.len()
                invariant
                    ci < chs@.len(),
                    si <= chapter.scenes@.len(),
                    chapter == &chs@[ci as int],
                    cfg == self.limits(),
                    base == chapter_slots(cfg, chs@, ci as int),
                    units_match(
                        units@,
                        cfg,
                        chs@,
                        *canon,
                        base + scene_slots(cfg, chs@, ci as int, si as int),
                    ),
                decreases chapter.scenes.len() - si,
            {
                let scene = &chapter.scenes[si];
                let groups = group_paragraphs(&scene.paragraphs, self.config.max_unit_characters);
                let ghost sg = scene_groups(cfg, chapter.scenes@[si as int]);
                assert(groups@.len() == sg.len());
                let ghost prefix = base + scene_slots(cfg, chs@, ci as int, si as int);
                assert(prefix + group_slots(cfg, chs@, ci as int, si as int, 0) =~= prefix);
                let mut gi: usize = 0;
                while gi < groups.len()
                    invariant
                        ci < chs@.len(),
                        si < chs@[ci as int].scenes@.len(),
                        scene == &chs@[ci as int].scenes@[si as int],
                        cfg == self.limits(),
                        sg == scene_groups(cfg, chs@[ci as int].scenes@[si as int]),
                        groups@.map_values(|g: (usize, usize)| (g.0 as int, g.1 as int)) == sg,
                        forall|k: int|
                            0 <= k < groups@.len() ==> (#[trigger] groups@[k]).0 < groups@[k].1
                                <= scene.paragraphs@.len(),
                        gi <= groups@.len(),
                        units_match(
                            units@,
                            cfg,
                            chs@,
                            *canon,
                            prefix + group_slots(cfg, chs@, ci as int, si as int, gi as int),
                        ),
                    decreases groups.len() - gi,
                {
                    let (a, b) = groups[gi];
                    assert(sg[gi as int] == (a as int, b as int));
                    let text = render_group(&scene.paragraphs, a, b);
                    let ghost old_units = units@;
                    let ghost old_slots = prefix + group_slots(
                        cfg,
                        chs@,
                        ci as int,
                        si as int,
                        gi as int,
                    );
                    if trim_vec(&chars_of(text.as_str())).len() > 0 {
                        let u = self.build_unit(chs, ci, si, gi, (a, b), text, canon);
                        units.push(u);
                        let ghost new_slots = old_slots.push((ci as int, si as int, gi as int));
                        assert(prefix + group_slots(cfg, chs@, ci as int, si as int, gi + 1)
                            =~= new_slots);
                        assert forall|k: int| 0 <= k < units@.len() implies #[trigger] unit_matches(
                            units@[k],
                            cfg,
                            chs@,
                            *canon,
                            new_slots[k],
                        ) by {
                            if k < old_units.len() {
                                assert(units@[k] == old_units[k]);
                                assert(new_slots[k] == old_slots[k]);
                            }
                        }
                    } else {
                        assert(prefix + group_slots(cfg, chs@, ci as int, si as int, gi + 1)
                            =~= old_slots);
                    }
                    gi += 1;
                }
                assert(base + scene_slots(cfg, chs@, ci as int, si + 1) =~= prefix + group_slots(
                    cfg,
                    chs@,
                    ci as int,
                    si as int,
                    sg.len() as int,
                ));
                si += 1;
            }
            assert(chapter_slots(cfg, chs@, ci + 1) =~= base + scene_slots(
                cfg,
                chs@,
                ci as int,
                chapter.scenes@.len() as int,
            ));
            ci += 1;
        }
        if units.len() == 0 {
            return Err(AdvancedAnalysisError::EmptyManuscript);
        }
        if units.len() > self.config.max_units {
            let mut m = chars_of("analysis would produce ");
            extend_all(&mut m, &dec_vec(units.len()));
            extend_str(&mut m, " units, exceeding the configured maximum of ");
            extend_all(&mut m, &dec_vec(self.config.max_units));
            extend_str(
                &mut m,
                "; raise the limit explicitly (for example LITERARY_ENGINE_ANALYSIS_MAX_UNITS)",
            );
            return Err(AdvancedAnalysisError::Configuration(string_of(&m)));
        }
        Ok(units)
    }
}


/// Every slot names a chapter below `n` and a group whose text is not blank.
pub proof fn lemma_chapter_slots(cfg: PlannerConfig, chs: Seq<Chapter>, n: int)
    requires
        n <= chs.len(),
    ensures
        forall|k: int| 0 <= k < chapter_slots(cfg, chs, n).len() ==> {
            let slot = #[trigger] chapter_slots(cfg, chs, n)[k];
            &&& 0 <= slot.0 < n
            &&& !is_blank(group_text(cfg, chs[slot.0].scenes@[slot.1], slot.2))
        },
    decreases n,
{
    if n > 0 {
        lemma_chapter_slots(cfg, chs, n - 1);
        lemma_scene_slots(cfg, chs, n - 1, chs[n - 1].scenes@.len() as int);
        let a = chapter_slots(cfg, chs, n - 1);
        let b = scene_slots(cfg, chs, n - 1, chs[n - 1].scenes@.len() as int);
        assert forall|k: int| 0 <= k < (a + b).len() implies {
            let slot = #[trigger] (a + b)[k];
            &&& 0 <= slot.0 < n
            &&& !is_blank(group_text(cfg, chs[slot.0].scenes@[slot.1], slot.2))
        } by {
            if k < a.len() {
                assert((a + b)[k] == a[k]);
            } else {
                assert((a + b)[k] == b[k - a.len()]);
            }
        }
    }
}

proof fn lemma_scene_slots(cfg: PlannerConfig, chs: Seq<Chapter>, ci: int, n: int)
    ensures
        forall|k: int| 0 <= k < scene_slots(cfg, chs, ci, n).len() ==> {
            let slot = #[trigger] scene_slots(cfg, chs, ci, n)[k];
            &&& slot.0 == ci
            &&& !is_blank(group_text(cfg, chs[slot.0].scenes@[slot.1], slot.2))
        },
    decreases n,
{
    if n > 0 {
        lemma_scene_slots(cfg, chs, ci, n - 1);
        lemma_group_slots(cfg, chs, ci, n - 1, scene_groups(cfg, chs[ci].scenes@[n - 1]).len() as int);
        let a = scene_slots(cfg, chs, ci, n - 1);
        let b = group_slots(cfg, chs, ci, n - 1, scene_groups(cfg, chs[ci].scenes@[n - 1]).len() as int);
        assert forall|k: int| 0 <= k < (a + b).len() implies {
            let slot = #[trigger] (a + b)[k];
            &&& slot.0 == ci
            &&& !is_blank(group_text(cfg, chs[slot.0].scenes@[slot.1], slot.2))
        } by {
            if k < a.len() {
                assert((a + b)[k] == a[k]);
            } else {
                assert((a + b)[k] == b[k - a.len()]);
            }
        }
    }
}

proof fn lemma_group_slots(cfg: PlannerConfig, chs: Seq<Chapter>, ci: int, si: int, n: int)
    ensures
        forall|k: int| 0 <= k < group_slots(cfg, chs, ci, si, n).len() ==> {
            let slot = #[trigger] group_slots(cfg, chs, ci, si, n)[k];
            &&& slot.0 == ci
            &&& slot.1 == si
            &&& !is_blank(group_text(cfg, chs[slot.0].scenes@[slot.1], slot.2))
        },
    decreases n,
{
    if n > 0 {
        lemma_group_slots(cfg, chs, ci, si, n - 1);
    }
}

} // verus!
