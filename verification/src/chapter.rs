//! Chapter extraction for prose documents.

use vstd::prelude::*;
use crate::text::{
    ascii_lower_seq, ascii_lower_vec, chars_of, extend_all, is_blank, is_blank_range, is_line_ranges,
    join, join_exec, lemma_char_vec_deep, line_ranges, lines, range_view, slice_vec, starts_with,
    starts_with_str, string_of, trim, trim_range, trim_vec, utf8_len, utf8_len_exceeds,
};
use crate::fmt::{dec_digits, dec_vec};
use crate::models::{Chapter, translated_chapter_id, DocumentFormat};

verus! {

/// A line is a chapter heading when, trimmed, it is non-empty, at most 120
/// bytes long, and starts with `chapter `/`part ` (any ASCII case) or with the
/// Persian `فصل `/`بخش `.
pub open spec fn heading_line(line: Seq<char>) -> bool {
    let t = trim(line);
    &&& t.len() > 0
    &&& utf8_len(t) <= 120
    &&& {
        ||| starts_with(ascii_lower_seq(t), "chapter "@)
        ||| starts_with(ascii_lower_seq(t), "part "@)
        ||| starts_with(t, "فصل "@)
        ||| starts_with(t, "بخش "@)
    }
}

/// Whether `s[lo..hi]` is a chapter heading line.
pub fn is_heading(s: &Vec<char>, lo: usize, hi: usize) -> (r: bool)
    requires
        lo <= hi <= s.len(),
    ensures
        r == heading_line(s@.subrange(lo as int, hi as int)),
{
    let (a, b) = trim_range(s, lo, hi);
    if a == b {
        return false;
    }
    if utf8_len_exceeds(s, a, b, 120) {
        return false;
    }
    let t = slice_vec(s, a, b);
    let lower = ascii_lower_vec(&t);
    starts_with_str(&lower, "chapter ") || starts_with_str(&lower, "part ") || starts_with_str(
        &t,
        "فصل ",
    ) || starts_with_str(&t, "بخش ")
}

/// Every line is blank.
pub open spec fn all_blank(ls: Seq<Seq<char>>) -> bool
    decreases ls.len(),
{
    ls.len() == 0 || (all_blank(ls.drop_last()) && is_blank(ls.last()))
}

/// The title a chapter gets: its heading, or `Chapter N` without one.
pub open spec fn chapter_title(title: Seq<char>, index: nat) -> Seq<char> {
    if title.len() == 0 {
        "Chapter "@ + dec_digits(index + 1)
    } else {
        title
    }
}

/// The chapters (title, content) found while reading the lines `ls`, with the
/// current heading `title` and the lines `cur` read since it.
pub open spec fn chapter_fold(
    ls: Seq<Seq<char>>,
    done: Seq<(Seq<char>, Seq<char>)>,
    title: Seq<char>,
    cur: Seq<Seq<char>>,
) -> Seq<(Seq<char>, Seq<char>)>
    decreases ls.len(),
{
    if ls.len() == 0 {
        if !all_blank(cur) || title.len() > 0 {
            done.push((chapter_title(title, done.len()), trim(join(cur, "\n"@))))
        } else {
            done
        }
    } else if heading_line(ls[0]) {
        let next = if !all_blank(cur) {
            done.push((chapter_title(title, done.len()), trim(join(cur, "\n"@))))
        } else {
            done
        };
        chapter_fold(ls.drop_first(), next, trim(ls[0]), seq![])
    } else {
        chapter_fold(ls.drop_first(), done, title, cur.push(ls[0]))
    }
}

/// The chapters (title, content) of a prose text.
pub open spec fn chapters_spec(text: Seq<char>) -> Seq<(Seq<char>, Seq<char>)> {
    let found = chapter_fold(lines(text), seq![], seq![], seq![]);
    if found.len() == 0 && !is_blank(text) {
        seq![("Chapter 1"@, trim(text))]
    } else {
        found
    }
}

/// A chapter built by `Chapter::translated` at position `k` with the given
/// title and content.
pub open spec fn is_translated_chapter(c: Chapter, k: int, tc: (Seq<char>, Seq<char>)) -> bool {
    &&& c.index == k
    &&& c.order == k + 1
    &&& c.id@ == translated_chapter_id(k as nat)
    &&& c.title@ == tc.0
    &&& c.content@ == tc.1
    &&& c.scenes@.len() == 0
}

fn chapter_title_exec(title: &Vec<char>, index: usize) -> (r: Vec<char>)
    requires
        index < usize::MAX,
    ensures
        r@ == chapter_title(title@, index as nat),
{
    if title.len() == 0 {
        let mut t = chars_of("Chapter ");
        let n = dec_vec(index + 1);
        extend_all(&mut t, &n);
        t
    } else {
        slice_vec(title, 0, title.len())
    }
}

/// Splits prose into chapters at heading lines; text without headings becomes
/// a single chapter.
pub fn split_into_chapters(text: &str) -> (chapters: Vec<Chapter>)
    ensures
        chapters@.len() == chapters_spec(text@).len(),
        forall|k: int|
            0 <= k < chapters@.len() ==> is_translated_chapter(
                #[trigger] chapters@[k],
                k,
                chapters_spec(text@)[k],
            ),
{
    let s = chars_of(text);
    let ranges = line_ranges(&s);
    let ghost ls = lines(s@);
    let nl = chars_of("\n");
    let mut chapters: Vec<Chapter> = Vec::new();
    let ghost mut done: Seq<(Seq<char>, Seq<char>)> = seq![];
    let mut title: Vec<char> = Vec::new();
    let mut cur: Vec<Vec<char>> = Vec::new();
    let mut cur_has_text = false;
    let mut i: usize = 0;
    assert(ls.skip(0) =~= ls);
    assert(cur.deep_view() =~= Seq::<Seq<char>>::empty());
    while i < ranges.len()
        invariant
            i <= ranges.len(),
            s@ == text@,
            nl@ == "\n"@,
            ls == lines(s@),
            is_line_ranges(s@, ranges@),
            chapters@.len() == done.len(),
            done.len() + (if cur_has_text || title@.len() > 0 {
                1int
            } else {
                0int
            }) <= i,
            forall|k: int|
                0 <= k < chapters@.len() ==> is_translated_chapter(
                    #[trigger] chapters@[k],
                    k,
                    done[k],
                ),
            cur_has_text == !all_blank(cur.deep_view()),
            chapter_fold(ls.skip(i as int), done, title@, cur.deep_view()) == chapter_fold(
                ls,
                seq![],
                seq![],
                seq![],
            ),
        decreases ranges.len() - i,
    {
        let (lo, hi) = ranges[i];
        assert(range_view(s@, ranges@[i as int]) == ls[i as int]);
        assert(ranges@[i as int].0 <= ranges@[i as int].1 <= s@.len());
        let ghost rest = ls.skip(i as int);
        assert(rest[0] == ls[i as int]);
        assert(rest.drop_first() =~= ls.skip(i + 1));
        if is_heading(&s, lo, hi) {
            if cur_has_text {
                let joined = join_exec(&cur, &nl);
                let content = trim_vec(&joined);
                let idx = chapters.len();
                let t = chapter_title_exec(&title, idx);
                let ch = Chapter::translated(idx, string_of(&t), string_of(&content));
                chapters.push(ch);
                proof {
                    done = done.push((t@, content@));
                }
            }
            let (a, b) = trim_range(&s, lo, hi);
            title = slice_vec(&s, a, b);
            cur = Vec::new();
            cur_has_text = false;
            assert(cur.deep_view() =~= Seq::<Seq<char>>::empty());
        } else {
            let line = slice_vec(&s, lo, hi);
            let blank = is_blank_range(&s, lo, hi);
            let ghost before = cur.deep_view();
            proof {
                lemma_char_vec_deep(&line);
            }
            cur.push(line);
            assert(cur.deep_view() =~= before.push(ls[i as int]));
            assert(cur.deep_view().drop_last() =~= before);
            cur_has_text = cur_has_text || !blank;
        }
        i += 1;
    }
    assert(ls.skip(i as int) =~= Seq::<Seq<char>>::empty());
    if cur_has_text || title.len() > 0 {
        let joined = join_exec(&cur, &nl);
        let content = trim_vec(&joined);
        let idx = chapters.len();
        let t = chapter_title_exec(&title, idx);
        let ch = Chapter::translated(idx, string_of(&t), string_of(&content));
        chapters.push(ch);
        proof {
            done = done.push((t@, content@));
        }
    }
    assert(done == chapter_fold(ls, seq![], seq![], seq![]));
    if chapters.len() == 0 {
        let (a, b) = trim_range(&s, 0, s.len());
        assert(s@.subrange(0, s@.len() as int) =~= s@);
        if a < b {
            let t = slice_vec(&s, a, b);
            let ch = Chapter::translated(0, String::from_str("Chapter 1"), string_of(&t));
            chapters.push(ch);
            proof {
                done = done.push(("Chapter 1"@, t@));
            }
        }
    }
    assert forall|k: int| 0 <= k < chapters@.len() implies is_translated_chapter(
        #[trigger] chapters@[k],
        k,
        chapters_spec(text@)[k],
    ) by {
        assert(chapters_spec(text@) == done);
    }
    chapters
}

/// The trimmed line names a chapter by one of the fixed heading prefixes:
/// `chapter ` or `part ` in any ASCII case, or the Persian `فصل ` or `بخش `;
/// it is non-empty and at most 120 bytes long.
pub open spec fn named_heading(line: Seq<char>) -> bool {
    let t = trim(line);
    &&& t.len() > 0
    &&& utf8_len(t) <= 120
    &&& (starts_with(ascii_lower_seq(t), "chapter "@) || starts_with(ascii_lower_seq(t), "part "@)
        || starts_with(t, "فصل "@) || starts_with(t, "بخش "@))
}

/// Law: the chapter headings are exactly the lines that, trimmed, start with
/// `chapter ` or `part ` (any ASCII case) or with `فصل ` or `بخش `, and are
/// non-empty and at most 120 bytes long.
pub proof fn lemma_heading_prefixes(line: Seq<char>)
    ensures
        heading_line(line) <==> named_heading(line),
{
}

proof fn lemma_all_blank_push(cur: Seq<Seq<char>>, x: Seq<char>)
    ensures
        all_blank(cur.push(x)) == (all_blank(cur) && is_blank(x)),
{
    assert(cur.push(x).drop_last() =~= cur);
}

/// The chapters already found stay, in place, at the front of the result.
proof fn lemma_fold_keeps_done(
    ls: Seq<Seq<char>>,
    done: Seq<(Seq<char>, Seq<char>)>,
    title: Seq<char>,
    cur: Seq<Seq<char>>,
)
    ensures
        chapter_fold(ls, done, title, cur).len() >= done.len(),
        forall|j: int| 0 <= j < done.len() ==> #[trigger] chapter_fold(ls, done, title, cur)[j] == done[j],
    decreases ls.len(),
{
    if ls.len() > 0 {
        if heading_line(ls[0]) {
            let next = if !all_blank(cur) {
                done.push((chapter_title(title, done.len()), trim(join(cur, "\n"@))))
            } else {
                done
            };
            lemma_fold_keeps_done(ls.drop_first(), next, trim(ls[0]), seq![]);
            assert forall|j: int| 0 <= j < done.len() implies next[j] == done[j] by {}
        } else {
            lemma_fold_keeps_done(ls.drop_first(), done, title, cur.push(ls[0]));
        }
    }
}

/// With text read since the current heading, the next chapter found carries
/// that heading's title.
proof fn lemma_fold_next_title(
    ls: Seq<Seq<char>>,
    done: Seq<(Seq<char>, Seq<char>)>,
    title: Seq<char>,
    cur: Seq<Seq<char>>,
)
    requires
        !all_blank(cur),
    ensures
        chapter_fold(ls, done, title, cur).len() > done.len(),
        chapter_fold(ls, done, title, cur)[done.len() as int].0 == chapter_title(title, done.len()),
    decreases ls.len(),
{
    if ls.len() > 0 {
        if heading_line(ls[0]) {
            let next = done.push((chapter_title(title, done.len()), trim(join(cur, "\n"@))));
            lemma_fold_keeps_done(ls.drop_first(), next, trim(ls[0]), seq![]);
            assert(chapter_fold(ls.drop_first(), next, trim(ls[0]), seq![])[done.len() as int]
                == next[done.len() as int]);
        } else {
            lemma_all_blank_push(cur, ls[0]);
            lemma_fold_next_title(ls.drop_first(), done, title, cur.push(ls[0]));
        }
    }
}

/// A heading line followed by a line of text gives a chapter titled by the
/// trimmed heading.
proof fn lemma_fold_heading_titles(
    ls: Seq<Seq<char>>,
    done: Seq<(Seq<char>, Seq<char>)>,
    title: Seq<char>,
    cur: Seq<Seq<char>>,
    i: int,
)
    requires
        0 <= i,
        i + 1 < ls.len(),
        heading_line(ls[i]),
        !is_blank(ls[i + 1]),
        !heading_line(ls[i + 1]),
    ensures
        exists|k: int|
            done.len() <= k < chapter_fold(ls, done, title, cur).len() && (#[trigger] chapter_fold(
                ls,
                done,
                title,
                cur,
            )[k]).0 == trim(ls[i]),
    decreases i,
{
    let r = chapter_fold(ls, done, title, cur);
    if i == 0 {
        let next = if !all_blank(cur) {
            done.push((chapter_title(title, done.len()), trim(join(cur, "\n"@))))
        } else {
            done
        };
        let rest = ls.drop_first();
        assert(r == chapter_fold(rest, next, trim(ls[0]), seq![]));
        assert(rest[0] == ls[1]);
        assert(chapter_fold(rest, next, trim(ls[0]), seq![]) == chapter_fold(
            rest.drop_first(),
            next,
            trim(ls[0]),
            seq![ls[1]],
        )) by {
            assert(Seq::<Seq<char>>::empty().push(ls[1]) =~= seq![ls[1]]);
        }
        lemma_all_blank_push(Seq::<Seq<char>>::empty(), ls[1]);
        assert(seq![ls[1]] =~= Seq::<Seq<char>>::empty().push(ls[1]));
        lemma_fold_next_title(rest.drop_first(), next, trim(ls[0]), seq![ls[1]]);
        assert(r[next.len() as int].0 == trim(ls[i]));
    } else {
        let rest = ls.drop_first();
        assert(rest[i - 1] == ls[i] && rest[i] == ls[i + 1]);
        if heading_line(ls[0]) {
            let next = if !all_blank(cur) {
                done.push((chapter_title(title, done.len()), trim(join(cur, "\n"@))))
            } else {
                done
            };
            lemma_fold_heading_titles(rest, next, trim(ls[0]), seq![], i - 1);
        } else {
            lemma_fold_heading_titles(rest, done, title, cur.push(ls[0]), i - 1);
        }
    }
}

/// Law: every line that names a chapter by a heading prefix (see
/// `named_heading`) and is followed by a line of text begins a chapter of
/// its own, titled by the trimmed heading line.
pub proof fn lemma_heading_begins_chapter(text: Seq<char>, i: int)
    requires
        0 <= i,
        i + 1 < lines(text).len(),
        named_heading(lines(text)[i]),
        !is_blank(lines(text)[i + 1]),
        !named_heading(lines(text)[i + 1]),
    ensures
        exists|k: int|
            0 <= k < chapters_spec(text).len() && (#[trigger] chapters_spec(text)[k]).0 == trim(
                lines(text)[i],
            ),
{
    let ls = lines(text);
    lemma_fold_heading_titles(ls, seq![], seq![], seq![], i);
    let found = chapter_fold(ls, seq![], seq![], seq![]);
    assert(found.len() > 0);
    assert(chapters_spec(text) == found);
}

} // verus!
