//! Chapter and scene chunking foundation: prepares documents for
//! context-aware translation.
//!
//! Splitting counts characters, never bytes, so multi-byte text such as Persian
//! and Arabic is never broken inside a character. Whitespace boundaries are
//! preferred when available.

use vstd::prelude::*;
use crate::text::{chars_of, is_whitespace, is_ws, slice_vec, string_of};

verus! {

/// One bounded piece of a longer text.
#[derive(Debug, Clone)]
pub struct TextChunk {
    pub index: usize,
    pub content: String,
}

/// The position just after the last whitespace character in `s[..j]`, or 0 when
/// `s[..j]` holds no whitespace.
pub open spec fn last_ws_end(s: Seq<char>, j: int) -> int
    decreases j,
{
    if j <= 0 {
        0
    } else if is_ws(s[j - 1]) {
        j
    } else {
        last_ws_end(s, j - 1)
    }
}

/// Where a text longer than `size` characters is cut: after the last whitespace
/// among its first `size` characters, or after exactly `size` characters.
pub open spec fn chunk_boundary(s: Seq<char>, size: int) -> int {
    if last_ws_end(s, size) > 0 {
        last_ws_end(s, size)
    } else {
        size
    }
}

pub proof fn lemma_last_ws_end_bounds(s: Seq<char>, j: int)
    ensures
        0 <= last_ws_end(s, j),
        j >= 0 ==> last_ws_end(s, j) <= j,
    decreases j,
{
    if j > 0 {
        lemma_last_ws_end_bounds(s, j - 1);
    }
}

pub proof fn lemma_boundary_bounds(s: Seq<char>, size: int)
    requires
        size >= 1,
    ensures
        1 <= chunk_boundary(s, size) <= size,
{
    lemma_last_ws_end_bounds(s, size);
}

/// The chunks of `s` for a budget of `size >= 1` characters.
pub open spec fn chunks_spec(s: Seq<char>, size: int) -> Seq<Seq<char>>
    decreases s.len(),
{
    if size < 1 || s.len() == 0 {
        seq![]
    } else if s.len() > size {
        let b = chunk_boundary(s, size);
        proof {
            lemma_boundary_bounds(s, size);
        }
        seq![s.take(b)] + chunks_spec(s.skip(b), size)
    } else {
        seq![s]
    }
}

/// The concatenation of all parts.
pub open spec fn concat_all(parts: Seq<Seq<char>>) -> Seq<char>
    decreases parts.len(),
{
    if parts.len() == 0 {
        seq![]
    } else {
        parts[0] + concat_all(parts.drop_first())
    }
}

/// The effective budget: `max_chars`, but at least one character.
pub open spec fn effective_size(max_chars: usize) -> int {
    if max_chars == 0 {
        1
    } else {
        max_chars as int
    }
}

/// Chunking is lossless: the chunks concatenate back to the text.
pub proof fn lemma_chunks_lossless(s: Seq<char>, size: int)
    requires
        size >= 1,
    ensures
        concat_all(chunks_spec(s, size)) == s,
    decreases s.len(),
{
    if s.len() == 0 {
        assert(s =~= Seq::<char>::empty());
    } else if s.len() > size {
        let b = chunk_boundary(s, size);
        lemma_boundary_bounds(s, size);
        lemma_chunks_lossless(s.skip(b), size);
        assert(concat_all(chunks_spec(s, size)) == chunks_spec(s, size)[0] + concat_all(
            chunks_spec(s, size).drop_first(),
        ));
        let parts = chunks_spec(s, size);
        assert(parts[0] == s.take(b));
        assert(parts.drop_first() =~= chunks_spec(s.skip(b), size));
        assert(s.take(b) + s.skip(b) =~= s);
    } else {
        let parts = chunks_spec(s, size);
        assert(parts.drop_first() =~= Seq::<Seq<char>>::empty());
        assert(concat_all(parts) == parts[0] + concat_all(parts.drop_first()));
        assert(s + Seq::<char>::empty() =~= s);
    }
}

/// Every chunk is non-empty and holds at most `size` characters.
pub proof fn lemma_chunks_bounded(s: Seq<char>, size: int)
    requires
        size >= 1,
    ensures
        forall|k: int|
            0 <= k < chunks_spec(s, size).len() ==> 1 <= #[trigger] chunks_spec(s, size)[k].len()
                <= size,
    decreases s.len(),
{
    if s.len() == 0 {
    } else if s.len() > size {
        let b = chunk_boundary(s, size);
        lemma_boundary_bounds(s, size);
        lemma_chunks_bounded(s.skip(b), size);
        let parts = chunks_spec(s, size);
        assert forall|k: int| 0 <= k < parts.len() implies 1 <= #[trigger] parts[k].len()
            <= size by {
            if k > 0 {
                assert(parts[k] == chunks_spec(s.skip(b), size)[k - 1]);
            }
        }
    } else {
    }
}

/// Splits `text` into chunks of at most `max_chars` characters (at least one),
/// cutting after the last whitespace that fits whenever there is one.
pub fn split_into_chunks(text: &str, max_chars: usize) -> (chunks: Vec<TextChunk>)
    ensures
        chunks@.len() == chunks_spec(text@, effective_size(max_chars)).len(),
        forall|k: int|
            0 <= k < chunks@.len() ==> (#[trigger] chunks@[k]).index == k && chunks@[k].content@
                == chunks_spec(text@, effective_size(max_chars))[k],
{
    let size: usize = if max_chars == 0 {
        1
    } else {
        max_chars
    };
    let s = chars_of(text);
    let ghost whole = chunks_spec(s@, size as int);
    let mut chunks: Vec<TextChunk> = Vec::new();
    let mut pos: usize = 0;
    assert(s@.skip(0) =~= s@);
    while s.len() - pos > size
        invariant
            size >= 1,
            pos <= s.len(),
            s@ == text@,
            whole == chunks_spec(s@, size as int),
            chunks@.len() + chunks_spec(s@.skip(pos as int), size as int).len() == whole.len(),
            forall|k: int|
                0 <= k < chunks@.len() ==> (#[trigger] chunks@[k]).index == k
                    && chunks@[k].content@ == whole[k],
            forall|k: int|
                0 <= k < chunks_spec(s@.skip(pos as int), size as int).len() ==> whole[chunks@.len()
                    + k] == #[trigger] chunks_spec(s@.skip(pos as int), size as int)[k],
        decreases s.len() - pos,
    {
        let ghost rest = s@.skip(pos as int);
        let mut j = size;
        while j > 0 && !is_whitespace(s[pos + j - 1])
            invariant
                pos + size < s.len(),
                0 <= j <= size,
                rest == s@.skip(pos as int),
                last_ws_end(rest, j as int) == last_ws_end(rest, size as int),
            decreases j,
        {
            assert(rest[j - 1] == s@[pos + j - 1]);
            j -= 1;
        }
        proof {
            if j > 0 {
                assert(rest[j - 1] == s@[pos + j - 1]);
            }
        }
        let b = if j > 0 {
            j
        } else {
            size
        };
        assert(b == chunk_boundary(rest, size as int));
        let piece = slice_vec(&s, pos, pos + b);
        assert(piece@ =~= rest.take(b as int));
        let ghost tail = chunks_spec(rest, size as int);
        assert(tail[0] == rest.take(b as int));
        assert(rest.skip(b as int) =~= s@.skip(pos + b));
        assert(tail.drop_first() =~= chunks_spec(s@.skip(pos + b), size as int));
        let idx = chunks.len();
        chunks.push(TextChunk { index: idx, content: string_of(&piece) });
        pos = pos + b;
        assert forall|k: int|
            0 <= k < chunks_spec(s@.skip(pos as int), size as int).len() implies whole[chunks@.len()
            + k] == #[trigger] chunks_spec(s@.skip(pos as int), size as int)[k] by {
            assert(chunks_spec(s@.skip(pos as int), size as int)[k] == tail[k + 1]);
        }
    }
    let ghost rest = s@.skip(pos as int);
    if pos < s.len() {
        let piece = slice_vec(&s, pos, s.len());
        assert(piece@ =~= rest);
        assert(chunks_spec(rest, size as int)[0] == rest);
        let idx = chunks.len();
        chunks.push(TextChunk { index: idx, content: string_of(&piece) });
    } else {
        assert(rest.len() == 0);
    }
    chunks
}

proof fn lemma_last_ws_end_spec(s: Seq<char>, j: int)
    requires
        0 <= j <= s.len(),
    ensures
        last_ws_end(s, j) > 0 ==> is_ws(s[last_ws_end(s, j) - 1]),
        forall|i: int| last_ws_end(s, j) <= i < j ==> !is_ws(#[trigger] s[i]),
    decreases j,
{
    if j > 0 && !is_ws(s[j - 1]) {
        lemma_last_ws_end_spec(s, j - 1);
    }
}

/// Law: a text longer than the budget is cut as late as whitespace allows.
/// The first chunk is a prefix of the text of at most `size` characters; it
/// either ends with whitespace and no whitespace follows it within the first
/// `size` characters, or, when those hold no whitespace at all, it is exactly
/// `size` characters long. The remaining chunks are the chunks of the rest
/// of the text, so every cut obeys the same rule. A text that fits is one
/// chunk.
pub proof fn lemma_chunks_cut_late(s: Seq<char>, size: int)
    requires
        size >= 1,
        s.len() > 0,
    ensures
        s.len() <= size ==> chunks_spec(s, size) == seq![s],
        s.len() > size ==> {
            let c = chunks_spec(s, size)[0];
            &&& chunks_spec(s, size).len() >= 1
            &&& 1 <= c.len() <= size
            &&& c == s.take(c.len() as int)
            &&& chunks_spec(s, size).drop_first() == chunks_spec(s.skip(c.len() as int), size)
            &&& forall|i: int| c.len() <= i < size ==> !is_ws(#[trigger] s[i])
            &&& (is_ws(c[c.len() - 1]) || (c.len() == size && forall|i: int|
                0 <= i < size ==> !is_ws(#[trigger] s[i])))
        },
{
    if s.len() > size {
        let b = chunk_boundary(s, size);
        lemma_boundary_bounds(s, size);
        lemma_last_ws_end_spec(s, size);
        let parts = chunks_spec(s, size);
        assert(parts[0] == s.take(b));
        assert(parts.drop_first() =~= chunks_spec(s.skip(b), size));
        assert(s.take(b).len() == b);
        if last_ws_end(s, size) > 0 {
            assert(s.take(b)[b - 1] == s[b - 1]);
        } else {
            assert forall|i: int| 0 <= i < size implies !is_ws(#[trigger] s[i]) by {}
        }
    }
}

} // verus!
