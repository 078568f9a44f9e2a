//! Command-line argument reading shared by the review, admission and
//! qualification commands.

use vstd::prelude::*;
use crate::text::{chars_of, extend_str, is_blank, starts_with, starts_with_str, string_of, trim, trim_vec, vec_eq};

verus! {

/// The number of arguments equal to `flag`.
pub open spec fn flag_count(args: Seq<String>, flag: Seq<char>) -> nat {
    args.filter(|a: String| a@ == flag).len()
}

/// The position of the first argument equal to `flag`, from `k` on, or -1.
pub open spec fn flag_position(args: Seq<String>, flag: Seq<char>, k: int) -> int
    decreases args.len() - k,
{
    if k < 0 || k >= args.len() {
        -1
    } else if args[k]@ == flag {
        k
    } else {
        flag_position(args, flag, k + 1)
    }
}

/// What a security-sensitive flag yields: refused when repeated, when missing
/// but required, or when its value is absent, blank or another flag;
/// otherwise its trimmed value.
pub open spec fn strict_flag_spec(args: Seq<String>, flag: Seq<char>, required: bool) -> Result<
    Option<Seq<char>>,
    Seq<char>,
> {
    if flag_count(args, flag) > 1 {
        Err(flag + " may be provided only once"@)
    } else if flag_count(args, flag) == 0 {
        if required {
            Err(flag + " is required"@)
        } else {
            Ok(None)
        }
    } else {
        let i = flag_position(args, flag, 0);
        if i + 1 < args.len() && trim(args[i + 1]@).len() > 0 && !starts_with(
            trim(args[i + 1]@),
            "--"@,
        ) {
            Ok(Some(trim(args[i + 1]@)))
        } else {
            Err(flag + " requires a non-empty path value"@)
        }
    }
}

proof fn lemma_flag_position(args: Seq<String>, flag: Seq<char>, k: int)
    requires
        0 <= k <= args.len(),
    ensures
        flag_position(args, flag, k) == -1 <==> args.skip(k).filter(|a: String| a@ == flag).len() == 0,
        flag_position(args, flag, k) != -1 ==> k <= flag_position(args, flag, k) < args.len()
            && args[flag_position(args, flag, k)]@ == flag,
    decreases args.len() - k,
{
    reveal_with_fuel(Seq::filter, 1);
    if k < args.len() {
        lemma_flag_position(args, flag, k + 1);
        lemma_filter_front(args.skip(k), |a: String| a@ == flag);
        assert(args.skip(k).drop_first() =~= args.skip(k + 1));
    } else {
        assert(args.skip(k) =~= Seq::<String>::empty());
    }
}

/// Filtering a non-empty sequence keeps its first element exactly when the
/// predicate holds of it.
pub proof fn lemma_filter_front<A>(s: Seq<A>, p: spec_fn(A) -> bool)
    requires
        s.len() > 0,
    ensures
        s.filter(p).len() == s.drop_first().filter(p).len() + (if p(s[0]) {
            1int
        } else {
            0int
        }),
    decreases s.len(),
{
    reveal_with_fuel(Seq::filter, 2);
    if s.len() > 1 {
        lemma_filter_front(s.drop_last(), p);
        assert(s.drop_last().drop_first() =~= s.drop_first().drop_last());
        assert(s.drop_first().last() == s.last());
    } else {
        assert(s.drop_first() =~= Seq::<A>::empty());
        assert(s.drop_last() =~= Seq::<A>::empty());
    }
}

/// How many times `flag` occurs among the arguments, capped at two.
pub fn flag_occurrences(args: &[String], flag: &str) -> (r: (usize, usize))
    ensures
        r.0 <= 2,
        r.0 == 0 <==> flag_count(args@, flag@) == 0,
        r.0 == 1 <==> flag_count(args@, flag@) == 1,
        r.0 == 2 <==> flag_count(args@, flag@) > 1,
        r.0 > 0 ==> r.1 as int == flag_position(args@, flag@, 0),
{
    let fv = chars_of(flag);
    let mut n: usize = 0;
    let mut first: usize = 0;
    let mut i: usize = 0;
    while i < args.len()
        invariant
            i <= args.len(),
            fv@ == flag@,
            n <= 2,
            n as nat == if flag_count(args@.take(i as int), flag@) > 2 { 2 } else { flag_count(args@.take(i as int), flag@) },
            n > 0 ==> first as int == flag_position(args@, flag@, 0) && first < i,
            n == 0 ==> flag_position(args@, flag@, 0) == flag_position(args@, flag@, i as int),
        decreases args.len() - i,
    {
        assert(args@.take(i + 1).drop_last() =~= args@.take(i as int));
        proof {
            reveal_with_fuel(Seq::filter, 1);
        }
        if vec_eq(&chars_of(args[i].as_str()), &fv) {
            if n == 0 {
                first = i;
            }
            if n < 2 {
                n += 1;
            }
        }
        i += 1;
    }
    assert(args@.take(args@.len() as int) =~= args@);
    (n, first)
}

/// Reads a security-sensitive flag that may appear at most once and whose
/// value must be a non-blank path that is not itself a flag.
pub fn strict_flag_value(args: &[String], flag: &str, required: bool) -> (r: Result<
    Option<String>,
    String,
>)
    ensures
        match r {
            Ok(Some(v)) => strict_flag_spec(args@, flag@, required) == Ok::<Option<Seq<char>>, Seq<char>>(Some(v@)),
            Ok(None) => strict_flag_spec(args@, flag@, required) == Ok::<Option<Seq<char>>, Seq<char>>(None),
            Err(m) => strict_flag_spec(args@, flag@, required) == Err::<Option<Seq<char>>, Seq<char>>(m@),
        },
{
    let (n, i) = flag_occurrences(args, flag);
    if n > 1 {
        let mut m = chars_of(flag);
        extend_str(&mut m, " may be provided only once");
        return Err(string_of(&m));
    }
    if n == 0 {
        if required {
            let mut m = chars_of(flag);
            extend_str(&mut m, " is required");
            return Err(string_of(&m));
        }
        return Ok(None);
    }
    if i < args.len() - 1 {
        let v = trim_vec(&chars_of(args[i + 1].as_str()));
        if v.len() > 0 && !starts_with_str(&v, "--") {
            return Ok(Some(string_of(&v)));
        }
    }
    let mut m = chars_of(flag);
    extend_str(&mut m, " requires a non-empty path value");
    Err(string_of(&m))
}

/// Whether `v` is one of `set`.
pub open spec fn listed(set: Seq<&str>, v: Seq<char>) -> bool {
    exists|k: int| 0 <= k < set.len() && #[trigger] set[k]@ == v
}

/// The positional arguments from position `i` on: flags listed as taking a
/// value are skipped with their value, other `--` flags alone.
pub open spec fn positional_values(args: Seq<String>, flags: Seq<&str>, i: int) -> Seq<Seq<char>>
    decreases args.len() + 1 - i,
{
    if i < 0 || i >= args.len() {
        seq![]
    } else if listed(flags, args[i]@) {
        positional_values(args, flags, i + 2)
    } else if starts_with(args[i]@, "--"@) {
        positional_values(args, flags, i + 1)
    } else {
        seq![args[i]@] + positional_values(args, flags, i + 1)
    }
}

/// Whether `v` is one of `set`.
fn is_listed(set: &[&str], v: &String) -> (r: bool)
    ensures
        r == listed(set@, v@),
{
    let vv = chars_of(v.as_str());
    let mut k: usize = 0;
    while k < set.len()
        invariant
            k <= set.len(),
            vv@ == v@,
            forall|q: int| 0 <= q < k ==> #[trigger] set@[q]@ != v@,
        decreases set.len() - k,
    {
        if vec_eq(&chars_of(set[k]), &vv) {
            return true;
        }
        k += 1;
    }
    false
}

/// The `wanted`-th positional argument.
pub fn positional(args: &[String], wanted: usize, flags_with_values: &[&str]) -> (r: Option<
    String,
>)
    ensures
        match r {
            Some(v) => wanted < positional_values(args@, flags_with_values@, 0).len() && v@
                == positional_values(args@, flags_with_values@, 0)[wanted as int],
            None => wanted >= positional_values(args@, flags_with_values@, 0).len(),
        },
{
    let ghost all = positional_values(args@, flags_with_values@, 0);
    let mut seen: usize = 0;
    let mut index: usize = 0;
    while index < args.len()
        invariant
            seen <= wanted,
            all == positional_values(args@, flags_with_values@, 0),
            all.len() == seen + positional_values(args@, flags_with_values@, index as int).len(),
            forall|q: int|
                0 <= q < positional_values(args@, flags_with_values@, index as int).len() ==> all[seen
                    + q] == #[trigger] positional_values(args@, flags_with_values@, index as int)[q],
        decreases args.len() - index,
    {
        let ghost here = positional_values(args@, flags_with_values@, index as int);
        if is_listed(flags_with_values, &args[index]) {
            assert(here == positional_values(args@, flags_with_values@, index + 2));
            if args.len() - index < 2 {
                assert(positional_values(args@, flags_with_values@, index + 2).len() == 0);
                index = args.len();
                assert(positional_values(args@, flags_with_values@, index as int).len() == 0);
                assert(here =~= positional_values(args@, flags_with_values@, index as int));
            } else {
                index += 2;
            }
        } else if starts_with_str(&chars_of(args[index].as_str()), "--") {
            index += 1;
            assert(here == positional_values(args@, flags_with_values@, index as int));
        } else {
            assert(here == seq![args@[index as int]@] + positional_values(
                args@,
                flags_with_values@,
                index + 1,
            ));
            if seen == wanted {
                assert(all[seen as int] == here[0]);
                return Some(args[index].clone());
            }
            assert forall|q: int|
                0 <= q < positional_values(args@, flags_with_values@, index + 1).len() implies all[(seen
                    + 1) + q] == #[trigger] positional_values(args@, flags_with_values@, index + 1)[q] by {
                assert(here[q + 1] == positional_values(args@, flags_with_values@, index + 1)[q]);
            }
            seen += 1;
            index += 1;
        }
    }
    None
}

/// The value following the first occurrence of `flag`, from position `k` on.
pub open spec fn flag_value_from(args: Seq<String>, flag: Seq<char>, k: int) -> Option<Seq<char>>
    decreases args.len() - k,
{
    if k < 0 || k + 1 >= args.len() {
        None
    } else if args[k]@ == flag {
        Some(args[k + 1]@)
    } else {
        flag_value_from(args, flag, k + 1)
    }
}

/// The argument that follows the first occurrence of `flag` (which must
/// not be the last argument).
pub fn flag_value(args: &[String], flag: &str) -> (r: Option<String>)
    ensures
        match r {
            Some(v) => flag_value_from(args@, flag@, 0) == Some(v@),
            None => flag_value_from(args@, flag@, 0) is None,
        },
{
    let fv = chars_of(flag);
    let mut k: usize = 0;
    while args.len() >= 2 && k < args.len() - 1
        invariant
            fv@ == flag@,
            flag_value_from(args@, flag@, k as int) == flag_value_from(args@, flag@, 0),
        decreases args.len() - k,
    {
        if vec_eq(&chars_of(args[k].as_str()), &fv) {
            return Some(args[k + 1].clone());
        }
        k += 1;
    }
    None
}

/// The trimmed value of `flag`, when present and not blank.
pub open spec fn optional_flag_spec(args: Seq<String>, flag: Seq<char>) -> Option<Seq<char>> {
    match flag_value_from(args, flag, 0) {
        Some(v) => if trim(v).len() > 0 {
            Some(trim(v))
        } else {
            None
        },
        None => None,
    }
}

/// The trimmed, non-blank value of `flag`, if given.
pub fn optional_flag(args: &[String], flag: &str) -> (r: Option<String>)
    ensures
        match r {
            Some(v) => optional_flag_spec(args@, flag@) == Some(v@),
            None => optional_flag_spec(args@, flag@) is None,
        },
{
    match flag_value(args, flag) {
        Some(v) => {
            let t = trim_vec(&chars_of(v.as_str()));
            if t.len() > 0 {
                Some(string_of(&t))
            } else {
                None
            }
        },
        None => None,
    }
}

} // verus!
