//! The reveal-authority statement and its command-line checks: which signed
//! text binds a project, a review, an authority and the exact bundle and
//! reveal-key bytes.

use vstd::prelude::*;
use vstd::string::StringSliceAdditionalSpecFns;
use vstd::utf8::encode_utf8;
use crate::blind_review::principal_byte;
use crate::cli_args::{flag_count, flag_position};
use crate::digest::{sha256_hex, stable_hash};
use crate::text::{chars_of, extend_str, slice_vec, starts_with, starts_with_str, string_of, trim, trim_range, vec_eq};

verus! {

/// Namespace of reveal-authority signatures.
pub const NAMESPACE: &'static str = "literary-reveal-authority-v1@persian-literary-translation-engine";

/// First line of every reveal-authority statement.
pub const PROTOCOL: &'static str = "PLTE-REVEAL-AUTHORITY-V1";

/// How to call the reveal-authority commands.
pub fn usage() -> (r: String)
    ensures
        r@ == usage_text(),
{
    "Usage:\n  literary-engine blind-review sign-reveal-authority <bundle> <reveal-key> <signature> --project <id> --review <id> --authority <principal> --key <ssh-key>\n  literary-engine blind-review verify-reveal-authority <bundle> <reveal-key> <signature> --project <id> --review <id> --authority <principal> --allowed-signers <file> [--revocations <file>]".to_owned()
}

/// The statement an authority signs.
pub open spec fn statement_spec(
    project: Seq<char>,
    review: Seq<char>,
    authority: Seq<char>,
    bundle: Seq<u8>,
    reveal: Seq<u8>,
) -> Seq<char> {
    PROTOCOL@ + "\nproject="@ + project + "\nreview="@ + review + "\nbundle_sha256="@ + sha256_hex(
        bundle,
    ) + "\nreveal_sha256="@ + sha256_hex(reveal) + "\nauthority="@ + authority + "\n"@
}

/// The text that binds the project, review and authority to the SHA-256 of
/// the exact bundle and reveal-key bytes.
pub fn authority_statement(
    project: &str,
    review: &str,
    authority: &str,
    bundle: &[u8],
    reveal: &[u8],
) -> (r: String)
    ensures
        r@ == statement_spec(project@, review@, authority@, bundle@, reveal@),
{
    let mut v = chars_of(PROTOCOL);
    extend_str(&mut v, "\nproject=");
    extend_str(&mut v, project);
    extend_str(&mut v, "\nreview=");
    extend_str(&mut v, review);
    extend_str(&mut v, "\nbundle_sha256=");
    extend_str(&mut v, stable_hash(bundle).as_str());
    extend_str(&mut v, "\nreveal_sha256=");
    extend_str(&mut v, stable_hash(reveal).as_str());
    extend_str(&mut v, "\nauthority=");
    extend_str(&mut v, authority);
    extend_str(&mut v, "\n");
    string_of(&v)
}

/// 1 to 128 bytes of ASCII letters, digits and `. _ @ : + -`.
pub open spec fn atom_form(value: Seq<char>) -> bool {
    let b = encode_utf8(value);
    0 < b.len() <= 128 && forall|k: int| 0 <= k < b.len() ==> principal_byte(#[trigger] b[k])
}

/// Checks that a context field is a restricted ASCII atom, so that it cannot
/// inject lines or ambiguity into the signed statement.
pub fn validate_atom(value: &str, label: &str) -> (r: Result<(), String>)
    ensures
        atom_form(value@) ==> r is Ok,
        !atom_form(value@) ==> (r matches Err(m) && m@ == label@
            + " must be a restricted ASCII atom of 1..=128 bytes"@),
{
    let bytes = value.as_bytes();
    if !(bytes.len() > 0 && bytes.len() <= 128) {
        return Err(atom_error(label));
    }
    let mut i: usize = 0;
    while i < bytes.len()
        invariant
            bytes@ == encode_utf8(value@),
            0 < bytes@.len() <= 128,
            i <= bytes@.len(),
            forall|k: int| 0 <= k < i ==> principal_byte(#[trigger] bytes@[k]),
        decreases bytes@.len() - i,
    {
        let b = bytes[i];
        if !((48 <= b && b <= 57) || (65 <= b && b <= 90) || (97 <= b && b <= 122) || b == 46
            || b == 95 || b == 64 || b == 43 || b == 45 || b == 58) {
            assert(!principal_byte(bytes@[i as int]));
            return Err(atom_error(label));
        }
        i += 1;
    }
    Ok(())
}

/// The message refusing a context field.
fn atom_error(label: &str) -> (r: String)
    ensures
        r@ == label@ + " must be a restricted ASCII atom of 1..=128 bytes"@,
{
    let mut m = chars_of(label);
    extend_str(&mut m, " must be a restricted ASCII atom of 1..=128 bytes");
    string_of(&m)
}

/// What a reveal-authority flag yields: refused when repeated, when missing
/// but required, or when its value is absent, empty or another flag.
pub open spec fn reveal_flag_spec(args: Seq<String>, name: Seq<char>, required: bool) -> Result<
    Option<Seq<char>>,
    Seq<char>,
> {
    if flag_count(args, name) > 1 {
        Err("duplicate flag: "@ + name)
    } else if flag_count(args, name) == 0 {
        if required {
            Err("missing required flag: "@ + name)
        } else {
            Ok(None)
        }
    } else {
        let i = flag_position(args, name, 0);
        if i + 1 < args.len() && !starts_with(args[i + 1]@, "--"@) && args[i + 1]@.len() > 0 {
            Ok(Some(args[i + 1]@))
        } else {
            Err(name + " requires a value"@)
        }
    }
}

/// Reads a reveal-authority flag that may appear at most once.
pub fn flag(args: &[String], name: &str, required: bool) -> (r: Result<Option<String>, String>)
    ensures
        match r {
            Ok(Some(v)) => reveal_flag_spec(args@, name@, required) == Ok::<Option<Seq<char>>, Seq<char>>(Some(v@)),
            Ok(None) => reveal_flag_spec(args@, name@, required) == Ok::<Option<Seq<char>>, Seq<char>>(None),
            Err(m) => reveal_flag_spec(args@, name@, required) == Err::<Option<Seq<char>>, Seq<char>>(m@),
        },
{
    let (n, i) = crate::cli_args::flag_occurrences(args, name);
    if n > 1 {
        let mut m = chars_of("duplicate flag: ");
        extend_str(&mut m, name);
        return Err(string_of(&m));
    }
    if n == 0 {
        if required {
            let mut m = chars_of("missing required flag: ");
            extend_str(&mut m, name);
            return Err(string_of(&m));
        }
        return Ok(None);
    }
    if i < args.len() - 1 {
        let v = chars_of(args[i + 1].as_str());
        if !starts_with_str(&v, "--") && v.len() > 0 {
            return Ok(Some(args[i + 1].clone()));
        }
    }
    let mut m = chars_of(name);
    extend_str(&mut m, " requires a value");
    Err(string_of(&m))
}

/// Refuses a flag that the chosen command does not take.
pub fn reject_flag(args: &[String], name: &str) -> (r: Result<(), String>)
    ensures
        flag_count(args@, name@) == 0 ==> r is Ok,
        flag_count(args@, name@) > 0 ==> (r matches Err(m) && m@ == name@
            + " is not valid for this command"@),
{
    let (n, _) = crate::cli_args::flag_occurrences(args, name);
    if n > 0 {
        let mut m = chars_of(name);
        extend_str(&mut m, " is not valid for this command");
        Err(string_of(&m))
    } else {
        Ok(())
    }
}

/// The flags the reveal-authority commands take.
pub open spec fn reveal_option(s: Seq<char>) -> bool {
    s == "--project"@ || s == "--review"@ || s == "--authority"@ || s == "--key"@ || s
        == "--allowed-signers"@ || s == "--revocations"@
}

/// Option pair `p` is not a known flag followed by a non-empty value that is
/// not a flag.
pub open spec fn option_pair_bad(args: Seq<String>, p: int) -> bool {
    let f = args[4 + 2 * p]@;
    let v = args[5 + 2 * p]@;
    !(reveal_option(f) && !starts_with(v, "--"@) && v.len() > 0)
}

/// The options after the three paths come as pairs of a known flag and a
/// non-empty value that is not a flag.
pub open spec fn options_well_formed(args: Seq<String>) -> bool {
    &&& (args.len() - 4) % 2 == 0
    &&& forall|p: int| 0 <= p < (args.len() - 4) / 2 ==> !#[trigger] option_pair_bad(args, p)
}

/// Checks the shape of a reveal-authority command line: a command and three
/// paths, then option pairs of known flags with values.
pub fn check_reveal_options(args: &[String]) -> (r: Result<(), String>)
    ensures
        args@.len() < 4 ==> (r matches Err(m) && m@ == usage_text()),
        args@.len() >= 4 ==> (r is Ok <==> options_well_formed(args@)),
        args@.len() >= 4 && r is Err ==> (r matches Err(m) && (m@
            == "invalid reveal-authority option or value"@ || m@
            == "reveal-authority option requires a value"@)),
{
    if args.len() < 4 {
        return Err(usage());
    }
    let pairs = (args.len() - 4) / 2;
    let mut p: usize = 0;
    let mut idx: usize = 4;
    while p < pairs
        invariant
            args@.len() >= 4,
            pairs == (args@.len() - 4) / 2,
            p <= pairs,
            idx == 4 + 2 * p,
            forall|q: int| 0 <= q < p ==> !#[trigger] option_pair_bad(args@, q),
        decreases pairs - p,
    {
        assert(idx + 1 < args@.len()) by (nonlinear_arith)
            requires
                p < (args@.len() - 4) / 2,
                args@.len() >= 4,
                idx == 4 + 2 * p,
        ;
        let f = chars_of(args[idx].as_str());
        let v = chars_of(args[idx + 1].as_str());
        let known = crate::text::eq_str(&f, "--project") || crate::text::eq_str(&f, "--review")
            || crate::text::eq_str(&f, "--authority") || crate::text::eq_str(&f, "--key")
            || crate::text::eq_str(&f, "--allowed-signers") || crate::text::eq_str(
            &f,
            "--revocations",
        );
        if !known || starts_with_str(&v, "--") || v.len() == 0 {
            assert(option_pair_bad(args@, p as int));
            return Err("invalid reveal-authority option or value".to_owned());
        }
        p += 1;
        idx += 2;
    }
    if (args.len() - 4) % 2 != 0 {
        return Err("reveal-authority option requires a value".to_owned());
    }
    Ok(())
}

/// The usage text.
pub open spec fn usage_text() -> Seq<char> {
    "Usage:\n  literary-engine blind-review sign-reveal-authority <bundle> <reveal-key> <signature> --project <id> --review <id> --authority <principal> --key <ssh-key>\n  literary-engine blind-review verify-reveal-authority <bundle> <reveal-key> <signature> --project <id> --review <id> --authority <principal> --allowed-signers <file> [--revocations <file>]"@
}

/// An ssh-keygen failure message: the trimmed error text, at most 600
/// characters, or a fixed message when there is none.
pub open spec fn bounded_spec(text: Seq<char>) -> Seq<char> {
    if trim(text).len() == 0 {
        "ssh-keygen returned a non-zero exit status"@
    } else if trim(text).len() > 600 {
        trim(text).take(600)
    } else {
        trim(text)
    }
}

/// Bounds the error text of a failed ssh-keygen run.
pub fn bounded_command_error(text: &str) -> (r: String)
    ensures
        r@ == bounded_spec(text@),
{
    let v = chars_of(text);
    let (a, b) = trim_range(&v, 0, v.len());
    assert(v@.subrange(0, v@.len() as int) =~= v@);
    if a == b {
        return "ssh-keygen returned a non-zero exit status".to_owned();
    }
    let end = if b - a > 600 {
        a + 600
    } else {
        b
    };
    let out = slice_vec(&v, a, end);
    assert(b - a > 600 ==> out@ =~= v@.subrange(a as int, b as int).take(600));
    string_of(&out)
}

} // verus!
