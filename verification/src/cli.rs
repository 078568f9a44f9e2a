//! Decisions of the translation command line: output format, provider choice,
//! output file names and manifest values.

use vstd::prelude::*;
use crate::analysis::{strip_leading, strip_trailing};
use crate::fmt::{dec_digits, dec_padded, dec_padded_vec, dec_vec};
use crate::norm::{is_alphanumeric, unicode_alphanumeric};
use crate::text::{ascii_lower_seq, ascii_lower_vec, chars_of, eq_str, extend_all, extend_str, slice_vec, string_of, trim, trim_vec};

verus! {

#[derive(Debug, Clone, Copy, PartialEq, Eq, Structural)]
pub enum OutputFormat {
    Text,
    Json,
}

/// The format an argument names, ignoring ASCII case.
pub open spec fn format_named(v: Seq<char>) -> Option<OutputFormat> {
    if v == "text"@ || v == "txt"@ {
        Some(OutputFormat::Text)
    } else if v == "json"@ {
        Some(OutputFormat::Json)
    } else {
        None
    }
}

impl OutputFormat {
    /// Reads `text` (or `txt`) or `json`, in any ASCII case.
    pub fn from_arg(value: &str) -> (r: Result<OutputFormat, String>)
        ensures
            match r {
                Ok(f) => format_named(ascii_lower_seq(value@)) == Some(f),
                Err(m) => format_named(ascii_lower_seq(value@)) is None && m@
                    == "unsupported output format '"@ + value@ + "'; expected text or json"@,
            },
    {
        let v = ascii_lower_vec(&chars_of(value));
        if eq_str(&v, "text") || eq_str(&v, "txt") {
            Ok(OutputFormat::Text)
        } else if eq_str(&v, "json") {
            Ok(OutputFormat::Json)
        } else {
            let mut m = chars_of("unsupported output format '");
            extend_str(&mut m, value);
            extend_str(&mut m, "'; expected text or json");
            Err(string_of(&m))
        }
    }
}

/// A character kept in a file stem: letters, digits, `-` and `_`; anything
/// else becomes `_`.
pub open spec fn stem_char(c: char) -> char {
    if unicode_alphanumeric(c) || c == '-' || c == '_' {
        c
    } else {
        '_'
    }
}

/// The output file stem of chapter `index`: its zero-padded one-based number,
/// a dash, and the title made file-safe (or `chapter-N` when nothing is left).
pub open spec fn file_stem(title: Seq<char>, index: nat) -> Seq<char> {
    let stem = strip_trailing(strip_leading(title.map_values(|c: char| stem_char(c)), '_'), '_');
    dec_padded(index + 1, 3) + "-"@ + (if stem.len() == 0 {
        "chapter-"@ + dec_digits(index + 1)
    } else {
        stem
    })
}

/// A deterministic, file-system safe stem for a chapter's output files.
pub fn safe_file_stem(title: &str, index: usize) -> (r: String)
    requires
        index < usize::MAX,
    ensures
        r@ == file_stem(title@, index as nat),
{
    let t = chars_of(title);
    let mut mapped: Vec<char> = Vec::new();
    let mut i: usize = 0;
    while i < t.len()
        invariant
            i <= t.len(),
            t@ == title@,
            mapped@ == t@.take(i as int).map_values(|c: char| stem_char(c)),
        decreases t.len() - i,
    {
        let c = t[i];
        let k = if is_alphanumeric(c) || c == '-' || c == '_' {
            c
        } else {
            '_'
        };
        mapped.push(k);
        assert(mapped@ =~= t@.take(i + 1).map_values(|c: char| stem_char(c)));
        i += 1;
    }
    assert(t@.take(t@.len() as int) =~= t@);
    let mut a: usize = 0;
    assert(mapped@.subrange(0, mapped@.len() as int) =~= mapped@);
    while a < mapped.len() && mapped[a] == '_'
        invariant
            a <= mapped.len(),
            strip_leading(mapped@.subrange(a as int, mapped@.len() as int), '_') == strip_leading(
                mapped@,
                '_',
            ),
        decreases mapped.len() - a,
    {
        assert(mapped@.subrange(a as int, mapped@.len() as int).drop_first() =~= mapped@.subrange(
            a + 1,
            mapped@.len() as int,
        ));
        a += 1;
    }
    let mut b: usize = mapped.len();
    while b > a && mapped[b - 1] == '_'
        invariant
            a <= b <= mapped.len(),
            strip_trailing(mapped@.subrange(a as int, b as int), '_') == strip_trailing(
                mapped@.subrange(a as int, mapped@.len() as int),
                '_',
            ),
        decreases b - a,
    {
        assert(mapped@.subrange(a as int, b as int).drop_last() =~= mapped@.subrange(
            a as int,
            b - 1,
        ));
        b -= 1;
    }
    let stem = slice_vec(&mapped, a, b);
    let mut out = dec_padded_vec(index + 1, 3);
    extend_str(&mut out, "-");
    if stem.len() == 0 {
        extend_str(&mut out, "chapter-");
        extend_all(&mut out, &dec_vec(index + 1));
    } else {
        extend_all(&mut out, &stem);
    }
    string_of(&out)
}

/// The provider an explicit choice names (trimmed, ASCII case ignored), or
/// the automatic choice: OpenAI when its key is available, else echo.
pub open spec fn provider_choice(explicit: Option<Seq<char>>, has_openai_key: bool) -> Result<
    Seq<char>,
    Seq<char>,
> {
    match explicit {
        Some(v) if trim(v).len() > 0 => if ascii_lower_seq(trim(v)) == "echo"@ {
            Ok("echo"@)
        } else if ascii_lower_seq(trim(v)) == "openai"@ {
            Ok("openai"@)
        } else {
            Err("unsupported provider '"@ + trim(v) + "'; expected openai or echo"@)
        },
        _ => if has_openai_key {
            Ok("openai"@)
        } else {
            Ok("echo"@)
        },
    }
}

/// Chooses the translation provider.
pub fn selected_provider_name(explicit_provider: Option<&str>, has_openai_key: bool) -> (r: Result<
    &'static str,
    String,
>)
    ensures
        ({
            let e = match explicit_provider {
                Some(v) => Some(v@),
                None => None,
            };
            match r {
                Ok(p) => provider_choice(e, has_openai_key) == Ok::<Seq<char>, Seq<char>>(p@),
                Err(m) => provider_choice(e, has_openai_key) == Err::<Seq<char>, Seq<char>>(m@),
            }
        }),
{
    match explicit_provider {
        Some(v) => {
            let t = trim_vec(&chars_of(v));
            if t.len() > 0 {
                let l = ascii_lower_vec(&t);
                if eq_str(&l, "echo") {
                    return Ok("echo");
                } else if eq_str(&l, "openai") {
                    return Ok("openai");
                } else {
                    let mut m = chars_of("unsupported provider '");
                    extend_all(&mut m, &t);
                    extend_str(&mut m, "'; expected openai or echo");
                    return Err(string_of(&m));
                }
            }
        },
        None => {},
    }
    if has_openai_key {
        Ok("openai")
    } else {
        Ok("echo")
    }
}

/// Line breaks become spaces.
pub open spec fn manifest_text(value: Seq<char>) -> Seq<char> {
    value.map_values(|c: char| if c == '\r' || c == '\n' {
        ' '
    } else {
        c
    })
}

/// A value written on one manifest line: carriage returns and line feeds
/// become spaces.
pub fn manifest_value(value: &str) -> (r: String)
    ensures
        r@ == manifest_text(value@),
{
    let v = chars_of(value);
    let mut out: Vec<char> = Vec::new();
    let mut i: usize = 0;
    while i < v.len()
        invariant
            i <= v.len(),
            v@ == value@,
            out@ == manifest_text(v@.take(i as int)),
        decreases v.len() - i,
    {
        let c = v[i];
        out.push(if c == '\r' || c == '\n' {
            ' '
        } else {
            c
        });
        assert(out@ =~= manifest_text(v@.take(i + 1)));
        i += 1;
    }
    assert(v@.take(v@.len() as int) =~= v@);
    string_of(&out)
}

/// The instruction heading every qualification case.
pub const QUALIFICATION_NOTICE: &'static str = "RIGHTS-SAFE PROVIDER QUALIFICATION CASE. Translate only the PASSAGE supplied by the pipeline. Context is evidence for voice, register, subtext, terminology, and continuity; do not translate the context itself.";

/// A labelled context section, present when the context is given and not
/// blank.
pub open spec fn context_part(label: Seq<char>, value: Option<Seq<char>>) -> Seq<Seq<char>> {
    match value {
        Some(v) => if crate::text::is_blank(v) {
            seq![]
        } else {
            seq![label + v]
        },
        None => seq![],
    }
}

/// The qualification context: the notice, then the neighbouring passages,
/// each labelled and separate from the passage to translate.
pub open spec fn qualification_text(before: Option<Seq<char>>, after: Option<Seq<char>>) -> Seq<char> {
    crate::text::join(
        seq![QUALIFICATION_NOTICE@] + context_part("CONTEXT BEFORE\n"@, before) + context_part(
            "CONTEXT AFTER\n"@,
            after,
        ),
        "\n\n"@,
    )
}

/// The view of an optional text.
pub open spec fn opt_view(o: Option<&str>) -> Option<Seq<char>> {
    match o {
        Some(v) => Some(v@),
        None => None,
    }
}

/// Appends a labelled context section when the context is not blank.
fn push_context(parts: &mut Vec<Vec<char>>, label: &str, value: Option<&str>)
    ensures
        final(parts).deep_view() == old(parts).deep_view() + context_part(label@, opt_view(value)),
{
    match value {
        Some(v) => {
            let cv = chars_of(v);
            if trim_vec(&cv).len() == 0 {
                assert(old(parts).deep_view() + context_part(label@, opt_view(value))
                    =~= old(parts).deep_view());
            } else {
                let mut line = chars_of(label);
                extend_all(&mut line, &cv);
                let ghost before = parts.deep_view();
                proof {
                    crate::text::lemma_char_vec_deep(&line);
                }
                parts.push(line);
                assert(parts.deep_view() =~= before + context_part(label@, opt_view(value)));
            }
        },
        None => {
            assert(old(parts).deep_view() + context_part(label@, opt_view(value))
                =~= old(parts).deep_view());
        },
    }
}

/// The translation context of a qualification case, keeping the neighbouring
/// passages apart from the passage itself.
pub fn qualification_context(before: Option<&str>, after: Option<&str>) -> (r: String)
    ensures
        r@ == qualification_text(opt_view(before), opt_view(after)),
{
    let mut parts: Vec<Vec<char>> = Vec::new();
    let n = chars_of(QUALIFICATION_NOTICE);
    proof {
        crate::text::lemma_char_vec_deep(&n);
    }
    parts.push(n);
    assert(parts.deep_view() =~= seq![QUALIFICATION_NOTICE@]);
    push_context(&mut parts, "CONTEXT BEFORE\n", before);
    push_context(&mut parts, "CONTEXT AFTER\n", after);
    let sep = chars_of("\n\n");
    let out = crate::text::join_exec(&parts, &sep);
    string_of(&out)
}

/// `phase31:<provider>:<model or deterministic>:default-literary-v1`.
pub open spec fn system_id_spec(provider: Seq<char>, model: Option<Seq<char>>) -> Seq<char> {
    "phase31:"@ + provider + ":"@ + (match model {
        Some(m) => m,
        None => "deterministic"@,
    }) + ":default-literary-v1"@
}

/// The system id under which a provider's qualification output is filed.
pub fn qualification_system_id(provider: &str, model: Option<&str>) -> (r: String)
    ensures
        r@ == system_id_spec(provider@, opt_view(model)),
{
    let mut v = chars_of("phase31:");
    extend_str(&mut v, provider);
    extend_str(&mut v, ":");
    match model {
        Some(m) => extend_str(&mut v, m),
        None => extend_str(&mut v, "deterministic"),
    }
    extend_str(&mut v, ":default-literary-v1");
    string_of(&v)
}

} // verus!
