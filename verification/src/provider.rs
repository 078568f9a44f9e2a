//! The analysis provider boundary: provider errors and their retry policy, the
//! OpenAI provider's configuration, and the recovery of the model's JSON text.

use vstd::prelude::*;
use crate::text::{
    chars_of, extend_str, is_blank, join, join_strings, matches_at_exec, slice_vec, starts_with,
    string_of, trim, trim_range, trim_vec, views, ends_with,
};

verus! {

#[derive(Debug, Clone, PartialEq, Eq)]
pub enum AnalysisProviderError {
    /// The provider could not be reached (retryable).
    Unavailable(String),
    /// The request was malformed.
    InvalidRequest(String),
    /// The provider returned unparseable output (not retried).
    ParseError(String),
    /// The provider's output failed schema validation (not retried).
    SchemaViolation(String),
    /// The provider rate-limited the request (retryable).
    RateLimited,
    /// Authentication or configuration failure (not retried).
    Authentication(String),
    /// General failure.
    Failed(String),
}

/// Only transport-level failures are retried.
pub open spec fn retryable(e: AnalysisProviderError) -> bool {
    e is RateLimited || e is Unavailable
}

/// The human-readable message of a provider error.
pub open spec fn provider_error_message(e: AnalysisProviderError) -> Seq<char> {
    match e {
        AnalysisProviderError::Unavailable(m) => "analysis provider unavailable: "@ + m@,
        AnalysisProviderError::InvalidRequest(m) => "invalid analysis request: "@ + m@,
        AnalysisProviderError::ParseError(m) => "analysis provider output parse error: "@ + m@,
        AnalysisProviderError::SchemaViolation(m) => "analysis provider schema violation: "@ + m@,
        AnalysisProviderError::RateLimited => "analysis provider rate limited"@,
        AnalysisProviderError::Authentication(m) => "analysis provider auth error: "@ + m@,
        AnalysisProviderError::Failed(m) => "analysis provider failed: "@ + m@,
    }
}

impl AnalysisProviderError {
    /// Only transport-level failures (rate limiting, unavailability) are
    /// retried; schema, authentication and validation failures never are.
    pub fn is_retryable(&self) -> (r: bool)
        ensures
            r == retryable(*self),
    {
        match self {
            AnalysisProviderError::RateLimited => true,
            AnalysisProviderError::Unavailable(_) => true,
            _ => false,
        }
    }

    /// The error's message.
    pub fn message(&self) -> (r: String)
        ensures
            r@ == provider_error_message(*self),
    {
        let (prefix, detail): (&str, Option<&String>) = match self {
            AnalysisProviderError::Unavailable(m) => ("analysis provider unavailable: ", Some(m)),
            AnalysisProviderError::InvalidRequest(m) => ("invalid analysis request: ", Some(m)),
            AnalysisProviderError::ParseError(m) => (
                "analysis provider output parse error: ",
                Some(m),
            ),
            AnalysisProviderError::SchemaViolation(m) => (
                "analysis provider schema violation: ",
                Some(m),
            ),
            AnalysisProviderError::RateLimited => ("analysis provider rate limited", None),
            AnalysisProviderError::Authentication(m) => ("analysis provider auth error: ", Some(m)),
            AnalysisProviderError::Failed(m) => ("analysis provider failed: ", Some(m)),
        };
        let mut out = chars_of(prefix);
        match detail {
            Some(m) => extend_str(&mut out, m.as_str()),
            None => {},
        }
        string_of(&out)
    }
}

/// The error for an unsuccessful HTTP status: an authentication failure for
/// 401 and 403, rate limiting for 429, a plain failure otherwise; the detail
/// is the provider's message.
pub fn status_error(status: u16, detail: String) -> (r: AnalysisProviderError)
    ensures
        r == (if status == 401 || status == 403 {
            AnalysisProviderError::Authentication(detail)
        } else if status == 429 {
            AnalysisProviderError::RateLimited
        } else {
            AnalysisProviderError::Failed(detail)
        }),
{
    if status == 401 || status == 403 {
        AnalysisProviderError::Authentication(detail)
    } else if status == 429 {
        AnalysisProviderError::RateLimited
    } else {
        AnalysisProviderError::Failed(detail)
    }
}

/// The endpoint the OpenAI provider calls unless told otherwise.
pub const OPENAI_RESPONSES_URL: &'static str = "https://api.openai.com/v1/responses";

/// Seconds the OpenAI provider waits for one response.
pub const OPENAI_TIMEOUT_SECS: u64 = 180;

/// Configuration of the OpenAI Responses API provider. The key and model are
/// never blank.
#[derive(Clone)]
pub struct OpenAIAnalysisProvider {
    api_key: String,
    model: String,
    base_url: String,
    timeout_secs: u64,
}

impl OpenAIAnalysisProvider {
    pub closed spec fn api_key_spec(&self) -> Seq<char> {
        self.api_key@
    }

    pub closed spec fn model_spec(&self) -> Seq<char> {
        self.model@
    }

    pub closed spec fn base_url_spec(&self) -> Seq<char> {
        self.base_url@
    }

    pub closed spec fn timeout_spec(&self) -> u64 {
        self.timeout_secs
    }

    /// A provider for the given key and model, calling the public endpoint
    /// with a 180 second timeout. A blank key or model is refused.
    pub fn new(api_key: String, model: String) -> (r: Result<
        OpenAIAnalysisProvider,
        AnalysisProviderError,
    >)
        ensures
            is_blank(api_key@) ==> (r matches Err(AnalysisProviderError::InvalidRequest(m)) && m@
                == "OpenAI API key is empty"@),
            !is_blank(api_key@) && is_blank(model@) ==> (r matches Err(
                AnalysisProviderError::InvalidRequest(m),
            ) && m@ == "OpenAI model name is empty"@),
            !is_blank(api_key@) && !is_blank(model@) ==> (r matches Ok(p) && p.api_key_spec()
                == api_key@ && p.model_spec() == model@ && p.base_url_spec()
                == OPENAI_RESPONSES_URL@ && p.timeout_spec() == OPENAI_TIMEOUT_SECS),
    {
        if trim_vec(&chars_of(api_key.as_str())).len() == 0 {
            return Err(AnalysisProviderError::InvalidRequest("OpenAI API key is empty".to_owned()));
        }
        if trim_vec(&chars_of(model.as_str())).len() == 0 {
            return Err(
                AnalysisProviderError::InvalidRequest("OpenAI model name is empty".to_owned()),
            );
        }
        Ok(
            OpenAIAnalysisProvider {
                api_key,
                model,
                base_url: OPENAI_RESPONSES_URL.to_owned(),
                timeout_secs: OPENAI_TIMEOUT_SECS,
            },
        )
    }

    /// The same provider, calling another endpoint.
    pub fn with_base_url(self, base_url: String) -> (r: OpenAIAnalysisProvider)
        ensures
            r.base_url_spec() == base_url@,
            r.api_key_spec() == self.api_key_spec(),
            r.model_spec() == self.model_spec(),
            r.timeout_spec() == self.timeout_spec(),
    {
        OpenAIAnalysisProvider { base_url, ..self }
    }

    /// The provider's name.
    pub fn name(&self) -> (r: &'static str)
        ensures
            r@ == "openai"@,
    {
        "openai"
    }

    pub fn model(&self) -> (r: &str)
        ensures
            r@ == self.model_spec(),
    {
        self.model.as_str()
    }

    pub fn api_key(&self) -> (r: &str)
        ensures
            r@ == self.api_key_spec(),
    {
        self.api_key.as_str()
    }

    pub fn base_url(&self) -> (r: &str)
        ensures
            r@ == self.base_url_spec(),
    {
        self.base_url.as_str()
    }

    pub fn timeout_secs(&self) -> (r: u64)
        ensures
            r == self.timeout_spec(),
    {
        self.timeout_secs
    }
}

/// `s` without every leading repetition of `p` (`str::trim_start_matches`).
pub open spec fn strip_prefix_runs(s: Seq<char>, p: Seq<char>) -> Seq<char>
    decreases s.len(),
{
    if p.len() > 0 && starts_with(s, p) {
        strip_prefix_runs(s.skip(p.len() as int), p)
    } else {
        s
    }
}

/// `s` without every trailing repetition of `p` (`str::trim_end_matches`).
pub open spec fn strip_suffix_runs(s: Seq<char>, p: Seq<char>) -> Seq<char>
    decreases s.len(),
{
    if p.len() > 0 && ends_with(s, p) {
        strip_suffix_runs(s.take(s.len() - p.len()), p)
    } else {
        s
    }
}

/// The model's JSON text: the output text parts joined by newlines, trimmed,
/// with a Markdown code fence removed.
pub open spec fn response_json_text(parts: Seq<Seq<char>>) -> Seq<char> {
    trim(strip_suffix_runs(strip_prefix_runs(trim(join(parts, "\n"@)), "```json"@), "```"@))
}

/// Recovers the JSON text from the model's output text parts; a response with
/// no output text violates the schema.
pub fn response_text(parts: &Vec<String>) -> (r: Result<String, AnalysisProviderError>)
    ensures
        parts@.len() == 0 ==> (r matches Err(AnalysisProviderError::SchemaViolation(m)) && m@
            == "provider response contained no output text"@),
        parts@.len() > 0 ==> (r matches Ok(t) && t@ == response_json_text(views(parts@))),
{
    if parts.len() == 0 {
        return Err(
            AnalysisProviderError::SchemaViolation(
                "provider response contained no output text".to_owned(),
            ),
        );
    }
    let joined = join_strings(parts, "\n");
    let t = trim_vec(&joined);
    let fence = chars_of("```json");
    let close = chars_of("```");
    proof {
        reveal_strlit("```json");
        reveal_strlit("```");
    }
    let mut a: usize = 0;
    assert(t@.skip(0) =~= t@);
    while matches_at_exec(&t, a, &fence)
        invariant
            a <= t.len(),
            fence@ == "```json"@,
            fence@.len() == 7,
            strip_prefix_runs(t@.skip(a as int), fence@) == strip_prefix_runs(t@, fence@),
        decreases t.len() - a,
    {
        assert(t@.skip(a as int).skip(7) =~= t@.skip(a + 7));
        assert(t@.skip(a as int).subrange(0, 7) =~= t@.subrange(a as int, a + 7));
        a = a + 7;
    }
    assert(!starts_with(t@.skip(a as int), fence@)) by {
        if starts_with(t@.skip(a as int), fence@) {
            assert(t@.skip(a as int).subrange(0, 7) =~= t@.subrange(a as int, a + 7));
        }
    }
    let mut b: usize = t.len();
    assert(t@.subrange(a as int, t@.len() as int) =~= t@.skip(a as int));
    while b - a >= 3 && matches_at_exec(&t, b - 3, &close)
        invariant
            a <= b <= t.len(),
            close@ == "```"@,
            close@.len() == 3,
            strip_suffix_runs(t@.subrange(a as int, b as int), close@) == strip_suffix_runs(
                t@.skip(a as int),
                close@,
            ),
        decreases b,
    {
        assert(t@.subrange(a as int, b as int).take(b - a - 3) =~= t@.subrange(
            a as int,
            b - 3,
        ));
        assert(t@.subrange(a as int, b as int).subrange(b - a - 3, b - a as int) =~= t@.subrange(
            b - 3,
            b as int,
        ));
        b = b - 3;
    }
    assert(!ends_with(t@.subrange(a as int, b as int), close@)) by {
        if ends_with(t@.subrange(a as int, b as int), close@) {
            assert(t@.subrange(a as int, b as int).subrange(b - a - 3, b - a as int) =~= t@.subrange(
                b - 3,
                b as int,
            ));
        }
    }
    let (x, y) = trim_range(&t, a, b);
    let out = slice_vec(&t, x, y);
    Ok(string_of(&out))
}

} // verus!
