//! Configuration of an advanced analysis run and its identity.

use vstd::prelude::*;
use vstd::string::StringSliceAdditionalSpecFns;
use vstd::utf8::encode_utf8;
use crate::analysis::{category_label, FindingCategory};
use crate::digest::{sha256_hex, stable_hash};
use crate::fmt::{dec_digits, dec_vec};
use crate::planner::{planner_identity, PlannerConfig};
use crate::text::{chars_of, extend_all, extend_str, join, join_exec, lemma_char_vec_deep, string_of};

verus! {

/// Settings of an advanced analysis run.
#[derive(Debug, Clone)]
pub struct AdvancedAnalysisConfig {
    pub planner: PlannerConfig,
    /// The categories asked for; none means every category.
    pub categories: Vec<FindingCategory>,
    /// Retries of a retryable provider failure.
    pub max_retries: usize,
    /// Milliseconds between retries.
    pub retry_delay_ms: u64,
    /// Cache file of a resumable run.
    pub cache: Option<String>,
}

impl Default for AdvancedAnalysisConfig {
    fn default() -> (r: AdvancedAnalysisConfig)
        ensures
            r.planner == (PlannerConfig {
                max_unit_characters: 10_000,
                max_context_characters: 800,
                max_units: 2_000,
                max_canon_names_per_unit: 24,
                max_glossary_terms_per_unit: 12,
            }),
            r.categories@.len() == 0,
            r.max_retries == 2,
            r.retry_delay_ms == 250,
            r.cache is None,
    {
        AdvancedAnalysisConfig {
            planner: PlannerConfig::default(),
            categories: Vec::new(),
            max_retries: 2,
            retry_delay_ms: 250,
            cache: None,
        }
    }
}

/// The categories of a configuration: `all`, or their labels joined by commas.
pub open spec fn category_key(categories: Seq<FindingCategory>) -> Seq<char> {
    if categories.len() == 0 {
        "all"@
    } else {
        join(categories.map_values(|c: FindingCategory| category_label(c)), ","@)
    }
}

/// The text hashed into a configuration fingerprint.
pub open spec fn config_identity(c: AdvancedAnalysisConfig) -> Seq<char> {
    "config\0"@ + sha256_hex(encode_utf8(planner_identity(c.planner))) + "\0"@ + category_key(
        c.categories@,
    ) + "\0retries="@ + dec_digits(c.max_retries as nat)
}

impl AdvancedAnalysisConfig {
    /// The SHA-256 of what shapes the results: planner limits, categories
    /// and retries (not the delay or the cache location).
    pub fn fingerprint(&self) -> (r: String)
        ensures
            r@ == sha256_hex(encode_utf8(config_identity(*self))),
            crate::blind_review::sha256_hex_form(r@),
    {
        let mut v = chars_of("config\0");
        extend_str(&mut v, self.planner.fingerprint().as_str());
        extend_str(&mut v, "\0");
        if self.categories.len() == 0 {
            extend_str(&mut v, "all");
        } else {
            let ghost cs = self.categories@;
            let mut parts: Vec<Vec<char>> = Vec::new();
            let mut i: usize = 0;
            while i < self.categories.len()
                invariant
                    i <= self.categories.len(),
                    cs == self.categories@,
                    parts.deep_view() == cs.take(i as int).map_values(|c: FindingCategory| category_label(c)),
                decreases self.categories.len() - i,
            {
                let l = chars_of(self.categories[i].label_str());
                let ghost before = parts.deep_view();
                proof {
                    lemma_char_vec_deep(&l);
                }
                parts.push(l);
                assert(parts.deep_view() =~= before.push(category_label(cs[i as int])));
                assert(cs.take(i + 1).map_values(|c: FindingCategory| category_label(c)) =~= cs.take(i as int).map_values(|c: FindingCategory| category_label(c)).push(category_label(cs[i as int])));
                i += 1;
            }
            assert(cs.take(cs.len() as int) =~= cs);
            let comma = chars_of(",");
            extend_all(&mut v, &join_exec(&parts, &comma));
        }
        extend_str(&mut v, "\0retries=");
        extend_all(&mut v, &dec_vec(self.max_retries));
        let identity = string_of(&v);
        stable_hash(identity.as_str().as_bytes())
    }
}

} // verus!
