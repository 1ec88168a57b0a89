//! The analysis simulator: a pure map from a quality tier and a payload
//! size to a synthetic classification result. It is an explicit mock —
//! the method tag says so — with deterministic latency and confidence
//! per tier.
//!
//! Confidence is carried in hundredths (`62` stands for 0.62), since the
//! fixed per-tier values are exact two-digit fractions.

use vstd::prelude::*;
use vstd::arithmetic::div_mod::lemma_div_is_ordered;
use vstd::arithmetic::mul::lemma_mul_upper_bound;
use vstd::string::StringExecFns;

use crate::decimal::dec_rep;
use crate::text::str_eq;

verus! {

/// A duration rendered as `<ms>ms`.
pub open spec fn duration_rep(ms: nat) -> Seq<char> {
    dec_rep(ms) + seq!['m', 's']
}

/// The latency multiplier of a tier; an unknown tier costs the same as
/// `balanced`.
pub open spec fn tier_multiplier(tier: Seq<char>) -> nat {
    if tier == "fast"@ {
        1
    } else if tier == "balanced"@ {
        2
    } else if tier == "thorough"@ {
        4
    } else {
        2
    }
}

/// The fixed confidence of a tier, in hundredths. An unknown tier falls
/// back to 75 — deliberately not the 78 of `balanced`, although it
/// shares that tier's latency multiplier.
pub open spec fn tier_confidence_centi(tier: Seq<char>) -> nat {
    if tier == "fast"@ {
        62
    } else if tier == "balanced"@ {
        78
    } else if tier == "thorough"@ {
        91
    } else {
        75
    }
}

/// The payload's contribution to latency: one unit per 50 000 bytes,
/// never less than one.
pub open spec fn size_factor(payload_bytes: nat) -> nat {
    if payload_bytes / 50000 < 1 {
        1
    } else {
        payload_bytes / 50000
    }
}

/// The simulated latency in milliseconds: a base unit cost of 250,
/// scaled by the tier's multiplier and the payload's size factor.
pub open spec fn elapsed_ms(tier: Seq<char>, payload_bytes: nat) -> nat {
    250 * tier_multiplier(tier) * size_factor(payload_bytes)
}

/// A synthetic classification result. The classification itself is a
/// fixed placeholder; only confidence and latency vary, and only with
/// the requested tier and the payload size.
pub struct AnalysisResult {
    pub name: String,
    pub description: String,
    /// Confidence in hundredths: 62 stands for 0.62.
    pub confidence_centi: u32,
    pub method: String,
    pub tier: String,
    pub analysis_time: String,
}

/// Law: an unknown tier is priced like `balanced` but scored with the
/// distinct fallback confidence of 75 hundredths, not the 78 of
/// `balanced`; the two fallbacks deliberately diverge.
pub proof fn lemma_unknown_tier_fallback(tier: Seq<char>)
    requires
        tier != "fast"@,
        tier != "balanced"@,
        tier != "thorough"@,
    ensures
        tier_multiplier(tier) == tier_multiplier("balanced"@),
        tier_confidence_centi(tier) == 75,
        tier_confidence_centi(tier) != tier_confidence_centi("balanced"@),
{
    reveal_strlit("fast");
    reveal_strlit("balanced");
    reveal_strlit("thorough");
    assert("balanced"@.len() == 8);
    assert("fast"@.len() == 4);
    assert("thorough"@.len() == 8);
    assert("balanced"@[0] == 'b' && "thorough"@[0] == 't');
}

/// Run the mock analysis for a requested tier and a payload of
/// `payload_bytes` bytes.
pub fn analyze(tier: &str, payload_bytes: usize) -> (r: AnalysisResult)
    ensures
        r.name@ == "Unclassified Artifact"@,
        r.description@ == "An artifact of unknown origin pending human review."@,
        r.method@ == "mock-ai"@,
        r.tier@ == tier@,
        r.confidence_centi as nat == tier_confidence_centi(tier@),
        r.analysis_time@ == duration_rep(elapsed_ms(tier@, payload_bytes as nat)),
{
    let multiplier: u64 = if str_eq(tier, "fast") {
        1
    } else if str_eq(tier, "balanced") {
        2
    } else if str_eq(tier, "thorough") {
        4
    } else {
        2
    };
    let confidence_centi: u32 = if str_eq(tier, "fast") {
        62
    } else if str_eq(tier, "balanced") {
        78
    } else if str_eq(tier, "thorough") {
        91
    } else {
        75
    };
    let quotient: u64 = payload_bytes as u64 / 50000;
    let factor: u64 = if quotient == 0 {
        1
    } else {
        quotient
    };
    proof {
        // factor is at most u64::MAX / 50000, so the product below stays
        // within u64.
        lemma_div_is_ordered(payload_bytes as u64 as int, u64::MAX as int, 50000);
        assert(factor <= 368934881474191);
        assert(multiplier <= 4);
        lemma_mul_upper_bound(250 * multiplier as int, 1000, factor as int, 368934881474191);
        assert(multiplier as nat == tier_multiplier(tier@));
        assert(factor as nat == size_factor(payload_bytes as nat));
    }
    let elapsed: u64 = 250 * multiplier * factor;
    let mut time = crate::decimal::u64_to_decimal(elapsed);
    time.append("ms");
    proof {
        reveal_strlit("ms");
        assert(time@ =~= duration_rep(elapsed_ms(tier@, payload_bytes as nat)));
    }
    AnalysisResult {
        name: String::from_str("Unclassified Artifact"),
        description: String::from_str("An artifact of unknown origin pending human review."),
        confidence_centi,
        method: String::from_str("mock-ai"),
        tier: String::from_str(tier),
        analysis_time: time,
    }
}

} // verus!
