use artifact_catalog::analysis::analyze;

#[test]
fn fast_tier_small_payload() {
    let r = analyze("fast", 10_000);
    assert_eq!(r.confidence_centi, 62);
    assert_eq!(r.analysis_time, "250ms");
    assert_eq!(r.name, "Unclassified Artifact");
    assert_eq!(r.description, "An artifact of unknown origin pending human review.");
    assert_eq!(r.method, "mock-ai");
    assert_eq!(r.tier, "fast");
}

#[test]
fn thorough_tier_large_payload() {
    let r = analyze("thorough", 120_000);
    assert_eq!(r.confidence_centi, 91);
    assert_eq!(r.analysis_time, "2000ms");
}

#[test]
fn balanced_tier() {
    let r = analyze("balanced", 60_000);
    assert_eq!(r.confidence_centi, 78);
    assert_eq!(r.analysis_time, "500ms");
}

#[test]
fn unknown_tier_uses_balanced_latency_but_distinct_confidence() {
    let r = analyze("bogus", 1);
    assert_eq!(r.confidence_centi, 75);
    assert_eq!(r.analysis_time, "500ms");
    let balanced = analyze("balanced", 1);
    assert_eq!(balanced.confidence_centi, 78);
    assert_eq!(balanced.analysis_time, "500ms");
    assert_ne!(r.confidence_centi, balanced.confidence_centi);
}

#[test]
fn zero_payload_still_costs_base_time() {
    let r = analyze("fast", 0);
    assert_eq!(r.analysis_time, "250ms");
}

#[test]
fn size_factor_scales_linearly() {
    let r = analyze("fast", 250_000);
    assert_eq!(r.analysis_time, "1250ms");
}

#[test]
fn identical_inputs_identical_outputs() {
    let a = analyze("thorough", 99_999);
    let b = analyze("thorough", 99_999);
    assert_eq!(a.confidence_centi, b.confidence_centi);
    assert_eq!(a.analysis_time, b.analysis_time);
    assert_eq!(a.name, b.name);
    assert_eq!(a.tier, b.tier);
}
