use sondamente::spec::{
    Claim, Condition, Expectation, Generator, Hypothesis, Metric, Prediction, Preregistration,
    Sampling, Tier,
};
use sondamente::{spec_hash, validate, Number, ProbeSpec, Report, Severity};

fn num(x: f64) -> Number {
    Number { bits: x.to_bits(), text: format!("{x}") }
}

fn pred(condition: &str, metric: &str, expect: Expectation) -> Prediction {
    Prediction { condition: condition.to_string(), metric: metric.to_string(), expect }
}

fn hyp(id: &str, predictions: Vec<Prediction>) -> Hypothesis {
    Hypothesis { id: id.to_string(), description: "d".to_string(), predictions }
}

fn cond(id: &str, baseline: bool) -> Condition {
    Condition { id: id.to_string(), description: "d".to_string(), baseline }
}

fn base() -> ProbeSpec {
    ProbeSpec {
        spec_version: "0.1".to_string(),
        id: "probe".to_string(),
        title: "T".to_string(),
        claim: Claim { statement: "C".to_string(), sources: vec!["S".to_string()] },
        tier: Tier::Mechanistic,
        hypotheses: vec![
            hyp("a", vec![pred("p", "m", Expectation::Below(num(0.0)))]),
            hyp("b", vec![pred("p", "m", Expectation::Above(num(0.0)))]),
        ],
        conditions: vec![cond("base", true), cond("p", false)],
        metrics: vec![Metric { id: "m".to_string(), description: "d".to_string() }],
        generator: Generator { path: "g.py".to_string(), seed: Some(7) },
        sampling: Sampling { n_per_condition: 1 },
        languages: vec!["en".to_string()],
        preregistration: None,
    }
}

fn run(spec: &ProbeSpec) -> Report {
    validate(spec, b"content")
}

fn codes(r: &Report) -> Vec<(&'static str, Severity)> {
    r.diagnostics.iter().map(|d| (d.code.as_str(), d.severity)).collect()
}

fn messages(r: &Report) -> Vec<String> {
    r.diagnostics.iter().map(|d| d.message.clone()).collect()
}

#[test]
fn the_base_spec_is_clean() {
    assert!(run(&base()).diagnostics.is_empty());
}

#[test]
fn header_problems() {
    let mut s = base();
    s.spec_version = "0.2".to_string();
    s.title = " \t\u{3000}".to_string();
    s.claim.statement = "\n".to_string();
    s.claim.sources.clear();
    let r = run(&s);
    assert_eq!(
        codes(&r),
        [
            ("unsupported-version", Severity::Error),
            ("empty-title", Severity::Error),
            ("empty-claim", Severity::Error),
            ("claim-without-source", Severity::Warning),
        ]
    );
    assert_eq!(
        messages(&r)[0],
        "spec_version is \"0.2\", but this release understands \"0.1\""
    );
    assert!(!r.is_ok());
}

#[test]
fn identifier_problems() {
    let mut s = base();
    s.id = "Probe".to_string();
    s.metrics.push(Metric { id: "m".to_string(), description: "again".to_string() });
    s.hypotheses[1].id = "B b".to_string();
    let r = run(&s);
    let errors: Vec<&str> = r.errors().iter().map(|d| d.code.as_str()).collect();
    assert_eq!(errors, ["invalid-id", "invalid-id", "duplicate-id"]);
    assert_eq!(
        messages(&r)[0],
        "probe id `Probe` must be lowercase letters and digits, in groups separated by `-` or `_`"
    );
    assert_eq!(messages(&r)[2], "metric id `m` is declared more than once");
}

#[test]
fn baseline_problems() {
    let mut none = base();
    none.conditions[0].baseline = false;
    let r = run(&none);
    assert_eq!(r.errors().iter().map(|d| d.code.as_str()).collect::<Vec<_>>(), ["no-baseline"]);
    let mut two = base();
    two.conditions[1].baseline = true;
    two.conditions.push(cond("other", true));
    let r = run(&two);
    assert_eq!(codes(&r)[0], ("multiple-baselines", Severity::Error));
    assert_eq!(
        messages(&r)[0],
        "exactly one condition may be the baseline, found: base, p, other"
    );
}

#[test]
fn prediction_problems() {
    let mut s = base();
    s.hypotheses.push(hyp("c", vec![]));
    s.hypotheses[0].predictions.push(pred("p", "nope", Expectation::Below(num(f64::INFINITY))));
    s.hypotheses[0].predictions.push(pred("p", "m", Expectation::Within([num(0.5), num(-0.5)])));
    let r = run(&s);
    let errors: Vec<&str> = r.errors().iter().map(|d| d.code.as_str()).collect();
    assert_eq!(
        errors,
        [
            "unknown-metric",
            "non-finite-bound",
            "empty-interval",
            "duplicate-prediction",
            "hypothesis-without-predictions"
        ]
    );
    let m = messages(&r);
    assert_eq!(m[0], "hypothesis `a` predicts metric `nope`, which is not declared");
    assert_eq!(m[1], "hypothesis `a` uses a non-finite bound for `nope` under `p`");
    assert_eq!(
        m[2],
        "hypothesis `a` expects `m` under `p` within [0.5, -0.5], which contains no values"
    );
    assert_eq!(m[3], "hypothesis `a` predicts `m` under `p` more than once");
    assert_eq!(m[4], "hypothesis `c` predicts nothing, so no result can bear on it");
}

#[test]
fn a_nan_bound_is_not_finite() {
    let mut s = base();
    s.hypotheses[0].predictions[0].expect = Expectation::Within([num(f64::NAN), num(1.0)]);
    let r = run(&s);
    let errors: Vec<&str> = r.errors().iter().map(|d| d.code.as_str()).collect();
    assert_eq!(errors, ["non-finite-bound", "no-crucial-condition"]);
}

#[test]
fn no_rival_message_counts_the_hypotheses() {
    let mut s = base();
    s.hypotheses.clear();
    let r = run(&s);
    assert_eq!(
        messages(&r)[0],
        "a probe needs at least two rival hypotheses, found 0; a claim tested against no \
         alternative cannot be discriminated by any result"
    );
    s.hypotheses.push(hyp("a", vec![pred("p", "m", Expectation::Below(num(0.0)))]));
    let r = run(&s);
    assert!(messages(&r)[0].contains("found 1;"));
}

#[test]
fn the_last_of_repeated_predictions_counts_for_discrimination() {
    let mut s = base();
    // `a` first predicts an overlapping region, then one disjoint from `b`'s.
    s.hypotheses[0].predictions = vec![
        pred("p", "m", Expectation::Above(num(-1.0))),
        pred("p", "m", Expectation::Below(num(0.0))),
    ];
    let r = run(&s);
    let errors: Vec<&str> = r.errors().iter().map(|d| d.code.as_str()).collect();
    assert_eq!(errors, ["duplicate-prediction"]);

    // The other order: the overlapping prediction is the one that counts.
    s.hypotheses[0].predictions.reverse();
    let r = run(&s);
    let errors: Vec<&str> = r.errors().iter().map(|d| d.code.as_str()).collect();
    assert_eq!(errors, ["duplicate-prediction", "no-crucial-condition"]);
}

#[test]
fn ill_formed_predictions_do_not_discriminate() {
    let mut s = base();
    s.hypotheses[1].predictions[0].expect = Expectation::Within([num(1.0), num(0.5)]);
    let r = run(&s);
    let errors: Vec<&str> = r.errors().iter().map(|d| d.code.as_str()).collect();
    assert_eq!(errors, ["empty-interval", "no-crucial-condition"]);
}

#[test]
fn coverage_warnings() {
    let mut s = base();
    s.conditions.push(cond("unused", false));
    s.metrics.push(Metric { id: "spare".to_string(), description: "d".to_string() });
    let r = run(&s);
    assert_eq!(
        codes(&r),
        [("unused-condition", Severity::Warning), ("unused-metric", Severity::Warning)]
    );
    assert_eq!(
        messages(&r),
        [
            "condition `unused` is declared but no hypothesis predicts anything under it",
            "metric `spare` is declared but no hypothesis predicts it"
        ]
    );
    assert!(r.is_ok());
}

#[test]
fn the_baseline_needs_no_prediction() {
    let mut s = base();
    s.conditions[0].id = "reference".to_string();
    assert!(run(&s).diagnostics.is_empty());
}

#[test]
fn execution_problems() {
    let mut s = base();
    s.sampling.n_per_condition = 0;
    s.generator.path = "   ".to_string();
    let r = run(&s);
    assert_eq!(
        codes(&r),
        [("empty-sample", Severity::Error), ("missing-generator", Severity::Error)]
    );
}

#[test]
fn errors_come_before_warnings() {
    let mut s = base();
    s.claim.sources.clear();
    s.sampling.n_per_condition = 0;
    let r = run(&s);
    assert_eq!(
        codes(&r),
        [("empty-sample", Severity::Error), ("claim-without-source", Severity::Warning)]
    );
    assert_eq!(r.errors().len(), 1);
    assert_eq!(r.warnings().len(), 1);
}

#[test]
fn preregistration_problems() {
    let mut s = base();
    s.preregistration = Some(Preregistration {
        registered: "2026-02-30x".to_string(),
        spec_hash: "sha256:123".to_string(),
    });
    let r = run(&s);
    assert_eq!(
        codes(&r),
        [("invalid-date", Severity::Error), ("malformed-hash", Severity::Error)]
    );
    assert_eq!(
        messages(&r)[0],
        "preregistration.registered is \"2026-02-30x\", expected YYYY-MM-DD"
    );
}

#[test]
fn a_locked_spec_passes_and_its_hash_is_case_insensitive() {
    let mut s = base();
    let hash = spec_hash(b"content");
    s.preregistration = Some(Preregistration {
        registered: "2026-10-01".to_string(),
        spec_hash: hash.to_uppercase().replacen("SHA256", "sha256", 1),
    });
    assert!(run(&s).diagnostics.is_empty());

    let r = validate(&s, b"other content");
    assert_eq!(codes(&r), [("spec-changed-after-preregistration", Severity::Error)]);
    let now = spec_hash(b"other content");
    assert_eq!(
        messages(&r)[0],
        format!(
            "the spec no longer matches the hash recorded on 2026-10-01 (recorded {}, now {}); \
             revert the change, or register the new version under a new id",
            hash.to_uppercase().replacen("SHA256", "sha256", 1),
            now
        )
    );
}

#[test]
fn dropping_the_lock_keeps_everything_else() {
    let mut s = base();
    s.preregistration = Some(Preregistration {
        registered: "2026-10-01".to_string(),
        spec_hash: spec_hash(b"content"),
    });
    let unlocked = s.clone().without_preregistration();
    assert!(unlocked.preregistration.is_none());
    assert_eq!(unlocked, base());
}
