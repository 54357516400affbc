use sondamente::spec::{
    Claim, Condition, Expectation, Generator, Hypothesis, Metric, Prediction, Preregistration,
    Sampling, Tier,
};
use sondamente::{spec_hash, validate, Number, ProbeSpec, Report};

fn num(x: f64) -> Number {
    Number { bits: x.to_bits(), text: format!("{x}") }
}

fn below(x: f64) -> Expectation {
    Expectation::Below(num(x))
}

fn above(x: f64) -> Expectation {
    Expectation::Above(num(x))
}

fn within(lo: f64, hi: f64) -> Expectation {
    Expectation::Within([num(lo), num(hi)])
}

fn pred(condition: &str, metric: &str, expect: Expectation) -> Prediction {
    Prediction { condition: condition.to_string(), metric: metric.to_string(), expect }
}

fn hyp(id: &str, description: &str, predictions: Vec<Prediction>) -> Hypothesis {
    Hypothesis { id: id.to_string(), description: description.to_string(), predictions }
}

/// The minimal valid spec of the YAML template, with the given hypotheses.
fn spec_with(hypotheses: Vec<Hypothesis>) -> ProbeSpec {
    ProbeSpec {
        spec_version: "0.1".to_string(),
        id: "test-probe".to_string(),
        title: "Test probe".to_string(),
        claim: Claim {
            statement: "A claim.".to_string(),
            sources: vec!["Someone (2000).".to_string()],
        },
        tier: Tier::Behavioral,
        hypotheses,
        conditions: vec![
            Condition {
                id: "baseline".to_string(),
                description: "unmodified".to_string(),
                baseline: true,
            },
            Condition {
                id: "perturbed".to_string(),
                description: "modified".to_string(),
                baseline: false,
            },
        ],
        metrics: vec![Metric {
            id: "delta".to_string(),
            description: "change against baseline".to_string(),
        }],
        generator: Generator { path: "generators/example.py".to_string(), seed: None },
        sampling: Sampling { n_per_condition: 100 },
        languages: vec![],
        preregistration: None,
    }
}

fn rivals() -> Vec<Hypothesis> {
    vec![
        hyp(
            "invariant",
            "unaffected by the perturbation",
            vec![pred("perturbed", "delta", within(-0.05, 0.05))],
        ),
        hyp(
            "fragile",
            "degraded by the perturbation",
            vec![pred("perturbed", "delta", below(-0.1))],
        ),
    ]
}

fn report(spec: &ProbeSpec) -> Report {
    validate(spec, &[])
}

fn error_codes(spec: &ProbeSpec) -> Vec<&'static str> {
    report(spec).errors().iter().map(|d| d.code.as_str()).collect()
}

fn warning_codes(spec: &ProbeSpec) -> Vec<&'static str> {
    report(spec).warnings().iter().map(|d| d.code.as_str()).collect()
}

/// The canonical content of a YAML text: its value, without the
/// `preregistration` block, as JSON with sorted keys.
fn canonical(yaml: &str) -> Vec<u8> {
    let mut value: serde_yaml::Value = serde_yaml::from_str(yaml).unwrap();
    if let serde_yaml::Value::Mapping(map) = &mut value {
        map.remove("preregistration");
    }
    let json = serde_json::to_value(&value).unwrap();
    serde_json::to_string(&json).unwrap().into_bytes()
}

const TEMPLATE: &str = r#"
spec_version: "0.1"
id: test-probe
title: Test probe
claim:
  statement: A claim.
  sources: ["Someone (2000)."]
tier: behavioral
hypotheses:
  - id: invariant
    description: unaffected by the perturbation
    predictions:
      - { condition: perturbed, metric: delta, expect: { within: [-0.05, 0.05] } }
  - id: fragile
    description: degraded by the perturbation
    predictions:
      - { condition: perturbed, metric: delta, expect: { below: -0.1 } }
conditions:
  - { id: baseline, description: unmodified, baseline: true }
  - { id: perturbed, description: modified }
metrics:
  - { id: delta, description: change against baseline }
generator: { path: generators/example.py }
sampling: { n_per_condition: 100 }
"#;

#[test]
fn rival_hypotheses_with_a_crucial_condition_pass() {
    let r = report(&spec_with(rivals()));
    assert!(r.diagnostics.is_empty(), "{:#?}", r.diagnostics);
    assert!(r.is_ok());
}

#[test]
fn a_single_hypothesis_is_rejected() {
    let single = vec![hyp(
        "invariant",
        "unaffected by the perturbation",
        vec![pred("perturbed", "delta", within(-0.05, 0.05))],
    )];
    assert_eq!(error_codes(&spec_with(single)), ["no-rival-hypotheses"]);
}

#[test]
fn overlapping_predictions_have_no_crucial_condition() {
    let overlapping = vec![
        hyp("invariant", "unaffected", vec![pred("perturbed", "delta", within(-0.05, 0.05))]),
        hyp("slightly_worse", "somewhat degraded", vec![pred("perturbed", "delta", below(0.0))]),
    ];
    assert_eq!(error_codes(&spec_with(overlapping)), ["no-crucial-condition"]);
}

#[test]
fn closed_intervals_touching_at_a_point_are_not_crucial() {
    let touching = vec![
        hyp("a", "nonpositive change", vec![pred("perturbed", "delta", within(-0.1, 0.0))]),
        hyp("b", "nonnegative change", vec![pred("perturbed", "delta", within(0.0, 0.1))]),
    ];
    assert_eq!(error_codes(&spec_with(touching)), ["no-crucial-condition"]);
}

#[test]
fn predictions_on_different_conditions_do_not_discriminate() {
    let disjoint_but_unshared = vec![
        hyp(
            "a",
            "predicts only under the perturbation",
            vec![pred("perturbed", "delta", below(-0.1))],
        ),
        hyp("b", "predicts only at baseline", vec![pred("baseline", "delta", above(0.1))]),
    ];
    assert_eq!(error_codes(&spec_with(disjoint_but_unshared)), ["no-crucial-condition"]);
}

#[test]
fn a_redundant_third_hypothesis_is_a_warning() {
    let mut three = rivals();
    three.push(hyp(
        "also_invariant",
        "same prediction as `invariant`",
        vec![pred("perturbed", "delta", within(-0.03, 0.03))],
    ));
    let spec = spec_with(three);
    assert!(error_codes(&spec).is_empty());
    assert_eq!(warning_codes(&spec), ["indistinguishable-hypotheses"]);
    let r = report(&spec);
    assert_eq!(
        r.diagnostics[0].message,
        "`invariant` and `also_invariant` never predict non-overlapping outcomes on a shared \
         condition and metric, so this probe cannot tell them apart"
    );
}

#[test]
fn references_and_intervals_are_checked() {
    let broken = vec![
        hyp(
            "invariant",
            "typo in condition, inverted interval",
            vec![
                pred("perturbd", "delta", below(-0.1)),
                pred("perturbed", "delta", within(0.1, -0.1)),
            ],
        ),
        hyp("fragile", "degraded", vec![pred("perturbed", "delta", below(-0.1))]),
    ];
    let codes = error_codes(&spec_with(broken));
    assert!(codes.contains(&"unknown-condition"), "{codes:?}");
    assert!(codes.contains(&"empty-interval"), "{codes:?}");
}

#[test]
fn hash_ignores_formatting_but_not_content() {
    let original = TEMPLATE.to_string();
    let hash = spec_hash(&canonical(&original));

    let reformatted = format!(
        "# a comment\n{}\n\n",
        original.replace("title: Test probe", "title: \"Test probe\"")
    );
    assert_eq!(hash, spec_hash(&canonical(&reformatted)));

    let changed = original.replace("n_per_condition: 100", "n_per_condition: 50");
    assert_ne!(hash, spec_hash(&canonical(&changed)));
}

#[test]
fn preregistration_detects_later_edits() {
    let original = TEMPLATE.to_string();
    let hash = spec_hash(&canonical(&original));
    let mut locked = spec_with(rivals());
    locked.preregistration = Some(Preregistration {
        registered: "2026-10-01".to_string(),
        spec_hash: hash.clone(),
    });
    let locked_yaml = format!(
        "{original}preregistration:\n  registered: \"2026-10-01\"\n  spec_hash: \"{hash}\"\n"
    );
    assert!(validate(&locked, &canonical(&locked_yaml)).diagnostics.is_empty());

    let edited_yaml = locked_yaml.replace("below: -0.1", "below: -0.2");
    let mut edited = locked;
    edited.hypotheses[1].predictions[0].expect = below(-0.2);
    let codes: Vec<&str> = validate(&edited, &canonical(&edited_yaml))
        .errors()
        .iter()
        .map(|d| d.code.as_str())
        .collect();
    assert_eq!(codes, ["spec-changed-after-preregistration"]);
}

#[test]
fn an_expectation_needs_exactly_one_bound() {
    let err = Expectation::from_parts(Some(num(-0.1)), Some(num(0.2)), None).unwrap_err();
    assert!(err.contains("exactly one of"), "{err}");
}
