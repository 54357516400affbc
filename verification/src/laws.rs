//! What a validation report says, stated over the checks' findings.
//!
//! [`crate::validate::validate_with_hash`] returns `errors_first(findings(spec, current))`,
//! where `current` is the hash the spec has now;
//! the laws here say which codes that report mentions, and when.
use vstd::prelude::*;

use crate::hash::{well_formed_hash, is_hex, HASH_PREFIX};
use crate::messages::{
    msg_unsupported_version, msg_empty_title, msg_empty_claim, msg_claim_without_source,
    msg_no_rival_hypotheses, msg_no_crucial_condition,
};
use crate::spec::{ProbeSpec, Hypothesis, SPEC_VERSION};
use crate::text::{blank, same_ignoring_ascii_case, ascii_lower};
use crate::validate::{
    Code, Finding, Severity, of_severity, errors_first, findings, gather, provided,
    header_findings, identifier_findings, baseline_findings, prediction_findings,
    discrimination_findings, coverage_findings, execution_findings, preregistration_findings,
    hypothesis_entry, prediction_entry, namespace_findings, namespace_entry, pairs_from,
    pair_entry, unused_condition_entry, error_finding, warning_finding, baseline_ids,
    iso_date, current_hash, unused_metric_entry, discriminates, has_crucial_condition,
};

verus! {

/// Some finding of `s` has code `code`.
pub open spec fn mentions(s: Seq<Finding>, code: Code) -> bool {
    exists|i: int| 0 <= i < s.len() && #[trigger] s[i].code == code
}

pub proof fn lemma_mentions_concat(a: Seq<Finding>, b: Seq<Finding>, c: Code)
    ensures
        mentions(a + b, c) == (mentions(a, c) || mentions(b, c)),
{
    if mentions(a + b, c) {
        let i = choose|i: int| 0 <= i < (a + b).len() && #[trigger] (a + b)[i].code == c;
        if i < a.len() {
            assert(a[i].code == c);
        } else {
            assert(b[i - a.len()].code == c);
        }
    }
    if mentions(a, c) {
        let i = choose|i: int| 0 <= i < a.len() && #[trigger] a[i].code == c;
        assert((a + b)[i].code == c);
    }
    if mentions(b, c) {
        let i = choose|i: int| 0 <= i < b.len() && #[trigger] b[i].code == c;
        assert((a + b)[a.len() + i].code == c);
    }
}

pub proof fn lemma_mentions_gather(n: nat, f: spec_fn(int) -> Seq<Finding>, c: Code)
    ensures
        mentions(gather(n, f), c) == exists|i: int| 0 <= i < n && #[trigger] mentions(f(i), c),
    decreases n,
{
    if n > 0 {
        lemma_mentions_gather((n - 1) as nat, f, c);
        lemma_mentions_concat(gather((n - 1) as nat, f), f(n - 1), c);
    }
}

pub proof fn lemma_mentions_one(cond: bool, severity: Severity, code: Code, message: Seq<char>, c: Code)
    ensures
        mentions(provided(cond, seq![Finding { severity, code, message }]), c) == (cond && code
            == c),
{
    if cond && code == c {
        assert(provided(cond, seq![Finding { severity, code, message }])[0].code == c);
    }
}

proof fn lemma_mentions_of_severity(s: Seq<Finding>, sev: Severity, c: Code)
    ensures
        mentions(of_severity(s, sev), c) == exists|i: int|
            0 <= i < s.len() && #[trigger] s[i].code == c && s[i].severity == sev,
    decreases s.len(),
{
    if s.len() > 0 {
        let rest = s.drop_last();
        lemma_mentions_of_severity(rest, sev, c);
        if s.last().severity == sev {
            assert(of_severity(s, sev) =~= of_severity(rest, sev) + seq![s.last()]);
            lemma_mentions_concat(of_severity(rest, sev), seq![s.last()], c);
            if s.last().code == c {
                assert(seq![s.last()][0].code == c);
            }
        }
        if exists|i: int| 0 <= i < rest.len() && #[trigger] rest[i].code == c && rest[i].severity
            == sev {
            let i = choose|i: int|
                0 <= i < rest.len() && #[trigger] rest[i].code == c && rest[i].severity == sev;
            assert(s[i].code == c);
        }
        if exists|i: int| 0 <= i < s.len() && #[trigger] s[i].code == c && s[i].severity == sev {
            let i = choose|i: int| 0 <= i < s.len() && #[trigger] s[i].code == c && s[i].severity == sev;
            if i < rest.len() {
                assert(rest[i].code == c);
            }
        }
    }
}

/// Putting errors first loses and adds nothing: the report mentions a code
/// exactly when some check found it.
pub proof fn lemma_errors_first_keeps_codes(s: Seq<Finding>, c: Code)
    ensures
        mentions(errors_first(s), c) == mentions(s, c),
{
    lemma_mentions_concat(of_severity(s, Severity::Error), of_severity(s, Severity::Warning), c);
    lemma_mentions_of_severity(s, Severity::Error, c);
    lemma_mentions_of_severity(s, Severity::Warning, c);
    if mentions(s, c) {
        let i = choose|i: int| 0 <= i < s.len() && #[trigger] s[i].code == c;
        assert(s[i].severity == Severity::Error || s[i].severity == Severity::Warning);
    }
}

/// The check that makes findings with a given code, numbered in the order
/// `validate` runs the checks.
pub open spec fn source(c: Code) -> int {
    match c {
        Code::UnsupportedVersion | Code::EmptyTitle | Code::EmptyClaim
        | Code::ClaimWithoutSource => 0,
        Code::InvalidId | Code::DuplicateId => 1,
        Code::NoBaseline | Code::MultipleBaselines => 2,
        Code::HypothesisWithoutPredictions | Code::UnknownCondition | Code::UnknownMetric
        | Code::NonFiniteBound | Code::EmptyInterval | Code::DuplicatePrediction => 3,
        Code::NoRivalHypotheses | Code::NoCrucialCondition
        | Code::IndistinguishableHypotheses => 4,
        Code::UnusedCondition | Code::UnusedMetric => 5,
        Code::EmptySample | Code::MissingGenerator => 6,
        Code::InvalidDate | Code::MalformedHash | Code::SpecChangedAfterPreregistration => 7,
    }
}

/// The severity that findings with a given code have.
pub open spec fn level(c: Code) -> Severity {
    match c {
        Code::ClaimWithoutSource | Code::IndistinguishableHypotheses | Code::UnusedCondition
        | Code::UnusedMetric => Severity::Warning,
        _ => Severity::Error,
    }
}

/// Every finding of `s` comes from check `k`, with the severity of its code.
pub open spec fn only(s: Seq<Finding>, k: int) -> bool {
    forall|i: int|
        0 <= i < s.len() ==> source(#[trigger] s[i].code) == k && s[i].severity == level(
            s[i].code,
        )
}

/// Every finding of `s` has the severity of its code.
pub open spec fn leveled(s: Seq<Finding>) -> bool {
    forall|i: int| 0 <= i < s.len() ==> #[trigger] s[i].severity == level(s[i].code)
}

proof fn lemma_only_concat(a: Seq<Finding>, b: Seq<Finding>, k: int)
    requires
        only(a, k),
        only(b, k),
    ensures
        only(a + b, k),
{
    assert forall|i: int| 0 <= i < (a + b).len() implies source(#[trigger] (a + b)[i].code) == k
        && (a + b)[i].severity == level((a + b)[i].code) by {
        if i < a.len() {
            assert((a + b)[i] == a[i]);
        } else {
            assert((a + b)[i] == b[i - a.len()]);
        }
    }
}

proof fn lemma_only_gather(n: nat, f: spec_fn(int) -> Seq<Finding>, k: int)
    requires
        forall|i: int| 0 <= i < n ==> only(#[trigger] f(i), k),
    ensures
        only(gather(n, f), k),
    decreases n,
{
    if n > 0 {
        lemma_only_gather((n - 1) as nat, f, k);
        lemma_only_concat(gather((n - 1) as nat, f), f(n - 1), k);
    }
}

proof fn lemma_only_mentions(s: Seq<Finding>, k: int, c: Code)
    requires
        only(s, k),
        mentions(s, c),
    ensures
        source(c) == k,
{
    let i = choose|i: int| 0 <= i < s.len() && #[trigger] s[i].code == c;
    assert(source(s[i].code) == k);
}

proof fn lemma_header_only(spec: ProbeSpec)
    ensures
        only(header_findings(spec), 0),
{
    let p1 = provided(
        spec.spec_version@ != SPEC_VERSION@,
        error_finding(Code::UnsupportedVersion, msg_unsupported_version(spec.spec_version@)),
    );
    let p2 = provided(blank(spec.title@), error_finding(Code::EmptyTitle, msg_empty_title()));
    let p3 = provided(blank(spec.claim.statement@), error_finding(Code::EmptyClaim, msg_empty_claim()));
    let p4 = provided(
        spec.claim.sources@.len() == 0,
        warning_finding(Code::ClaimWithoutSource, msg_claim_without_source()),
    );
    lemma_only_concat(p1, p2, 0);
    lemma_only_concat(p1 + p2, p3, 0);
    lemma_only_concat(p1 + p2 + p3, p4, 0);
}

proof fn lemma_namespace_only(kind: Seq<char>, ids: Seq<Seq<char>>)
    ensures
        only(namespace_findings(kind, ids), 1),
{
    let f = |i: int| namespace_entry(kind, ids, i);
    assert forall|i: int| 0 <= i < ids.len() implies only(#[trigger] f(i), 1) by {
        let e = namespace_entry(kind, ids, i);
        assert(only(e, 1));
    }
    lemma_only_gather(ids.len(), f, 1);
}

proof fn lemma_identifier_only(spec: ProbeSpec)
    ensures
        only(identifier_findings(spec), 1),
{
    let p0 = provided(
        !crate::validate::valid_id(spec.id@),
        error_finding(Code::InvalidId, crate::messages::msg_invalid_id("probe"@, spec.id@)),
    );
    let h = namespace_findings("hypothesis"@, crate::validate::hypothesis_ids(spec));
    let c = namespace_findings("condition"@, crate::validate::condition_ids(spec));
    let m = namespace_findings("metric"@, crate::validate::metric_ids(spec));
    lemma_namespace_only("hypothesis"@, crate::validate::hypothesis_ids(spec));
    lemma_namespace_only("condition"@, crate::validate::condition_ids(spec));
    lemma_namespace_only("metric"@, crate::validate::metric_ids(spec));
    lemma_only_concat(p0, h, 1);
    lemma_only_concat(p0 + h, c, 1);
    lemma_only_concat(p0 + h + c, m, 1);
}

proof fn lemma_prediction_only(spec: ProbeSpec)
    ensures
        only(prediction_findings(spec), 3),
{
    let hs = spec.hypotheses@;
    let f = |i: int| hypothesis_entry(spec, hs[i]);
    assert forall|i: int| 0 <= i < hs.len() implies only(#[trigger] f(i), 3) by {
        let h = hs[i];
        let g = |k: int| prediction_entry(spec, h, k);
        assert forall|k: int| 0 <= k < h.predictions@.len() implies only(#[trigger] g(k), 3) by {
            let e = prediction_entry(spec, h, k);
            assert(only(e, 3));
        }
        lemma_only_gather(h.predictions@.len(), g, 3);
        let first = provided(
            h.predictions@.len() == 0,
            error_finding(
                Code::HypothesisWithoutPredictions,
                crate::messages::msg_hypothesis_without_predictions(h.id@),
            ),
        );
        lemma_only_concat(first, gather(h.predictions@.len(), g), 3);
    }
    lemma_only_gather(hs.len(), f, 3);
}

proof fn lemma_coverage_only(spec: ProbeSpec)
    ensures
        only(coverage_findings(spec), 5),
{
    let f = |i: int| unused_condition_entry(spec, i);
    let g = |i: int| unused_metric_entry(spec, i);
    assert forall|i: int| 0 <= i < spec.conditions@.len() implies only(#[trigger] f(i), 5) by {}
    assert forall|i: int| 0 <= i < spec.metrics@.len() implies only(#[trigger] g(i), 5) by {}
    lemma_only_gather(spec.conditions@.len(), f, 5);
    lemma_only_gather(spec.metrics@.len(), g, 5);
    lemma_only_concat(gather(spec.conditions@.len(), f), gather(spec.metrics@.len(), g), 5);
}

proof fn lemma_execution_only(spec: ProbeSpec)
    ensures
        only(execution_findings(spec), 6),
{
    let a = provided(
        spec.sampling.n_per_condition == 0,
        error_finding(Code::EmptySample, crate::messages::msg_empty_sample()),
    );
    let b = provided(
        blank(spec.generator.path@),
        error_finding(Code::MissingGenerator, crate::messages::msg_missing_generator()),
    );
    lemma_only_concat(a, b, 6);
}

proof fn lemma_preregistration_only(spec: ProbeSpec, current: Seq<char>)
    ensures
        only(preregistration_findings(spec, current), 7),
{
    match spec.preregistration {
        None => {},
        Some(pr) => {
            let a = provided(
                !iso_date(pr.registered@),
                error_finding(Code::InvalidDate, crate::messages::msg_invalid_date(pr.registered@)),
            );
            let b = if !well_formed_hash(pr.spec_hash@) {
                error_finding(Code::MalformedHash, crate::messages::msg_malformed_hash())
            } else {
                provided(
                    !same_ignoring_ascii_case(pr.spec_hash@, current),
                    error_finding(
                        Code::SpecChangedAfterPreregistration,
                        crate::messages::msg_spec_changed(
                            pr.registered@,
                            pr.spec_hash@,
                            current,
                        ),
                    ),
                )
            };
            lemma_only_concat(a, b, 7);
        },
    }
}

proof fn lemma_discrimination_only(spec: ProbeSpec)
    ensures
        only(discrimination_findings(spec), 4),
{
    let hs = spec.hypotheses@;
    if hs.len() >= 2 && has_crucial_condition(hs) {
        let f = |i: int| pairs_from(hs, i);
        assert forall|i: int| 0 <= i < hs.len() implies only(#[trigger] f(i), 4) by {
            let g = |t: int| pair_entry(hs, i, i + 1 + t);
            assert forall|t: int| 0 <= t < hs.len() - (i + 1) implies only(#[trigger] g(t), 4) by {}
            lemma_only_gather((hs.len() - (i + 1)) as nat, g, 4);
        }
        lemma_only_gather(hs.len(), f, 4);
    }
}

/// The findings of the `k`-th check that `validate` runs.
pub open spec fn check_findings(spec: ProbeSpec, current: Seq<char>, k: int) -> Seq<Finding> {
    if k == 0 {
        header_findings(spec)
    } else if k == 1 {
        identifier_findings(spec)
    } else if k == 2 {
        baseline_findings(spec)
    } else if k == 3 {
        prediction_findings(spec)
    } else if k == 4 {
        discrimination_findings(spec)
    } else if k == 5 {
        coverage_findings(spec)
    } else if k == 6 {
        execution_findings(spec)
    } else {
        preregistration_findings(spec, current)
    }
}

/// Which check a report's mention of code `c` comes from: the report
/// mentions `c` exactly when the findings of the check that makes it do.
pub proof fn lemma_mentions_by_source(spec: ProbeSpec, current: Seq<char>, c: Code)
    ensures
        mentions(errors_first(findings(spec, current)), c) == mentions(
            check_findings(spec, current, source(c)),
            c,
        ),
{
    let p0 = header_findings(spec);
    let p1 = identifier_findings(spec);
    let p2 = baseline_findings(spec);
    let p3 = prediction_findings(spec);
    let p4 = discrimination_findings(spec);
    let p5 = coverage_findings(spec);
    let p6 = execution_findings(spec);
    let p7 = preregistration_findings(spec, current);
    lemma_header_only(spec);
    lemma_identifier_only(spec);
    assert(only(p2, 2));
    lemma_prediction_only(spec);
    lemma_discrimination_only(spec);
    lemma_coverage_only(spec);
    lemma_execution_only(spec);
    lemma_preregistration_only(spec, current);
    lemma_errors_first_keeps_codes(findings(spec, current), c);
    lemma_mentions_concat(p0, p1, c);
    lemma_mentions_concat(p0 + p1, p2, c);
    lemma_mentions_concat(p0 + p1 + p2, p3, c);
    lemma_mentions_concat(p0 + p1 + p2 + p3, p4, c);
    lemma_mentions_concat(p0 + p1 + p2 + p3 + p4, p5, c);
    lemma_mentions_concat(p0 + p1 + p2 + p3 + p4 + p5, p6, c);
    lemma_mentions_concat(p0 + p1 + p2 + p3 + p4 + p5 + p6, p7, c);
    if mentions(p0, c) {
        lemma_only_mentions(p0, 0, c);
    }
    if mentions(p1, c) {
        lemma_only_mentions(p1, 1, c);
    }
    if mentions(p2, c) {
        lemma_only_mentions(p2, 2, c);
    }
    if mentions(p3, c) {
        lemma_only_mentions(p3, 3, c);
    }
    if mentions(p4, c) {
        lemma_only_mentions(p4, 4, c);
    }
    if mentions(p5, c) {
        lemma_only_mentions(p5, 5, c);
    }
    if mentions(p6, c) {
        lemma_only_mentions(p6, 6, c);
    }
    if mentions(p7, c) {
        lemma_only_mentions(p7, 7, c);
    }
}

proof fn lemma_discrimination_mentions(spec: ProbeSpec, c: Code)
    ensures
        mentions(discrimination_findings(spec), c) == {
            let hs = spec.hypotheses@;
            ||| c == Code::NoRivalHypotheses && hs.len() < 2
            ||| c == Code::NoCrucialCondition && hs.len() >= 2 && !has_crucial_condition(hs)
            ||| c == Code::IndistinguishableHypotheses && hs.len() >= 2 && has_crucial_condition(hs)
                && exists|i: int, j: int|
                0 <= i < j < hs.len() && !#[trigger] discriminates(hs[i], hs[j])
        },
{
    let hs = spec.hypotheses@;
    if hs.len() < 2 {
        lemma_mentions_one(
            true,
            Severity::Error,
            Code::NoRivalHypotheses,
            msg_no_rival_hypotheses(hs.len()),
            c,
        );
    } else if !has_crucial_condition(hs) {
        lemma_mentions_one(
            true,
            Severity::Error,
            Code::NoCrucialCondition,
            msg_no_crucial_condition(),
            c,
        );
    } else {
        let f = |i: int| pairs_from(hs, i);
        lemma_mentions_gather(hs.len(), f, c);
        assert forall|i: int| 0 <= i < hs.len() implies #[trigger] mentions(f(i), c) == (c
            == Code::IndistinguishableHypotheses && exists|j: int|
            i < j < hs.len() && !#[trigger] discriminates(hs[i], hs[j])) by {
            let g = |t: int| pair_entry(hs, i, i + 1 + t);
            lemma_mentions_gather((hs.len() - (i + 1)) as nat, g, c);
            assert forall|t: int| 0 <= t < hs.len() - (i + 1) implies #[trigger] mentions(g(t), c)
                == (c == Code::IndistinguishableHypotheses && !discriminates(hs[i], hs[i + 1 + t])) by {
                lemma_mentions_one(
                    !discriminates(hs[i], hs[i + 1 + t]),
                    Severity::Warning,
                    Code::IndistinguishableHypotheses,
                    crate::messages::msg_indistinguishable(hs[i].id@, hs[i + 1 + t].id@),
                    c,
                );
            }
            if c == Code::IndistinguishableHypotheses && exists|j: int|
                i < j < hs.len() && !#[trigger] discriminates(hs[i], hs[j]) {
                let j = choose|j: int| i < j < hs.len() && !#[trigger] discriminates(hs[i], hs[j]);
                assert(mentions(g(j - (i + 1)), c));
            }
            if mentions(f(i), c) {
                let t = choose|t: int| 0 <= t < hs.len() - (i + 1) && #[trigger] mentions(g(t), c);
                assert(!discriminates(hs[i], hs[i + 1 + t]));
            }
        }
        if exists|i: int, j: int| 0 <= i < j < hs.len() && !#[trigger] discriminates(hs[i], hs[j]) {
            let (i, j) = choose|i: int, j: int|
                0 <= i < j < hs.len() && !#[trigger] discriminates(hs[i], hs[j]);
            if c == Code::IndistinguishableHypotheses {
                assert(mentions(f(i), c));
            }
        }
    }
}

/// The rule the validator exists for: a probe must contain a crucial
/// condition. A report says `no-rival-hypotheses` exactly when the probe
/// has fewer than two hypotheses; otherwise it says `no-crucial-condition`
/// exactly when no condition and metric on which two hypotheses both
/// predict has their predicted intervals disjoint.
pub proof fn law_crucial_condition_required(spec: ProbeSpec, current: Seq<char>)
    ensures
        mentions(errors_first(findings(spec, current)), Code::NoRivalHypotheses)
            <==> spec.hypotheses@.len() < 2,
        mentions(errors_first(findings(spec, current)), Code::NoCrucialCondition) <==> (
        spec.hypotheses@.len() >= 2 && !has_crucial_condition(spec.hypotheses@)),
{
    lemma_mentions_by_source(spec, current, Code::NoRivalHypotheses);
    lemma_mentions_by_source(spec, current, Code::NoCrucialCondition);
    lemma_discrimination_mentions(spec, Code::NoRivalHypotheses);
    lemma_discrimination_mentions(spec, Code::NoCrucialCondition);
}

/// A report warns `indistinguishable-hypotheses` exactly when some pair of
/// hypotheses is never told apart although another pair is.
pub proof fn law_indistinguishable_pairs_warned(spec: ProbeSpec, current: Seq<char>)
    ensures
        mentions(errors_first(findings(spec, current)), Code::IndistinguishableHypotheses) <==> {
            let hs = spec.hypotheses@;
            &&& hs.len() >= 2
            &&& has_crucial_condition(hs)
            &&& exists|i: int, j: int| 0 <= i < j < hs.len() && !#[trigger] discriminates(hs[i], hs[j])
        },
{
    lemma_mentions_by_source(spec, current, Code::IndistinguishableHypotheses);
    lemma_discrimination_mentions(spec, Code::IndistinguishableHypotheses);
}

/// Exactly one condition must be the baseline: a report says `no-baseline`
/// when none is marked, `multiple-baselines` when more than one is, and
/// neither when exactly one is.
pub proof fn law_exactly_one_baseline(spec: ProbeSpec, current: Seq<char>)
    ensures
        mentions(errors_first(findings(spec, current)), Code::NoBaseline) <==> baseline_ids(
            spec.conditions@,
        ).len() == 0,
        mentions(errors_first(findings(spec, current)), Code::MultipleBaselines) <==> baseline_ids(
            spec.conditions@,
        ).len() > 1,
{
    lemma_mentions_by_source(spec, current, Code::NoBaseline);
    lemma_mentions_by_source(spec, current, Code::MultipleBaselines);
    let b = baseline_ids(spec.conditions@);
    if b.len() == 0 {
        lemma_mentions_one(true, Severity::Error, Code::NoBaseline, crate::messages::msg_no_baseline(), Code::NoBaseline);
        lemma_mentions_one(true, Severity::Error, Code::NoBaseline, crate::messages::msg_no_baseline(), Code::MultipleBaselines);
    } else if b.len() > 1 {
        lemma_mentions_one(true, Severity::Error, Code::MultipleBaselines, crate::messages::msg_multiple_baselines(b), Code::NoBaseline);
        lemma_mentions_one(true, Severity::Error, Code::MultipleBaselines, crate::messages::msg_multiple_baselines(b), Code::MultipleBaselines);
    }
}

/// Once a spec is locked, a report says `spec-changed-after-preregistration`
/// exactly when the recorded hash is well formed and differs, ignoring the
/// case of ASCII letters, from the hash of the spec's current canonical content.
pub proof fn law_changes_after_preregistration_detected(spec: ProbeSpec, current: Seq<char>)
    ensures
        mentions(errors_first(findings(spec, current)), Code::SpecChangedAfterPreregistration)
            <==> (spec.preregistration matches Some(pr) && well_formed_hash(pr.spec_hash@)
            && !same_ignoring_ascii_case(pr.spec_hash@, current)),
{
    let c = Code::SpecChangedAfterPreregistration;
    lemma_mentions_by_source(spec, current, c);
    match spec.preregistration {
        None => {},
        Some(pr) => {
            let a = provided(
                !iso_date(pr.registered@),
                error_finding(Code::InvalidDate, crate::messages::msg_invalid_date(pr.registered@)),
            );
            lemma_mentions_one(!iso_date(pr.registered@), Severity::Error, Code::InvalidDate, crate::messages::msg_invalid_date(pr.registered@), c);
            if !well_formed_hash(pr.spec_hash@) {
                let b = error_finding(Code::MalformedHash, crate::messages::msg_malformed_hash());
                lemma_mentions_one(true, Severity::Error, Code::MalformedHash, crate::messages::msg_malformed_hash(), c);
                lemma_mentions_concat(a, b, c);
            } else {
                let m = crate::messages::msg_spec_changed(pr.registered@, pr.spec_hash@, current);
                let cond = !same_ignoring_ascii_case(pr.spec_hash@, current);
                lemma_mentions_one(cond, Severity::Error, c, m, c);
                lemma_mentions_concat(a, provided(cond, error_finding(c, m)), c);
            }
        },
    }
}

/// A recorded hash that has the prefix `sha256:` and otherwise differs from
/// a well-formed hash only in the case of ASCII letters is well formed too.
proof fn lemma_case_variant_well_formed(recorded: Seq<char>, current: Seq<char>)
    requires
        well_formed_hash(current),
        same_ignoring_ascii_case(recorded, current),
        recorded.take(HASH_PREFIX@.len() as int) == HASH_PREFIX@,
    ensures
        well_formed_hash(recorded),
{
    assert forall|i: int| HASH_PREFIX@.len() <= i < recorded.len() implies #[trigger] is_hex(
        recorded[i],
    ) by {
        assert(ascii_lower(recorded[i]) == ascii_lower(current[i]));
        assert(is_hex(current[i]));
    }
}

/// The spec is locked, on a valid date, with the hash `current`: the
/// recorded hash has the prefix `sha256:` and otherwise equals `current` up
/// to the case of ASCII letters.
pub open spec fn locked_with(spec: ProbeSpec, current: Seq<char>) -> bool {
    spec.preregistration matches Some(pr) && iso_date(pr.registered@) && same_ignoring_ascii_case(
        pr.spec_hash@,
        current,
    ) && pr.spec_hash@.take(HASH_PREFIX@.len() as int) == HASH_PREFIX@
}

/// A spec locked with the hash it has now, on a valid date, passes the
/// preregistration checks: they report nothing. The recorded hash may write
/// its hexadecimal digits in either case. Every hash that
/// [`crate::hash::spec_hash`] returns is well formed.
pub proof fn law_locked_spec_passes(spec: ProbeSpec, current: Seq<char>)
    requires
        locked_with(spec, current),
        well_formed_hash(current),
    ensures
        preregistration_findings(spec, current) == Seq::<Finding>::empty(),
{
    let pr = spec.preregistration->0;
    lemma_case_variant_well_formed(pr.spec_hash@, current);
    assert(preregistration_findings(spec, current) =~= Seq::<Finding>::empty());
}

/// Locking a spec with the hash it has now changes nothing in its report:
/// it validates exactly as the same spec without a preregistration block.
pub proof fn law_locked_spec_validates_as_unlocked(spec: ProbeSpec, current: Seq<char>)
    requires
        locked_with(spec, current),
        well_formed_hash(current),
    ensures
        errors_first(findings(spec, current)) == errors_first(
            findings(spec.unlocked(), current),
        ),
{
    let unlocked = spec.unlocked();
    law_locked_spec_passes(spec, current);
    assert(header_findings(spec) == header_findings(unlocked));
    assert(identifier_findings(spec) == identifier_findings(unlocked));
    assert(baseline_findings(spec) == baseline_findings(unlocked));
    assert forall|h: Hypothesis| #[trigger] hypothesis_entry(spec, h) == hypothesis_entry(
        unlocked,
        h,
    ) by {
        assert((|k: int| prediction_entry(spec, h, k)) =~= (|k: int|
            prediction_entry(unlocked, h, k)));
    }
    assert((|i: int| hypothesis_entry(spec, spec.hypotheses@[i])) =~= (|i: int|
        hypothesis_entry(unlocked, unlocked.hypotheses@[i])));
    assert(prediction_findings(spec) == prediction_findings(unlocked));
    assert(discrimination_findings(spec) == discrimination_findings(unlocked));
    assert((|i: int| unused_condition_entry(spec, i)) =~= (|i: int|
        unused_condition_entry(unlocked, i)));
    assert((|i: int| unused_metric_entry(spec, i)) =~= (|i: int| unused_metric_entry(unlocked, i)));
    assert(coverage_findings(spec) == coverage_findings(unlocked));
    assert(execution_findings(spec) == execution_findings(unlocked));
    assert(preregistration_findings(unlocked, current) == Seq::<Finding>::empty());
    assert(findings(spec, current) =~= findings(unlocked, current));
}

proof fn lemma_of_severity_has_severity(s: Seq<Finding>, sev: Severity)
    ensures
        forall|i: int| 0 <= i < of_severity(s, sev).len() ==> #[trigger] of_severity(s, sev)[i].severity == sev,
    decreases s.len(),
{
    if s.len() > 0 {
        lemma_of_severity_has_severity(s.drop_last(), sev);
    }
}

/// Every error of a report comes before every warning.
pub proof fn law_errors_before_warnings(s: Seq<Finding>)
    ensures
        forall|i: int, j: int|
            0 <= i < j < errors_first(s).len() ==> !(#[trigger] errors_first(s)[i].severity
                == Severity::Warning && #[trigger] errors_first(s)[j].severity == Severity::Error),
{
    lemma_of_severity_has_severity(s, Severity::Error);
    lemma_of_severity_has_severity(s, Severity::Warning);
    let e = of_severity(s, Severity::Error);
    let w = of_severity(s, Severity::Warning);
    assert forall|i: int, j: int|
        0 <= i < j < errors_first(s).len() implies !(#[trigger] errors_first(s)[i].severity
        == Severity::Warning && #[trigger] errors_first(s)[j].severity == Severity::Error) by {
        if i < e.len() {
            assert(errors_first(s)[i] == e[i]);
        } else {
            assert(errors_first(s)[j] == w[j - e.len()]);
        }
    }
}

proof fn lemma_leveled_concat(a: Seq<Finding>, b: Seq<Finding>)
    requires
        leveled(a),
        leveled(b),
    ensures
        leveled(a + b),
{
    assert forall|i: int| 0 <= i < (a + b).len() implies #[trigger] (a + b)[i].severity == level(
        (a + b)[i].code,
    ) by {
        if i < a.len() {
            assert((a + b)[i] == a[i]);
        } else {
            assert((a + b)[i] == b[i - a.len()]);
        }
    }
}

proof fn lemma_leveled_of_severity(s: Seq<Finding>, sev: Severity)
    requires
        leveled(s),
    ensures
        leveled(of_severity(s, sev)),
    decreases s.len(),
{
    if s.len() > 0 {
        assert(leveled(s.drop_last())) by {
            assert forall|i: int| 0 <= i < s.drop_last().len() implies #[trigger] s.drop_last()[i].severity
                == level(s.drop_last()[i].code) by {
                assert(s.drop_last()[i] == s[i]);
            }
        }
        lemma_leveled_of_severity(s.drop_last(), sev);
        assert(s[s.len() - 1].severity == level(s[s.len() - 1].code));
    }
}

/// Every finding of a report has the severity of its code: the codes that
/// only warn are `claim-without-source`, `indistinguishable-hypotheses`,
/// `unused-condition` and `unused-metric`; every other code is an error.
pub proof fn lemma_report_leveled(spec: ProbeSpec, current: Seq<char>)
    ensures
        leveled(errors_first(findings(spec, current))),
{
    let p0 = header_findings(spec);
    let p1 = identifier_findings(spec);
    let p2 = baseline_findings(spec);
    let p3 = prediction_findings(spec);
    let p4 = discrimination_findings(spec);
    let p5 = coverage_findings(spec);
    let p6 = execution_findings(spec);
    let p7 = preregistration_findings(spec, current);
    lemma_header_only(spec);
    lemma_identifier_only(spec);
    assert(only(p2, 2));
    lemma_prediction_only(spec);
    lemma_discrimination_only(spec);
    lemma_coverage_only(spec);
    lemma_execution_only(spec);
    lemma_preregistration_only(spec, current);
    lemma_leveled_concat(p0, p1);
    lemma_leveled_concat(p0 + p1, p2);
    lemma_leveled_concat(p0 + p1 + p2, p3);
    lemma_leveled_concat(p0 + p1 + p2 + p3, p4);
    lemma_leveled_concat(p0 + p1 + p2 + p3 + p4, p5);
    lemma_leveled_concat(p0 + p1 + p2 + p3 + p4 + p5, p6);
    lemma_leveled_concat(p0 + p1 + p2 + p3 + p4 + p5 + p6, p7);
    let all = findings(spec, current);
    lemma_leveled_of_severity(all, Severity::Error);
    lemma_leveled_of_severity(all, Severity::Warning);
    lemma_leveled_concat(of_severity(all, Severity::Error), of_severity(all, Severity::Warning));
}

/// A probe without a crucial condition never passes: a report with no error
/// belongs to a probe with at least two hypotheses, two of which some
/// condition and metric tell apart.
pub proof fn law_passing_probe_has_crucial_condition(spec: ProbeSpec, current: Seq<char>)
    ensures
        (forall|i: int|
            0 <= i < errors_first(findings(spec, current)).len() ==> #[trigger] errors_first(
                findings(spec, current),
            )[i].severity != Severity::Error) ==> spec.hypotheses@.len() >= 2
            && has_crucial_condition(spec.hypotheses@),
{
    let r = errors_first(findings(spec, current));
    law_crucial_condition_required(spec, current);
    lemma_report_leveled(spec, current);
    if mentions(r, Code::NoRivalHypotheses) {
        let i = choose|i: int| 0 <= i < r.len() && #[trigger] r[i].code == Code::NoRivalHypotheses;
        assert(r[i].severity == Severity::Error);
    }
    if mentions(r, Code::NoCrucialCondition) {
        let i = choose|i: int| 0 <= i < r.len() && #[trigger] r[i].code == Code::NoCrucialCondition;
        assert(r[i].severity == Severity::Error);
    }
}

} // verus!
