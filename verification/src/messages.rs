//! The text of each diagnostic, as a spec function of what it mentions and
//! as the function that builds it.
use vstd::prelude::*;

use crate::text::{decimal, decimal_text};

verus! {

pub open spec fn msg_unsupported_version(version: Seq<char>) -> Seq<char> {
    "spec_version is \""@ + version + "\", but this release understands \"0.1\""@
}

pub fn unsupported_version_message(version: &str) -> (r: String)
    ensures
        r@ == msg_unsupported_version(version@),
{
    let mut r = String::from_str("spec_version is \"");
    r.append(version);
    r.append("\", but this release understands \"0.1\"");
    r
}

pub open spec fn msg_empty_title() -> Seq<char> {
    "title is empty"@
}

pub fn empty_title_message() -> (r: String)
    ensures
        r@ == msg_empty_title(),
{
    String::from_str("title is empty")
}

pub open spec fn msg_empty_claim() -> Seq<char> {
    "claim.statement is empty"@
}

pub fn empty_claim_message() -> (r: String)
    ensures
        r@ == msg_empty_claim(),
{
    String::from_str("claim.statement is empty")
}

pub open spec fn msg_claim_without_source() -> Seq<char> {
    "claim.sources is empty; cite where the claim is argued so readers can check that the probe tests the claim as its defenders state it"@
}

pub fn claim_without_source_message() -> (r: String)
    ensures
        r@ == msg_claim_without_source(),
{
    String::from_str(
        "claim.sources is empty; cite where the claim is argued so readers can check that the probe tests the claim as its defenders state it",
    )
}

pub open spec fn msg_invalid_id(kind: Seq<char>, id: Seq<char>) -> Seq<char> {
    kind + " id `"@ + id
        + "` must be lowercase letters and digits, in groups separated by `-` or `_`"@
}

pub fn invalid_id_message(kind: &str, id: &str) -> (r: String)
    ensures
        r@ == msg_invalid_id(kind@, id@),
{
    let mut r = String::from_str(kind);
    r.append(" id `");
    r.append(id);
    r.append("` must be lowercase letters and digits, in groups separated by `-` or `_`");
    r
}

pub open spec fn msg_duplicate_id(kind: Seq<char>, id: Seq<char>) -> Seq<char> {
    kind + " id `"@ + id + "` is declared more than once"@
}

pub fn duplicate_id_message(kind: &str, id: &str) -> (r: String)
    ensures
        r@ == msg_duplicate_id(kind@, id@),
{
    let mut r = String::from_str(kind);
    r.append(" id `");
    r.append(id);
    r.append("` is declared more than once");
    r
}

pub open spec fn msg_no_baseline() -> Seq<char> {
    "no condition is marked `baseline: true`; perturbations need a reference"@
}

pub fn no_baseline_message() -> (r: String)
    ensures
        r@ == msg_no_baseline(),
{
    String::from_str("no condition is marked `baseline: true`; perturbations need a reference")
}

/// The parts, with `sep` between consecutive ones.
pub open spec fn joined(parts: Seq<Seq<char>>, sep: Seq<char>) -> Seq<char>
    decreases parts.len(),
{
    if parts.len() == 0 {
        seq![]
    } else if parts.len() == 1 {
        parts[0]
    } else {
        joined(parts.drop_last(), sep) + sep + parts.last()
    }
}

pub open spec fn msg_multiple_baselines(baselines: Seq<Seq<char>>) -> Seq<char> {
    "exactly one condition may be the baseline, found: "@ + joined(baselines, ", "@)
}

pub fn multiple_baselines_message(baselines: &Vec<&str>) -> (r: String)
    ensures
        r@ == msg_multiple_baselines(Seq::new(baselines@.len(), |i: int| baselines@[i]@)),
{
    let ghost parts = Seq::new(baselines@.len(), |i: int| baselines@[i]@);
    let mut list = String::new();
    let mut i: usize = 0;
    while i < baselines.len()
        invariant
            i <= baselines@.len(),
            parts == Seq::new(baselines@.len(), |i: int| baselines@[i]@),
            list@ == joined(parts.take(i as int), ", "@),
        decreases baselines.len() - i,
    {
        proof {
            assert(parts.take(i + 1).drop_last() =~= parts.take(i as int));
        }
        if i == 0 {
            list.append(baselines[i]);
            assert(list@ =~= joined(parts.take(1), ", "@));
        } else {
            list.append(", ");
            list.append(baselines[i]);
        }
        i = i + 1;
    }
    assert(parts.take(baselines@.len() as int) =~= parts);
    let mut r = String::from_str("exactly one condition may be the baseline, found: ");
    r.append(list.as_str());
    r
}

pub open spec fn msg_hypothesis_without_predictions(h: Seq<char>) -> Seq<char> {
    "hypothesis `"@ + h + "` predicts nothing, so no result can bear on it"@
}

pub fn hypothesis_without_predictions_message(h: &str) -> (r: String)
    ensures
        r@ == msg_hypothesis_without_predictions(h@),
{
    let mut r = String::from_str("hypothesis `");
    r.append(h);
    r.append("` predicts nothing, so no result can bear on it");
    r
}

pub open spec fn msg_unknown_condition(h: Seq<char>, c: Seq<char>) -> Seq<char> {
    "hypothesis `"@ + h + "` predicts under condition `"@ + c + "`, which is not declared"@
}

pub fn unknown_condition_message(h: &str, c: &str) -> (r: String)
    ensures
        r@ == msg_unknown_condition(h@, c@),
{
    let mut r = String::from_str("hypothesis `");
    r.append(h);
    r.append("` predicts under condition `");
    r.append(c);
    r.append("`, which is not declared");
    r
}

pub open spec fn msg_unknown_metric(h: Seq<char>, m: Seq<char>) -> Seq<char> {
    "hypothesis `"@ + h + "` predicts metric `"@ + m + "`, which is not declared"@
}

pub fn unknown_metric_message(h: &str, m: &str) -> (r: String)
    ensures
        r@ == msg_unknown_metric(h@, m@),
{
    let mut r = String::from_str("hypothesis `");
    r.append(h);
    r.append("` predicts metric `");
    r.append(m);
    r.append("`, which is not declared");
    r
}

pub open spec fn msg_non_finite_bound(h: Seq<char>, m: Seq<char>, c: Seq<char>) -> Seq<char> {
    "hypothesis `"@ + h + "` uses a non-finite bound for `"@ + m + "` under `"@ + c + "`"@
}

pub fn non_finite_bound_message(h: &str, m: &str, c: &str) -> (r: String)
    ensures
        r@ == msg_non_finite_bound(h@, m@, c@),
{
    let mut r = String::from_str("hypothesis `");
    r.append(h);
    r.append("` uses a non-finite bound for `");
    r.append(m);
    r.append("` under `");
    r.append(c);
    r.append("`");
    r
}

pub open spec fn msg_empty_interval(
    h: Seq<char>,
    m: Seq<char>,
    c: Seq<char>,
    lo: Seq<char>,
    hi: Seq<char>,
) -> Seq<char> {
    "hypothesis `"@ + h + "` expects `"@ + m + "` under `"@ + c + "` within ["@ + lo + ", "@ + hi
        + "], which contains no values"@
}

pub fn empty_interval_message(h: &str, m: &str, c: &str, lo: &str, hi: &str) -> (r: String)
    ensures
        r@ == msg_empty_interval(h@, m@, c@, lo@, hi@),
{
    let mut r = String::from_str("hypothesis `");
    r.append(h);
    r.append("` expects `");
    r.append(m);
    r.append("` under `");
    r.append(c);
    r.append("` within [");
    r.append(lo);
    r.append(", ");
    r.append(hi);
    r.append("], which contains no values");
    r
}

pub open spec fn msg_duplicate_prediction(h: Seq<char>, m: Seq<char>, c: Seq<char>) -> Seq<char> {
    "hypothesis `"@ + h + "` predicts `"@ + m + "` under `"@ + c + "` more than once"@
}

pub fn duplicate_prediction_message(h: &str, m: &str, c: &str) -> (r: String)
    ensures
        r@ == msg_duplicate_prediction(h@, m@, c@),
{
    let mut r = String::from_str("hypothesis `");
    r.append(h);
    r.append("` predicts `");
    r.append(m);
    r.append("` under `");
    r.append(c);
    r.append("` more than once");
    r
}

pub open spec fn msg_no_rival_hypotheses(n: nat) -> Seq<char> {
    "a probe needs at least two rival hypotheses, found "@ + decimal(n)
        + "; a claim tested against no alternative cannot be discriminated by any result"@
}

pub fn no_rival_hypotheses_message(n: usize) -> (r: String)
    ensures
        r@ == msg_no_rival_hypotheses(n as nat),
{
    let mut r = String::from_str("a probe needs at least two rival hypotheses, found ");
    r.append(decimal_text(n).as_str());
    r.append("; a claim tested against no alternative cannot be discriminated by any result");
    r
}

pub open spec fn msg_no_crucial_condition() -> Seq<char> {
    "no condition and metric on which two hypotheses predict non-overlapping outcomes; whatever the result, it favors no hypothesis over another"@
}

pub fn no_crucial_condition_message() -> (r: String)
    ensures
        r@ == msg_no_crucial_condition(),
{
    String::from_str(
        "no condition and metric on which two hypotheses predict non-overlapping outcomes; whatever the result, it favors no hypothesis over another",
    )
}

pub open spec fn msg_indistinguishable(a: Seq<char>, b: Seq<char>) -> Seq<char> {
    "`"@ + a + "` and `"@ + b
        + "` never predict non-overlapping outcomes on a shared condition and metric, so this probe cannot tell them apart"@
}

pub fn indistinguishable_message(a: &str, b: &str) -> (r: String)
    ensures
        r@ == msg_indistinguishable(a@, b@),
{
    let mut r = String::from_str("`");
    r.append(a);
    r.append("` and `");
    r.append(b);
    r.append(
        "` never predict non-overlapping outcomes on a shared condition and metric, so this probe cannot tell them apart",
    );
    r
}

pub open spec fn msg_unused_condition(c: Seq<char>) -> Seq<char> {
    "condition `"@ + c + "` is declared but no hypothesis predicts anything under it"@
}

pub fn unused_condition_message(c: &str) -> (r: String)
    ensures
        r@ == msg_unused_condition(c@),
{
    let mut r = String::from_str("condition `");
    r.append(c);
    r.append("` is declared but no hypothesis predicts anything under it");
    r
}

pub open spec fn msg_unused_metric(m: Seq<char>) -> Seq<char> {
    "metric `"@ + m + "` is declared but no hypothesis predicts it"@
}

pub fn unused_metric_message(m: &str) -> (r: String)
    ensures
        r@ == msg_unused_metric(m@),
{
    let mut r = String::from_str("metric `");
    r.append(m);
    r.append("` is declared but no hypothesis predicts it");
    r
}

pub open spec fn msg_empty_sample() -> Seq<char> {
    "sampling.n_per_condition must be greater than zero"@
}

pub fn empty_sample_message() -> (r: String)
    ensures
        r@ == msg_empty_sample(),
{
    String::from_str("sampling.n_per_condition must be greater than zero")
}

pub open spec fn msg_missing_generator() -> Seq<char> {
    "generator.path is empty"@
}

pub fn missing_generator_message() -> (r: String)
    ensures
        r@ == msg_missing_generator(),
{
    String::from_str("generator.path is empty")
}

pub open spec fn msg_invalid_date(date: Seq<char>) -> Seq<char> {
    "preregistration.registered is \""@ + date + "\", expected YYYY-MM-DD"@
}

pub fn invalid_date_message(date: &str) -> (r: String)
    ensures
        r@ == msg_invalid_date(date@),
{
    let mut r = String::from_str("preregistration.registered is \"");
    r.append(date);
    r.append("\", expected YYYY-MM-DD");
    r
}

pub open spec fn msg_malformed_hash() -> Seq<char> {
    "preregistration.spec_hash must look like `sha256:<64 hex digits>`; generate it with `sondamente hash <spec>`"@
}

pub fn malformed_hash_message() -> (r: String)
    ensures
        r@ == msg_malformed_hash(),
{
    String::from_str(
        "preregistration.spec_hash must look like `sha256:<64 hex digits>`; generate it with `sondamente hash <spec>`",
    )
}

pub open spec fn msg_spec_changed(
    registered: Seq<char>,
    recorded: Seq<char>,
    current: Seq<char>,
) -> Seq<char> {
    "the spec no longer matches the hash recorded on "@ + registered + " (recorded "@ + recorded
        + ", now "@ + current
        + "); revert the change, or register the new version under a new id"@
}

pub fn spec_changed_message(registered: &str, recorded: &str, current: &str) -> (r: String)
    ensures
        r@ == msg_spec_changed(registered@, recorded@, current@),
{
    let mut r = String::from_str("the spec no longer matches the hash recorded on ");
    r.append(registered);
    r.append(" (recorded ");
    r.append(recorded);
    r.append(", now ");
    r.append(current);
    r.append("); revert the change, or register the new version under a new id");
    r
}

} // verus!
