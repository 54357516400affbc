//! Spec validation.
//!
//! Besides ordinary structural checks, the validator enforces the rule the
//! project exists for: a probe must contain at least one *crucial condition*,
//! a condition and metric on which two rival hypotheses predict outcomes that
//! cannot both occur. Without one, no possible result favors any hypothesis
//! over another, and running the probe cannot move the debate.
use vstd::prelude::*;

use crate::messages::{
    msg_unsupported_version, unsupported_version_message, msg_empty_title, empty_title_message,
    msg_empty_claim, empty_claim_message, msg_claim_without_source,
    claim_without_source_message, msg_invalid_id, invalid_id_message, msg_duplicate_id,
    duplicate_id_message, msg_no_baseline, no_baseline_message, msg_multiple_baselines,
    multiple_baselines_message, msg_hypothesis_without_predictions,
    hypothesis_without_predictions_message, msg_unknown_condition, unknown_condition_message,
    msg_unknown_metric, unknown_metric_message, msg_non_finite_bound, non_finite_bound_message,
    msg_empty_interval, empty_interval_message, msg_duplicate_prediction,
    duplicate_prediction_message, msg_no_rival_hypotheses, no_rival_hypotheses_message,
    msg_no_crucial_condition, no_crucial_condition_message, msg_indistinguishable,
    indistinguishable_message, msg_unused_condition, unused_condition_message,
    msg_unused_metric, unused_metric_message, msg_empty_sample, empty_sample_message,
    msg_missing_generator, missing_generator_message, msg_invalid_date, invalid_date_message,
    msg_malformed_hash, malformed_hash_message, msg_spec_changed, spec_changed_message,
};
use crate::number::{spec_finite, spec_lt, spec_le, is_finite, lt, le};
use crate::spec::{
    ProbeSpec, Hypothesis, Condition, Metric, Prediction, Expectation, Interval, SPEC_VERSION,
};
use crate::laws::{law_locked_spec_validates_as_unlocked, locked_with};
use crate::hash::{hash_text_of, sha256, spec_hash, is_well_formed, well_formed_hash};
use crate::text::{
    chars_of, same_str, same_text, is_blank, blank, eq_ignore_ascii_case, same_ignoring_ascii_case,
};

verus! {

#[derive(Debug, Clone, Copy, PartialEq, Eq, Structural, PartialOrd, Ord, Hash)]
pub enum Severity {
    Warning,
    Error,
}

/// What a diagnostic is about. Each code has a stable text, [`Code::as_str`].
#[derive(Debug, Clone, Copy, PartialEq, Eq, Structural, Hash)]
pub enum Code {
    NoRivalHypotheses,
    NoCrucialCondition,
    IndistinguishableHypotheses,
    HypothesisWithoutPredictions,
    UnknownCondition,
    UnknownMetric,
    DuplicatePrediction,
    EmptyInterval,
    NonFiniteBound,
    NoBaseline,
    MultipleBaselines,
    InvalidId,
    DuplicateId,
    UnsupportedVersion,
    EmptyTitle,
    EmptyClaim,
    EmptySample,
    MissingGenerator,
    InvalidDate,
    MalformedHash,
    SpecChangedAfterPreregistration,
    ClaimWithoutSource,
    UnusedCondition,
    UnusedMetric,
}

impl Code {
    pub open spec fn name(self) -> Seq<char> {
        match self {
            Code::NoRivalHypotheses => "no-rival-hypotheses"@,
            Code::NoCrucialCondition => "no-crucial-condition"@,
            Code::IndistinguishableHypotheses => "indistinguishable-hypotheses"@,
            Code::HypothesisWithoutPredictions => "hypothesis-without-predictions"@,
            Code::UnknownCondition => "unknown-condition"@,
            Code::UnknownMetric => "unknown-metric"@,
            Code::DuplicatePrediction => "duplicate-prediction"@,
            Code::EmptyInterval => "empty-interval"@,
            Code::NonFiniteBound => "non-finite-bound"@,
            Code::NoBaseline => "no-baseline"@,
            Code::MultipleBaselines => "multiple-baselines"@,
            Code::InvalidId => "invalid-id"@,
            Code::DuplicateId => "duplicate-id"@,
            Code::UnsupportedVersion => "unsupported-version"@,
            Code::EmptyTitle => "empty-title"@,
            Code::EmptyClaim => "empty-claim"@,
            Code::EmptySample => "empty-sample"@,
            Code::MissingGenerator => "missing-generator"@,
            Code::InvalidDate => "invalid-date"@,
            Code::MalformedHash => "malformed-hash"@,
            Code::SpecChangedAfterPreregistration => "spec-changed-after-preregistration"@,
            Code::ClaimWithoutSource => "claim-without-source"@,
            Code::UnusedCondition => "unused-condition"@,
            Code::UnusedMetric => "unused-metric"@,
        }
    }

    /// The code's stable text, as the README documents it.
    pub fn as_str(&self) -> (r: &'static str)
        ensures
            r@ == self.name(),
    {
        match self {
            Code::NoRivalHypotheses => "no-rival-hypotheses",
            Code::NoCrucialCondition => "no-crucial-condition",
            Code::IndistinguishableHypotheses => "indistinguishable-hypotheses",
            Code::HypothesisWithoutPredictions => "hypothesis-without-predictions",
            Code::UnknownCondition => "unknown-condition",
            Code::UnknownMetric => "unknown-metric",
            Code::DuplicatePrediction => "duplicate-prediction",
            Code::EmptyInterval => "empty-interval",
            Code::NonFiniteBound => "non-finite-bound",
            Code::NoBaseline => "no-baseline",
            Code::MultipleBaselines => "multiple-baselines",
            Code::InvalidId => "invalid-id",
            Code::DuplicateId => "duplicate-id",
            Code::UnsupportedVersion => "unsupported-version",
            Code::EmptyTitle => "empty-title",
            Code::EmptyClaim => "empty-claim",
            Code::EmptySample => "empty-sample",
            Code::MissingGenerator => "missing-generator",
            Code::InvalidDate => "invalid-date",
            Code::MalformedHash => "malformed-hash",
            Code::SpecChangedAfterPreregistration => "spec-changed-after-preregistration",
            Code::ClaimWithoutSource => "claim-without-source",
            Code::UnusedCondition => "unused-condition",
            Code::UnusedMetric => "unused-metric",
        }
    }
}

/// A diagnostic as contracts speak of it.
pub struct Finding {
    pub severity: Severity,
    pub code: Code,
    pub message: Seq<char>,
}

/// One finding.
#[derive(Debug, Clone, PartialEq, Eq)]
pub struct Diagnostic {
    pub severity: Severity,
    pub code: Code,
    pub message: String,
}

impl View for Diagnostic {
    type V = Finding;

    open spec fn view(&self) -> Finding {
        Finding { severity: self.severity, code: self.code, message: self.message@ }
    }
}

pub open spec fn rendered(f: Finding) -> Seq<char> {
    (if f.severity == Severity::Error {
        "error"@
    } else {
        "warning"@
    }) + "["@ + f.code.name() + "]: "@ + f.message
}

impl Diagnostic {
    /// `error[<code>]: <message>` or `warning[<code>]: <message>`.
    pub fn render(&self) -> (r: String)
        ensures
            r@ == rendered(self@),
    {
        let mut r = if self.severity == Severity::Error {
            String::from_str("error")
        } else {
            String::from_str("warning")
        };
        r.append("[");
        r.append(self.code.as_str());
        r.append("]: ");
        r.append(self.message.as_str());
        r
    }

    /// A copy of this diagnostic.
    pub fn copy(&self) -> (r: Diagnostic)
        ensures
            r@ == self@,
    {
        Diagnostic { severity: self.severity, code: self.code, message: self.message.clone() }
    }
}

/// The findings of `s` with severity `sev`, in their order.
pub open spec fn of_severity(s: Seq<Finding>, sev: Severity) -> Seq<Finding>
    decreases s.len(),
{
    if s.len() == 0 {
        seq![]
    } else {
        let rest = of_severity(s.drop_last(), sev);
        if s.last().severity == sev {
            rest.push(s.last())
        } else {
            rest
        }
    }
}

/// The same findings, errors first, each group in its original order.
pub open spec fn errors_first(s: Seq<Finding>) -> Seq<Finding> {
    of_severity(s, Severity::Error) + of_severity(s, Severity::Warning)
}

/// All findings for one spec, errors first.
#[derive(Debug, Clone)]
pub struct Report {
    pub diagnostics: Vec<Diagnostic>,
}

impl View for Report {
    type V = Seq<Finding>;

    open spec fn view(&self) -> Seq<Finding> {
        self.diagnostics@.map_values(|d: Diagnostic| d@)
    }
}

impl Default for Report {
    fn default() -> (r: Report)
        ensures
            r@.len() == 0,
    {
        Report { diagnostics: Vec::new() }
    }
}

proof fn lemma_of_severity_empty(s: Seq<Finding>, sev: Severity)
    ensures
        (of_severity(s, sev).len() == 0) <==> !(exists|i: int|
            0 <= i < s.len() && #[trigger] s[i].severity == sev),
    decreases s.len(),
{
    if s.len() > 0 {
        lemma_of_severity_empty(s.drop_last(), sev);
        if exists|i: int| 0 <= i < s.len() && #[trigger] s[i].severity == sev {
            let i = choose|i: int| 0 <= i < s.len() && #[trigger] s[i].severity == sev;
            if i < s.len() - 1 {
                assert(s.drop_last()[i].severity == sev);
            }
        }
        if exists|i: int| 0 <= i < s.len() - 1 && #[trigger] s.drop_last()[i].severity == sev {
            let i = choose|i: int| 0 <= i < s.len() - 1 && #[trigger] s.drop_last()[i].severity == sev;
            assert(s[i].severity == sev);
        }
    }
}

impl Report {
    /// True when the spec has no errors. Warnings do not fail a spec.
    pub fn is_ok(&self) -> (r: bool)
        ensures
            r == (of_severity(self@, Severity::Error).len() == 0),
            r == !(exists|i: int| 0 <= i < self@.len() && #[trigger] self@[i].severity == Severity::Error),
    {
        let mut i: usize = 0;
        while i < self.diagnostics.len()
            invariant
                i <= self.diagnostics@.len(),
                forall|j: int| 0 <= j < i ==> #[trigger] self@[j].severity != Severity::Error,
            decreases self.diagnostics.len() - i,
        {
            if self.diagnostics[i].severity == Severity::Error {
                proof {
                    assert(self@[i as int].severity == Severity::Error);
                    lemma_of_severity_empty(self@, Severity::Error);
                }
                return false;
            }
            i = i + 1;
        }
        proof {
            lemma_of_severity_empty(self@, Severity::Error);
        }
        true
    }

    fn of(&self, sev: Severity) -> (r: Vec<&Diagnostic>)
        ensures
            Seq::new(r@.len(), |i: int| r@[i]@) == of_severity(self@, sev),
    {
        let mut r: Vec<&Diagnostic> = Vec::new();
        let mut i: usize = 0;
        while i < self.diagnostics.len()
            invariant
                i <= self.diagnostics@.len(),
                Seq::new(r@.len(), |k: int| r@[k]@) == of_severity(self@.take(i as int), sev),
            decreases self.diagnostics.len() - i,
        {
            proof {
                assert(self@.take(i + 1).drop_last() =~= self@.take(i as int));
            }
            let ghost before = r@;
            if self.diagnostics[i].severity == sev {
                r.push(&self.diagnostics[i]);
                assert(Seq::new(r@.len(), |k: int| r@[k]@) =~= Seq::new(
                    before.len(),
                    |k: int| before[k]@,
                ).push(self@[i as int]));
            }
            i = i + 1;
        }
        assert(self@.take(self.diagnostics@.len() as int) =~= self@);
        r
    }

    /// The errors, in order.
    pub fn errors(&self) -> (r: Vec<&Diagnostic>)
        ensures
            Seq::new(r@.len(), |i: int| r@[i]@) == of_severity(self@, Severity::Error),
    {
        self.of(Severity::Error)
    }

    /// The warnings, in order.
    pub fn warnings(&self) -> (r: Vec<&Diagnostic>)
        ensures
            Seq::new(r@.len(), |i: int| r@[i]@) == of_severity(self@, Severity::Warning),
    {
        self.of(Severity::Warning)
    }

    fn error(&mut self, code: Code, message: String)
        ensures
            final(self)@ == old(self)@.push(
                Finding { severity: Severity::Error, code, message: message@ },
            ),
    {
        self.push(Severity::Error, code, message);
    }

    fn warning(&mut self, code: Code, message: String)
        ensures
            final(self)@ == old(self)@.push(
                Finding { severity: Severity::Warning, code, message: message@ },
            ),
    {
        self.push(Severity::Warning, code, message);
    }

    fn push(&mut self, severity: Severity, code: Code, message: String)
        ensures
            final(self)@ == old(self)@.push(Finding { severity, code, message: message@ }),
    {
        let d = Diagnostic { severity, code, message };
        self.diagnostics.push(d);
        assert(self@ =~= old(self)@.push(d@));
    }
}

pub open spec fn id_char(c: char) -> bool {
    ('a' <= c <= 'z') || ('0' <= c <= '9')
}

pub open spec fn separator(c: char) -> bool {
    c == '-' || c == '_'
}

/// Lowercase ASCII letters and digits, in nonempty groups separated by
/// single `-` or `_`.
pub open spec fn valid_id(s: Seq<char>) -> bool {
    &&& s.len() > 0
    &&& forall|i: int| 0 <= i < s.len() ==> id_char(#[trigger] s[i]) || separator(s[i])
    &&& !separator(s[0])
    &&& !separator(s.last())
    &&& forall|i: int| 0 <= i < s.len() - 1 ==> !(separator(#[trigger] s[i]) && separator(s[i + 1]))
}

/// Lowercase ASCII letters and digits, in groups separated by `-` or `_`.
pub fn is_valid_id(s: &str) -> (r: bool)
    ensures
        r == valid_id(s@),
{
    let v = chars_of(s);
    let n = v.len();
    if n == 0 {
        return false;
    }
    let mut i: usize = 0;
    while i < n
        invariant
            v@ == s@,
            n == v.len(),
            n > 0,
            i <= n,
            forall|j: int| 0 <= j < i ==> id_char(#[trigger] s@[j]) || separator(s@[j]),
            i > 0 ==> !separator(s@[0]),
            forall|j: int| 0 <= j < i && separator(#[trigger] s@[j]) ==> j + 1 < n,
            forall|j: int| 0 <= j < i - 1 ==> !(separator(#[trigger] s@[j]) && separator(s@[j + 1])),
        decreases n - i,
    {
        let c = v[i];
        let sep = c == '-' || c == '_';
        let ok = ('a' <= c && c <= 'z') || ('0' <= c && c <= '9');
        if !ok && !sep {
            return false;
        }
        if sep && (i == 0 || i + 1 == n) {
            return false;
        }
        if sep && (v[i - 1] == '-' || v[i - 1] == '_') {
            assert(separator(s@[i - 1]) && separator(s@[(i - 1) + 1]));
            return false;
        }
        i = i + 1;
    }
    assert(!separator(s@[n - 1]));
    true
}

pub open spec fn digit(c: char) -> bool {
    '0' <= c <= '9'
}

pub open spec fn digit_value(c: char) -> int {
    c as int - '0' as int
}

/// `YYYY-MM-DD`: four, two and two ASCII digits joined by `-`, with a
/// month from 1 to 12 and a day from 1 to 31.
pub open spec fn iso_date(s: Seq<char>) -> bool {
    &&& s.len() == 10
    &&& s[4] == '-'
    &&& s[7] == '-'
    &&& forall|i: int| 0 <= i < 10 && i != 4 && i != 7 ==> digit(#[trigger] s[i])
    &&& 1 <= 10 * digit_value(s[5]) + digit_value(s[6]) <= 12
    &&& 1 <= 10 * digit_value(s[8]) + digit_value(s[9]) <= 31
}

fn digit_of(c: char) -> (r: u32)
    requires
        digit(c),
    ensures
        r == digit_value(c),
{
    (c as u32) - ('0' as u32)
}

/// An ISO date, `YYYY-MM-DD`, with a plausible month and day.
pub fn is_iso_date(s: &str) -> (r: bool)
    ensures
        r == iso_date(s@),
{
    let v = chars_of(s);
    if v.len() != 10 || v[4] != '-' || v[7] != '-' {
        return false;
    }
    let mut i: usize = 0;
    while i < 10
        invariant
            v@ == s@,
            v.len() == 10,
            i <= 10,
            forall|j: int| 0 <= j < i && j != 4 && j != 7 ==> digit(#[trigger] s@[j]),
        decreases 10 - i,
    {
        if i != 4 && i != 7 && !('0' <= v[i] && v[i] <= '9') {
            assert(!digit(s@[i as int]));
            return false;
        }
        i = i + 1;
    }
    let month = 10 * digit_of(v[5]) + digit_of(v[6]);
    let day = 10 * digit_of(v[8]) + digit_of(v[9]);
    1 <= month && month <= 12 && 1 <= day && day <= 31
}

/// A single error.
pub open spec fn error_finding(code: Code, message: Seq<char>) -> Seq<Finding> {
    seq![Finding { severity: Severity::Error, code, message }]
}

/// A single warning.
pub open spec fn warning_finding(code: Code, message: Seq<char>) -> Seq<Finding> {
    seq![Finding { severity: Severity::Warning, code, message }]
}

/// `s` where `cond` holds, nothing otherwise.
pub open spec fn provided(cond: bool, s: Seq<Finding>) -> Seq<Finding> {
    if cond {
        s
    } else {
        seq![]
    }
}

/// `f(0) + f(1) + ... + f(n - 1)`.
pub open spec fn gather(n: nat, f: spec_fn(int) -> Seq<Finding>) -> Seq<Finding>
    decreases n,
{
    if n == 0 {
        seq![]
    } else {
        gather((n - 1) as nat, f) + f(n - 1)
    }
}

// ---------------------------------------------------------------- header

pub open spec fn header_findings(spec: ProbeSpec) -> Seq<Finding> {
    provided(
        spec.spec_version@ != SPEC_VERSION@,
        error_finding(Code::UnsupportedVersion, msg_unsupported_version(spec.spec_version@)),
    ) + provided(blank(spec.title@), error_finding(Code::EmptyTitle, msg_empty_title()))
        + provided(blank(spec.claim.statement@), error_finding(Code::EmptyClaim, msg_empty_claim()))
        + provided(
        spec.claim.sources@.len() == 0,
        warning_finding(Code::ClaimWithoutSource, msg_claim_without_source()),
    )
}

fn check_header(spec: &ProbeSpec, report: &mut Report)
    ensures
        final(report)@ == old(report)@ + header_findings(*spec),
{
    if !same_str(spec.spec_version.as_str(), SPEC_VERSION) {
        report.error(Code::UnsupportedVersion, unsupported_version_message(spec.spec_version.as_str()));
    }
    if is_blank(spec.title.as_str()) {
        report.error(Code::EmptyTitle, empty_title_message());
    }
    if is_blank(spec.claim.statement.as_str()) {
        report.error(Code::EmptyClaim, empty_claim_message());
    }
    if spec.claim.sources.len() == 0 {
        report.warning(Code::ClaimWithoutSource, claim_without_source_message());
    }
    assert(final(report)@ =~= old(report)@ + header_findings(*spec));
}

// ----------------------------------------------------------- identifiers

pub open spec fn namespace_entry(kind: Seq<char>, ids: Seq<Seq<char>>, i: int) -> Seq<Finding> {
    provided(!valid_id(ids[i]), error_finding(Code::InvalidId, msg_invalid_id(kind, ids[i])))
        + provided(
        exists|j: int| 0 <= j < i && ids[j] == ids[i],
        error_finding(Code::DuplicateId, msg_duplicate_id(kind, ids[i])),
    )
}

/// Each id of one kind: invalid ones, and every repetition of an earlier one.
pub open spec fn namespace_findings(kind: Seq<char>, ids: Seq<Seq<char>>) -> Seq<Finding> {
    gather(ids.len(), |i: int| namespace_entry(kind, ids, i))
}

pub open spec fn texts(ids: Seq<&str>) -> Seq<Seq<char>> {
    Seq::new(ids.len(), |i: int| ids[i]@)
}

fn check_namespace(kind: &str, ids: &Vec<&str>, report: &mut Report)
    ensures
        final(report)@ == old(report)@ + namespace_findings(kind@, texts(ids@)),
{
    let ghost all = texts(ids@);
    let ghost f = |i: int| namespace_entry(kind@, all, i);
    let mut i: usize = 0;
    while i < ids.len()
        invariant
            i <= ids@.len(),
            all == texts(ids@),
            f == (|i: int| namespace_entry(kind@, all, i)),
            report@ == old(report)@ + gather(i as nat, f),
        decreases ids.len() - i,
    {
        let ghost before = report@;
        let id = ids[i];
        if !is_valid_id(id) {
            report.error(Code::InvalidId, invalid_id_message(kind, id));
        }
        let mut seen = false;
        let mut j: usize = 0;
        while j < i
            invariant
                j <= i < ids@.len(),
                all == texts(ids@),
                id == ids@[i as int],
                seen == exists|k: int| 0 <= k < j && all[k] == all[i as int],
            decreases i - j,
        {
            assert(all[j as int] == ids@[j as int]@);
            if same_str(ids[j], id) {
                seen = true;
            }
            j = j + 1;
        }
        if seen {
            report.error(Code::DuplicateId, duplicate_id_message(kind, id));
        }
        assert(report@ =~= before + f(i as int));
        i = i + 1;
    }
}

pub open spec fn hypothesis_ids(spec: ProbeSpec) -> Seq<Seq<char>> {
    spec.hypotheses@.map_values(|h: Hypothesis| h.id@)
}

pub open spec fn condition_ids(spec: ProbeSpec) -> Seq<Seq<char>> {
    spec.conditions@.map_values(|c: Condition| c.id@)
}

pub open spec fn metric_ids(spec: ProbeSpec) -> Seq<Seq<char>> {
    spec.metrics@.map_values(|m: Metric| m.id@)
}

pub open spec fn identifier_findings(spec: ProbeSpec) -> Seq<Finding> {
    provided(!valid_id(spec.id@), error_finding(Code::InvalidId, msg_invalid_id("probe"@, spec.id@)))
        + namespace_findings("hypothesis"@, hypothesis_ids(spec)) + namespace_findings(
        "condition"@,
        condition_ids(spec),
    ) + namespace_findings("metric"@, metric_ids(spec))
}

/// The items of a namespace: hypotheses, conditions and metrics.
pub trait Identified {
    spec fn ident(&self) -> Seq<char>;

    fn id_str(&self) -> (r: &str)
        ensures
            r@ == self.ident(),
    ;
}

impl Identified for Hypothesis {
    open spec fn ident(&self) -> Seq<char> {
        self.id@
    }

    fn id_str(&self) -> (r: &str) {
        self.id.as_str()
    }
}

impl Identified for Condition {
    open spec fn ident(&self) -> Seq<char> {
        self.id@
    }

    fn id_str(&self) -> (r: &str) {
        self.id.as_str()
    }
}

impl Identified for Metric {
    open spec fn ident(&self) -> Seq<char> {
        self.id@
    }

    fn id_str(&self) -> (r: &str) {
        self.id.as_str()
    }
}

/// The ids of `items`, in order.
fn ids_of<T: Identified>(items: &Vec<T>) -> (r: Vec<&str>)
    ensures
        texts(r@) == items@.map_values(|x: T| x.ident()),
{
    let mut ids: Vec<&str> = Vec::new();
    let mut i: usize = 0;
    while i < items.len()
        invariant
            i <= items@.len(),
            texts(ids@) == items@.map_values(|x: T| x.ident()).take(i as int),
        decreases items.len() - i,
    {
        let ghost before = ids@;
        ids.push(items[i].id_str());
        assert(texts(ids@) =~= texts(before).push(ids@[i as int]@));
        assert(items@.map_values(|x: T| x.ident()).take(i + 1) =~= items@.map_values(
            |x: T| x.ident(),
        ).take(i as int).push(items@[i as int].ident()));
        i = i + 1;
    }
    assert(items@.map_values(|x: T| x.ident()).take(items@.len() as int) =~= items@.map_values(
        |x: T| x.ident(),
    ));
    ids
}

/// `s` is one of `ids`.
fn contains_text(ids: &Vec<&str>, s: &str) -> (r: bool)
    ensures
        r == texts(ids@).contains(s@),
{
    let mut j: usize = 0;
    while j < ids.len()
        invariant
            j <= ids@.len(),
            forall|k: int| 0 <= k < j ==> #[trigger] texts(ids@)[k] != s@,
        decreases ids.len() - j,
    {
        if same_str(ids[j], s) {
            assert(texts(ids@)[j as int] == s@);
            return true;
        }
        j = j + 1;
    }
    false
}

fn check_identifiers(spec: &ProbeSpec, report: &mut Report)
    ensures
        final(report)@ == old(report)@ + identifier_findings(*spec),
{
    let ghost start = report@;
    if !is_valid_id(spec.id.as_str()) {
        report.error(Code::InvalidId, invalid_id_message("probe", spec.id.as_str()));
    }
    let hyps = ids_of(&spec.hypotheses);
    assert(texts(hyps@) =~= hypothesis_ids(*spec));
    check_namespace("hypothesis", &hyps, report);
    let conds = ids_of(&spec.conditions);
    assert(texts(conds@) =~= condition_ids(*spec));
    check_namespace("condition", &conds, report);
    let mets = ids_of(&spec.metrics);
    assert(texts(mets@) =~= metric_ids(*spec));
    check_namespace("metric", &mets, report);
    assert(report@ =~= start + identifier_findings(*spec));
}

// -------------------------------------------------------------- baseline

/// Ids of the conditions marked as baseline, in order.
pub open spec fn baseline_ids(cs: Seq<Condition>) -> Seq<Seq<char>>
    decreases cs.len(),
{
    if cs.len() == 0 {
        seq![]
    } else {
        let rest = baseline_ids(cs.drop_last());
        if cs.last().baseline {
            rest.push(cs.last().id@)
        } else {
            rest
        }
    }
}

pub open spec fn baseline_findings(spec: ProbeSpec) -> Seq<Finding> {
    let b = baseline_ids(spec.conditions@);
    if b.len() == 1 {
        seq![]
    } else if b.len() == 0 {
        error_finding(Code::NoBaseline, msg_no_baseline())
    } else {
        error_finding(Code::MultipleBaselines, msg_multiple_baselines(b))
    }
}

fn check_baseline(spec: &ProbeSpec, report: &mut Report)
    ensures
        final(report)@ == old(report)@ + baseline_findings(*spec),
{
    let mut baselines: Vec<&str> = Vec::new();
    let mut i: usize = 0;
    while i < spec.conditions.len()
        invariant
            i <= spec.conditions@.len(),
            texts(baselines@) == baseline_ids(spec.conditions@.take(i as int)),
        decreases spec.conditions.len() - i,
    {
        proof {
            assert(spec.conditions@.take(i + 1).drop_last() =~= spec.conditions@.take(i as int));
        }
        let ghost before = baselines@;
        if spec.conditions[i].baseline {
            baselines.push(spec.conditions[i].id.as_str());
            assert(texts(baselines@) =~= texts(before).push(baselines@[before.len() as int]@));
        }
        i = i + 1;
    }
    assert(spec.conditions@.take(spec.conditions@.len() as int) =~= spec.conditions@);
    if baselines.len() == 1 {
    } else if baselines.len() == 0 {
        report.error(Code::NoBaseline, no_baseline_message());
    } else {
        report.error(Code::MultipleBaselines, multiple_baselines_message(&baselines));
    }
    assert(final(report)@ =~= old(report)@ + baseline_findings(*spec));
}

// ----------------------------------------------------------- predictions

pub open spec fn declares_condition(spec: ProbeSpec, c: Seq<char>) -> bool {
    condition_ids(spec).contains(c)
}

pub open spec fn declares_metric(spec: ProbeSpec, m: Seq<char>) -> bool {
    metric_ids(spec).contains(m)
}

pub open spec fn all_finite(bounds: Seq<u64>) -> bool {
    forall|i: int| 0 <= i < bounds.len() ==> #[trigger] spec_finite(bounds[i])
}

/// The bounds of the expectation's interval, as displayed.
pub open spec fn bound_texts(e: Expectation) -> (Seq<char>, Seq<char>) {
    match e {
        Expectation::Below(x) => ("-inf"@, x.text@),
        Expectation::Above(x) => (x.text@, "inf"@),
        Expectation::Within(range) => (range[0].text@, range[1].text@),
    }
}

/// Both predictions are about the same condition and metric.
pub open spec fn same_key(p: Prediction, q: Prediction) -> bool {
    p.condition@ == q.condition@ && p.metric@ == q.metric@
}

pub open spec fn prediction_entry(spec: ProbeSpec, h: Hypothesis, k: int) -> Seq<Finding> {
    let p = h.predictions@[k];
    let iv = p.expect.spec_interval();
    provided(
        !declares_condition(spec, p.condition@),
        error_finding(Code::UnknownCondition, msg_unknown_condition(h.id@, p.condition@)),
    ) + provided(
        !declares_metric(spec, p.metric@),
        error_finding(Code::UnknownMetric, msg_unknown_metric(h.id@, p.metric@)),
    ) + (if !all_finite(p.expect.bound_bits()) {
        error_finding(
            Code::NonFiniteBound,
            msg_non_finite_bound(h.id@, p.metric@, p.condition@),
        )
    } else if spec_lt(iv.hi, iv.lo) {
        error_finding(
            Code::EmptyInterval,
            msg_empty_interval(
                h.id@,
                p.metric@,
                p.condition@,
                bound_texts(p.expect).0,
                bound_texts(p.expect).1,
            ),
        )
    } else {
        seq![]
    }) + provided(
        exists|j: int| 0 <= j < k && #[trigger] same_key(h.predictions@[j], p),
        error_finding(
            Code::DuplicatePrediction,
            msg_duplicate_prediction(h.id@, p.metric@, p.condition@),
        ),
    )
}

pub open spec fn hypothesis_entry(spec: ProbeSpec, h: Hypothesis) -> Seq<Finding> {
    provided(
        h.predictions@.len() == 0,
        error_finding(Code::HypothesisWithoutPredictions, msg_hypothesis_without_predictions(h.id@)),
    ) + gather(h.predictions@.len(), |k: int| prediction_entry(spec, h, k))
}

pub open spec fn prediction_findings(spec: ProbeSpec) -> Seq<Finding> {
    gather(spec.hypotheses@.len(), |i: int| hypothesis_entry(spec, spec.hypotheses@[i]))
}

fn bounds_finite(e: &Expectation) -> (r: bool)
    ensures
        r == all_finite(e.bound_bits()),
{
    let b = e.bounds();
    let mut i: usize = 0;
    while i < b.len()
        invariant
            b@ == e.bound_bits(),
            i <= b@.len(),
            forall|k: int| 0 <= k < i ==> #[trigger] spec_finite(b@[k]),
        decreases b.len() - i,
    {
        if !is_finite(b[i]) {
            return false;
        }
        i = i + 1;
    }
    true
}

fn bound_texts_of(e: &Expectation) -> (r: (&str, &str))
    ensures
        r.0@ == bound_texts(*e).0,
        r.1@ == bound_texts(*e).1,
{
    match e {
        Expectation::Below(x) => ("-inf", x.text.as_str()),
        Expectation::Above(x) => (x.text.as_str(), "inf"),
        Expectation::Within(range) => (range[0].text.as_str(), range[1].text.as_str()),
    }
}

fn check_prediction(
    spec: &ProbeSpec,
    conds: &Vec<&str>,
    mets: &Vec<&str>,
    h: &Hypothesis,
    k: usize,
    report: &mut Report,
)
    requires
        k < h.predictions@.len(),
        texts(conds@) == condition_ids(*spec),
        texts(mets@) == metric_ids(*spec),
    ensures
        final(report)@ == old(report)@ + prediction_entry(*spec, *h, k as int),
{
    let p = &h.predictions[k];
    if !contains_text(conds, p.condition.as_str()) {
        report.error(
            Code::UnknownCondition,
            unknown_condition_message(h.id.as_str(), p.condition.as_str()),
        );
    }
    if !contains_text(mets, p.metric.as_str()) {
        report.error(Code::UnknownMetric, unknown_metric_message(h.id.as_str(), p.metric.as_str()));
    }
    if !bounds_finite(&p.expect) {
        report.error(
            Code::NonFiniteBound,
            non_finite_bound_message(h.id.as_str(), p.metric.as_str(), p.condition.as_str()),
        );
    } else {
        let iv = p.expect.interval();
        if lt(iv.hi, iv.lo) {
            let texts = bound_texts_of(&p.expect);
            report.error(
                Code::EmptyInterval,
                empty_interval_message(
                    h.id.as_str(),
                    p.metric.as_str(),
                    p.condition.as_str(),
                    texts.0,
                    texts.1,
                ),
            );
        }
    }
    let mut seen = false;
    let mut j: usize = 0;
    while j < k
        invariant
            j <= k < h.predictions@.len(),
            *p == h.predictions@[k as int],
            seen == exists|i: int| 0 <= i < j && #[trigger] same_key(h.predictions@[i], *p),
        decreases k - j,
    {
        let q = &h.predictions[j];
        if same_text(&q.condition, &p.condition) && same_text(&q.metric, &p.metric) {
            assert(same_key(h.predictions@[j as int], *p));
            seen = true;
        }
        j = j + 1;
    }
    if seen {
        report.error(
            Code::DuplicatePrediction,
            duplicate_prediction_message(h.id.as_str(), p.metric.as_str(), p.condition.as_str()),
        );
    }
    assert(final(report)@ =~= old(report)@ + prediction_entry(*spec, *h, k as int));
}

fn check_hypothesis(
    spec: &ProbeSpec,
    conds: &Vec<&str>,
    mets: &Vec<&str>,
    h: &Hypothesis,
    report: &mut Report,
)
    requires
        texts(conds@) == condition_ids(*spec),
        texts(mets@) == metric_ids(*spec),
    ensures
        final(report)@ == old(report)@ + hypothesis_entry(*spec, *h),
{
    if h.predictions.len() == 0 {
        report.error(
            Code::HypothesisWithoutPredictions,
            hypothesis_without_predictions_message(h.id.as_str()),
        );
    }
    let ghost start = report@;
    let ghost f = |k: int| prediction_entry(*spec, *h, k);
    let mut k: usize = 0;
    while k < h.predictions.len()
        invariant
            k <= h.predictions@.len(),
            f == (|k: int| prediction_entry(*spec, *h, k)),
            texts(conds@) == condition_ids(*spec),
            texts(mets@) == metric_ids(*spec),
            report@ == start + gather(k as nat, f),
        decreases h.predictions.len() - k,
    {
        check_prediction(spec, conds, mets, h, k, report);
        assert(report@ =~= start + gather((k + 1) as nat, f));
        k = k + 1;
    }
    assert(final(report)@ =~= old(report)@ + hypothesis_entry(*spec, *h));
}

fn check_predictions(spec: &ProbeSpec, report: &mut Report)
    ensures
        final(report)@ == old(report)@ + prediction_findings(*spec),
{
    let conds = ids_of(&spec.conditions);
    assert(texts(conds@) =~= condition_ids(*spec));
    let mets = ids_of(&spec.metrics);
    assert(texts(mets@) =~= metric_ids(*spec));
    let ghost f = |i: int| hypothesis_entry(*spec, spec.hypotheses@[i]);
    let mut i: usize = 0;
    while i < spec.hypotheses.len()
        invariant
            i <= spec.hypotheses@.len(),
            f == (|i: int| hypothesis_entry(*spec, spec.hypotheses@[i])),
            texts(conds@) == condition_ids(*spec),
            texts(mets@) == metric_ids(*spec),
            report@ == old(report)@ + gather(i as nat, f),
        decreases spec.hypotheses.len() - i,
    {
        check_hypothesis(spec, &conds, &mets, &spec.hypotheses[i], report);
        assert(report@ =~= old(report)@ + gather((i + 1) as nat, f));
        i = i + 1;
    }
}

// -------------------------------------------------------- discrimination

/// A prediction whose bounds are finite and whose interval is not empty:
/// the ones that enter a hypothesis's prediction table.
pub open spec fn well_formed_prediction(p: Prediction) -> bool {
    all_finite(p.expect.bound_bits()) && spec_le(
        p.expect.spec_interval().lo,
        p.expect.spec_interval().hi,
    )
}

/// Index of the last well-formed prediction among the first `n` that is
/// about condition `c` and metric `m`, or -1 when there is none.
pub open spec fn last_well_formed(preds: Seq<Prediction>, c: Seq<char>, m: Seq<char>, n: int) -> int
    decreases n,
{
    if n <= 0 {
        -1
    } else if well_formed_prediction(preds[n - 1]) && preds[n - 1].condition@ == c
        && preds[n - 1].metric@ == m {
        n - 1
    } else {
        last_well_formed(preds, c, m, n - 1)
    }
}

/// The hypothesis's prediction table at (`c`, `m`): the interval of its
/// well-formed prediction about them, the last one written where there are
/// several.
pub open spec fn table_entry(h: Hypothesis, c: Seq<char>, m: Seq<char>) -> Option<Interval> {
    let k = last_well_formed(h.predictions@, c, m, h.predictions@.len() as int);
    if k >= 0 {
        Some(h.predictions@[k].expect.spec_interval())
    } else {
        None
    }
}

/// `a` and `b` are told apart: on some condition and metric both predict,
/// their intervals are disjoint, so any result contradicts one of them.
pub open spec fn discriminates(a: Hypothesis, b: Hypothesis) -> bool {
    exists|c: Seq<char>, m: Seq<char>|
        #![trigger table_entry(a, c, m), table_entry(b, c, m)]
        table_entry(a, c, m) is Some && table_entry(b, c, m) is Some && table_entry(
            a,
            c,
            m,
        )->0.disjoint(table_entry(b, c, m)->0)
}

/// Some condition and metric is crucial: it tells two of the hypotheses apart.
pub open spec fn has_crucial_condition(hs: Seq<Hypothesis>) -> bool {
    exists|i: int, j: int| 0 <= i < j < hs.len() && #[trigger] discriminates(hs[i], hs[j])
}

pub open spec fn pair_entry(hs: Seq<Hypothesis>, i: int, j: int) -> Seq<Finding> {
    provided(
        !discriminates(hs[i], hs[j]),
        warning_finding(Code::IndistinguishableHypotheses, msg_indistinguishable(hs[i].id@, hs[j].id@)),
    )
}

/// Warnings for the pairs (`i`, `j`) with `i < j` that nothing tells apart.
pub open spec fn pairs_from(hs: Seq<Hypothesis>, i: int) -> Seq<Finding> {
    gather((hs.len() - (i + 1)) as nat, |t: int| pair_entry(hs, i, i + 1 + t))
}

pub open spec fn discrimination_findings(spec: ProbeSpec) -> Seq<Finding> {
    let hs = spec.hypotheses@;
    if hs.len() < 2 {
        error_finding(Code::NoRivalHypotheses, msg_no_rival_hypotheses(hs.len()))
    } else if !has_crucial_condition(hs) {
        error_finding(Code::NoCrucialCondition, msg_no_crucial_condition())
    } else {
        gather(hs.len(), |i: int| pairs_from(hs, i))
    }
}

proof fn lemma_last_well_formed(preds: Seq<Prediction>, c: Seq<char>, m: Seq<char>, n: int)
    ensures
        last_well_formed(preds, c, m, n) == -1 || {
            let k = last_well_formed(preds, c, m, n);
            &&& 0 <= k < n
            &&& well_formed_prediction(preds[k])
            &&& preds[k].condition@ == c
            &&& preds[k].metric@ == m
        },
    decreases n,
{
    if n > 0 {
        lemma_last_well_formed(preds, c, m, n - 1);
    }
}

fn is_well_formed_prediction(p: &Prediction) -> (r: bool)
    ensures
        r == well_formed_prediction(*p),
{
    if !bounds_finite(&p.expect) {
        return false;
    }
    let iv = p.expect.interval();
    le(iv.lo, iv.hi)
}

fn last_well_formed_index(preds: &Vec<Prediction>, c: &String, m: &String) -> (r: Option<usize>)
    ensures
        match r {
            Some(k) => last_well_formed(preds@, c@, m@, preds@.len() as int) == k as int,
            None => last_well_formed(preds@, c@, m@, preds@.len() as int) == -1,
        },
{
    let mut j: usize = preds.len();
    while j > 0
        invariant
            j <= preds@.len(),
            last_well_formed(preds@, c@, m@, preds@.len() as int) == last_well_formed(
                preds@,
                c@,
                m@,
                j as int,
            ),
        decreases j,
    {
        let p = &preds[j - 1];
        if is_well_formed_prediction(p) && same_text(&p.condition, c) && same_text(&p.metric, m) {
            return Some(j - 1);
        }
        j = j - 1;
    }
    None
}

fn discriminated(a: &Hypothesis, b: &Hypothesis) -> (r: bool)
    ensures
        r == discriminates(*a, *b),
{
    let mut i: usize = 0;
    while i < a.predictions.len()
        invariant
            i <= a.predictions@.len(),
            forall|k: int|
                #![trigger a.predictions@[k]]
                0 <= k < i && well_formed_prediction(a.predictions@[k]) && last_well_formed(
                    a.predictions@,
                    a.predictions@[k].condition@,
                    a.predictions@[k].metric@,
                    a.predictions@.len() as int,
                ) == k ==> {
                    let c = a.predictions@[k].condition@;
                    let m = a.predictions@[k].metric@;
                    !(table_entry(*b, c, m) is Some && table_entry(*a, c, m)->0.disjoint(
                        table_entry(*b, c, m)->0,
                    ))
                },
        decreases a.predictions.len() - i,
    {
        let p = &a.predictions[i];
        if is_well_formed_prediction(p) {
            if let Some(k) = last_well_formed_index(&a.predictions, &p.condition, &p.metric) {
                if k == i {
                    if let Some(l) = last_well_formed_index(&b.predictions, &p.condition, &p.metric) {
                        proof {
                            lemma_last_well_formed(
                                b.predictions@,
                                p.condition@,
                                p.metric@,
                                b.predictions@.len() as int,
                            );
                        }
                        let ia = p.expect.interval();
                        let ib = b.predictions[l].expect.interval();
                        if ia.is_disjoint_from(&ib) {
                            let ghost c = p.condition@;
                            let ghost m = p.metric@;
                            assert(table_entry(*a, c, m) is Some && table_entry(*b, c, m) is Some);
                            return true;
                        }
                    }
                }
            }
        }
        i = i + 1;
    }
    proof {
        if discriminates(*a, *b) {
            let (c, m) = choose|c: Seq<char>, m: Seq<char>|
                #![trigger table_entry(*a, c, m), table_entry(*b, c, m)]
                table_entry(*a, c, m) is Some && table_entry(*b, c, m) is Some && table_entry(
                    *a,
                    c,
                    m,
                )->0.disjoint(table_entry(*b, c, m)->0);
            lemma_last_well_formed(a.predictions@, c, m, a.predictions@.len() as int);
            let k = last_well_formed(a.predictions@, c, m, a.predictions@.len() as int);
            assert(a.predictions@[k].condition@ == c);
        }
    }
    false
}

/// Whether hypothesis `i` is told apart from some later one.
fn discriminated_from_later(hs: &Vec<Hypothesis>, i: usize) -> (r: bool)
    requires
        i < hs@.len(),
    ensures
        r == exists|j: int| i < j < hs@.len() && #[trigger] discriminates(hs@[i as int], hs@[j]),
{
    let n = hs.len();
    let mut j: usize = i + 1;
    while j < n
        invariant
            n == hs@.len(),
            i < j <= hs@.len(),
            forall|k: int| i < k < j ==> !#[trigger] discriminates(hs@[i as int], hs@[k]),
        decreases n - j,
    {
        if discriminated(&hs[i], &hs[j]) {
            return true;
        }
        j = j + 1;
    }
    false
}

fn warn_pairs_from(hs: &Vec<Hypothesis>, i: usize, report: &mut Report)
    requires
        i < hs@.len(),
    ensures
        final(report)@ == old(report)@ + pairs_from(hs@, i as int),
{
    let ghost f = |t: int| pair_entry(hs@, i as int, i + 1 + t);
    let n = hs.len();
    let mut j: usize = i + 1;
    while j < n
        invariant
            n == hs@.len(),
            i < j <= hs@.len(),
            f == (|t: int| pair_entry(hs@, i as int, i + 1 + t)),
            report@ == old(report)@ + gather((j - (i + 1)) as nat, f),
        decreases n - j,
    {
        let ghost before = report@;
        if !discriminated(&hs[i], &hs[j]) {
            report.warning(
                Code::IndistinguishableHypotheses,
                indistinguishable_message(hs[i].id.as_str(), hs[j].id.as_str()),
            );
        }
        assert(f((j - (i + 1)) as int) == pair_entry(hs@, i as int, j as int));
        assert(report@ =~= old(report)@ + gather((j + 1 - (i + 1)) as nat, f));
        j = j + 1;
    }
}

fn check_discrimination(spec: &ProbeSpec, report: &mut Report)
    ensures
        final(report)@ == old(report)@ + discrimination_findings(*spec),
{
    let hs = &spec.hypotheses;
    let n = hs.len();
    if n < 2 {
        report.error(Code::NoRivalHypotheses, no_rival_hypotheses_message(n));
        return;
    }
    let mut crucial = false;
    let mut i: usize = 0;
    while i < n
        invariant
            n == hs@.len(),
            i <= n,
            crucial == exists|a: int, b: int| 0 <= a < i && a < b < n && #[trigger] discriminates(hs@[a], hs@[b]),
        decreases n - i,
    {
        if discriminated_from_later(hs, i) {
            crucial = true;
        }
        i = i + 1;
    }
    if !crucial {
        report.error(Code::NoCrucialCondition, no_crucial_condition_message());
        return;
    }
    let ghost f = |i: int| pairs_from(hs@, i);
    let mut i: usize = 0;
    while i < n
        invariant
            n == hs@.len(),
            i <= n,
            f == (|i: int| pairs_from(hs@, i)),
            has_crucial_condition(hs@),
            report@ == old(report)@ + gather(i as nat, f),
        decreases n - i,
    {
        warn_pairs_from(hs, i, report);
        assert(report@ =~= old(report)@ + gather((i + 1) as nat, f));
        i = i + 1;
    }
}

// -------------------------------------------------------------- coverage

/// The condition of a prediction, or its metric.
pub open spec fn prediction_part(p: Prediction, on_metric: bool) -> Seq<char> {
    if on_metric {
        p.metric@
    } else {
        p.condition@
    }
}

/// Some hypothesis predicts something under condition `t` (`on_metric`
/// false), or predicts metric `t` (`on_metric` true).
pub open spec fn predicted(spec: ProbeSpec, t: Seq<char>, on_metric: bool) -> bool {
    exists|i: int, k: int|
        0 <= i < spec.hypotheses@.len() && 0 <= k < spec.hypotheses@[i].predictions@.len()
            && #[trigger] prediction_part(spec.hypotheses@[i].predictions@[k], on_metric) == t
}

pub open spec fn unused_condition_entry(spec: ProbeSpec, i: int) -> Seq<Finding> {
    let c = spec.conditions@[i];
    provided(
        !c.baseline && !predicted(spec, c.id@, false),
        warning_finding(Code::UnusedCondition, msg_unused_condition(c.id@)),
    )
}

pub open spec fn unused_metric_entry(spec: ProbeSpec, i: int) -> Seq<Finding> {
    let m = spec.metrics@[i];
    provided(
        !predicted(spec, m.id@, true),
        warning_finding(Code::UnusedMetric, msg_unused_metric(m.id@)),
    )
}

pub open spec fn coverage_findings(spec: ProbeSpec) -> Seq<Finding> {
    gather(spec.conditions@.len(), |i: int| unused_condition_entry(spec, i)) + gather(
        spec.metrics@.len(),
        |i: int| unused_metric_entry(spec, i),
    )
}

fn predicts(spec: &ProbeSpec, t: &String, on_metric: bool) -> (r: bool)
    ensures
        r == predicted(*spec, t@, on_metric),
{
    let hs = &spec.hypotheses;
    let mut i: usize = 0;
    while i < hs.len()
        invariant
            i <= hs@.len(),
            hs@ == spec.hypotheses@,
            forall|a: int, k: int|
                0 <= a < i && 0 <= k < hs@[a].predictions@.len() ==> #[trigger] prediction_part(
                    hs@[a].predictions@[k],
                    on_metric,
                ) != t@,
        decreases hs.len() - i,
    {
        let preds = &hs[i].predictions;
        let mut k: usize = 0;
        while k < preds.len()
            invariant
                i < hs@.len(),
                hs@ == spec.hypotheses@,
                k <= preds@.len(),
                *preds == hs@[i as int].predictions,
                forall|b: int| 0 <= b < k ==> #[trigger] prediction_part(preds@[b], on_metric) != t@,
            decreases preds.len() - k,
        {
            let p = &preds[k];
            let part = if on_metric {
                &p.metric
            } else {
                &p.condition
            };
            if same_text(part, t) {
                assert(prediction_part(spec.hypotheses@[i as int].predictions@[k as int], on_metric)
                    == t@);
                return true;
            }
            k = k + 1;
        }
        assert forall|a: int, k: int|
            0 <= a < i + 1 && 0 <= k < hs@[a].predictions@.len() implies #[trigger] prediction_part(
            hs@[a].predictions@[k],
            on_metric,
        ) != t@ by {
            if a == i {
                assert(preds@[k] == hs@[a].predictions@[k]);
                assert(prediction_part(preds@[k], on_metric) != t@);
            }
        }
        i = i + 1;
    }
    false
}

fn check_coverage(spec: &ProbeSpec, report: &mut Report)
    ensures
        final(report)@ == old(report)@ + coverage_findings(*spec),
{
    let ghost f = |i: int| unused_condition_entry(*spec, i);
    let mut i: usize = 0;
    while i < spec.conditions.len()
        invariant
            i <= spec.conditions@.len(),
            f == (|i: int| unused_condition_entry(*spec, i)),
            report@ == old(report)@ + gather(i as nat, f),
        decreases spec.conditions.len() - i,
    {
        let c = &spec.conditions[i];
        if !c.baseline && !predicts(spec, &c.id, false) {
            report.warning(Code::UnusedCondition, unused_condition_message(c.id.as_str()));
        }
        assert(report@ =~= old(report)@ + gather((i + 1) as nat, f));
        i = i + 1;
    }
    let ghost mid = report@;
    let ghost g = |i: int| unused_metric_entry(*spec, i);
    let mut i: usize = 0;
    while i < spec.metrics.len()
        invariant
            i <= spec.metrics@.len(),
            g == (|i: int| unused_metric_entry(*spec, i)),
            report@ == mid + gather(i as nat, g),
        decreases spec.metrics.len() - i,
    {
        let m = &spec.metrics[i];
        if !predicts(spec, &m.id, true) {
            report.warning(Code::UnusedMetric, unused_metric_message(m.id.as_str()));
        }
        assert(report@ =~= mid + gather((i + 1) as nat, g));
        i = i + 1;
    }
    assert(final(report)@ =~= old(report)@ + coverage_findings(*spec));
}

// ------------------------------------------------------------- execution

pub open spec fn execution_findings(spec: ProbeSpec) -> Seq<Finding> {
    provided(
        spec.sampling.n_per_condition == 0,
        error_finding(Code::EmptySample, msg_empty_sample()),
    ) + provided(
        blank(spec.generator.path@),
        error_finding(Code::MissingGenerator, msg_missing_generator()),
    )
}

fn check_execution(spec: &ProbeSpec, report: &mut Report)
    ensures
        final(report)@ == old(report)@ + execution_findings(*spec),
{
    if spec.sampling.n_per_condition == 0 {
        report.error(Code::EmptySample, empty_sample_message());
    }
    if is_blank(spec.generator.path.as_str()) {
        report.error(Code::MissingGenerator, missing_generator_message());
    }
    assert(final(report)@ =~= old(report)@ + execution_findings(*spec));
}

// ------------------------------------------------------- preregistration

/// The hash of a spec's canonical content, as [`spec_hash`] computes it.
pub open spec fn current_hash(canonical: Seq<u8>) -> Seq<char> {
    hash_text_of(sha256(canonical))
}

/// Findings on the preregistration block, given the hash `current` that
/// the spec has now.
pub open spec fn preregistration_findings(spec: ProbeSpec, current: Seq<char>) -> Seq<Finding> {
    match spec.preregistration {
        None => seq![],
        Some(pr) => provided(
            !iso_date(pr.registered@),
            error_finding(Code::InvalidDate, msg_invalid_date(pr.registered@)),
        ) + if !well_formed_hash(pr.spec_hash@) {
            error_finding(Code::MalformedHash, msg_malformed_hash())
        } else {
            provided(
                !same_ignoring_ascii_case(pr.spec_hash@, current),
                error_finding(
                    Code::SpecChangedAfterPreregistration,
                    msg_spec_changed(pr.registered@, pr.spec_hash@, current),
                ),
            )
        },
    }
}

fn check_preregistration(spec: &ProbeSpec, current: &str, report: &mut Report)
    ensures
        final(report)@ == old(report)@ + preregistration_findings(*spec, current@),
{
    let prereg = match &spec.preregistration {
        Some(pr) => pr,
        None => {
            assert(final(report)@ =~= old(report)@ + preregistration_findings(*spec, current@));
            return;
        },
    };
    if !is_iso_date(prereg.registered.as_str()) {
        report.error(Code::InvalidDate, invalid_date_message(prereg.registered.as_str()));
    }
    if !is_well_formed(prereg.spec_hash.as_str()) {
        report.error(Code::MalformedHash, malformed_hash_message());
        assert(final(report)@ =~= old(report)@ + preregistration_findings(*spec, current@));
        return;
    }
    if !eq_ignore_ascii_case(prereg.spec_hash.as_str(), current) {
        report.error(
            Code::SpecChangedAfterPreregistration,
            spec_changed_message(prereg.registered.as_str(), prereg.spec_hash.as_str(), current),
        );
    }
    assert(final(report)@ =~= old(report)@ + preregistration_findings(*spec, current@));
}

// -------------------------------------------------------------- validate

/// Every finding, in the order the checks make them.
pub open spec fn findings(spec: ProbeSpec, current: Seq<char>) -> Seq<Finding> {
    header_findings(spec) + identifier_findings(spec) + baseline_findings(spec)
        + prediction_findings(spec) + discrimination_findings(spec) + coverage_findings(spec)
        + execution_findings(spec) + preregistration_findings(spec, current)
}

fn sorted(diagnostics: &Vec<Diagnostic>) -> (r: Vec<Diagnostic>)
    ensures
        r@.map_values(|d: Diagnostic| d@) == errors_first(diagnostics@.map_values(|d: Diagnostic| d@)),
{
    let ghost all = diagnostics@.map_values(|d: Diagnostic| d@);
    let mut errors: Vec<Diagnostic> = Vec::new();
    let mut warnings: Vec<Diagnostic> = Vec::new();
    let mut i: usize = 0;
    while i < diagnostics.len()
        invariant
            i <= diagnostics@.len(),
            all == diagnostics@.map_values(|d: Diagnostic| d@),
            errors@.map_values(|d: Diagnostic| d@) == of_severity(all.take(i as int), Severity::Error),
            warnings@.map_values(|d: Diagnostic| d@) == of_severity(
                all.take(i as int),
                Severity::Warning,
            ),
        decreases diagnostics.len() - i,
    {
        proof {
            assert(all.take(i + 1).drop_last() =~= all.take(i as int));
        }
        let d = diagnostics[i].copy();
        let ghost e0 = errors@;
        let ghost w0 = warnings@;
        if d.severity == Severity::Error {
            errors.push(d);
            assert(errors@.map_values(|d: Diagnostic| d@) =~= e0.map_values(|d: Diagnostic| d@).push(
                all[i as int],
            ));
        } else {
            warnings.push(d);
            assert(warnings@.map_values(|d: Diagnostic| d@) =~= w0.map_values(
                |d: Diagnostic| d@,
            ).push(all[i as int]));
        }
        i = i + 1;
    }
    assert(all.take(diagnostics@.len() as int) =~= all);
    let ghost e1 = errors@;
    let ghost w1 = warnings@;
    errors.append(&mut warnings);
    assert(errors@.map_values(|d: Diagnostic| d@) =~= e1.map_values(|d: Diagnostic| d@)
        + w1.map_values(|d: Diagnostic| d@));
    errors
}

/// Checks a spec whose canonical content currently hashes to
/// `current_hash`. The report lists every finding, errors first, each group
/// in the order the checks found them.
pub fn validate_with_hash(spec: &ProbeSpec, current_hash: &str) -> (r: Report)
    ensures
        r@ == errors_first(findings(*spec, current_hash@)),
{
    let mut report = Report::default();
    check_header(spec, &mut report);
    check_identifiers(spec, &mut report);
    check_baseline(spec, &mut report);
    check_predictions(spec, &mut report);
    check_discrimination(spec, &mut report);
    check_coverage(spec, &mut report);
    check_execution(spec, &mut report);
    check_preregistration(spec, current_hash, &mut report);
    assert(report@ =~= findings(*spec, current_hash@));
    Report { diagnostics: sorted(&report.diagnostics) }
}

/// Checks a parsed spec. Parsing already rejected unknown fields and
/// missing required ones; this checks everything the types cannot express.
/// `canonical` is the spec's canonical content, the bytes its hash is taken
/// over (see [`crate::hash`]): a preregistered spec is checked against the
/// hash it has now.
pub fn validate(spec: &ProbeSpec, canonical: &[u8]) -> (r: Report)
    ensures
        r@ == errors_first(findings(*spec, current_hash(canonical@))),
        well_formed_hash(current_hash(canonical@)),
        // a spec locked with the hash of its content (hex digits in either
        // case) on a valid date validates exactly as it would unlocked
        locked_with(*spec, current_hash(canonical@)) ==> r@ == errors_first(findings(spec.unlocked(), current_hash(canonical@))),
{
    let current = spec_hash(canonical);
    proof {
        if locked_with(*spec, current@) {
            law_locked_spec_validates_as_unlocked(*spec, current@);
        }
    }
    validate_with_hash(spec, current.as_str())
}

} // verus!
