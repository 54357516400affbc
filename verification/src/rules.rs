//! The validation rules, stated over the spec's own fields and characters:
//! what each rule accepts and refuses, for every input.
use vstd::prelude::*;

use crate::laws::{
    mentions, law_crucial_condition_required, law_exactly_one_baseline, lemma_mentions_by_source,
    lemma_mentions_gather, lemma_mentions_one, lemma_mentions_concat,
};
use crate::number::{Number, spec_finite, spec_lt, spec_le};
use crate::spec::{Condition, Expectation, Hypothesis, Prediction, ProbeSpec};
use crate::validate::{
    Code, Finding, Severity, of_severity, errors_first, findings, baseline_ids, last_well_formed, provided, error_finding,
    hypothesis_entry, prediction_entry, gather, namespace_findings, namespace_entry, iso_date, valid_id, table_entry, discriminates,
    has_crucial_condition,
};

verus! {

// ------------------------------------------------------- crucial condition

/// The rule the validator exists for, over every pair of hypotheses: with
/// at least two hypotheses, a report says `no-crucial-condition` exactly
/// when no two hypotheses `i < j`, adjacent or not, have a condition and
/// metric that both predict with disjoint intervals.
pub proof fn law_crucial_condition_over_every_pair(spec: ProbeSpec, current: Seq<char>)
    ensures
        mentions(errors_first(findings(spec, current)), Code::NoCrucialCondition) <==> {
            let hs = spec.hypotheses@;
            &&& hs.len() >= 2
            &&& !exists|i: int, j: int, c: Seq<char>, m: Seq<char>|
                #![trigger table_entry(hs[i], c, m), table_entry(hs[j], c, m)]
                0 <= i < j < hs.len() && table_entry(hs[i], c, m) is Some && table_entry(
                    hs[j],
                    c,
                    m,
                ) is Some && table_entry(hs[i], c, m)->0.disjoint(table_entry(hs[j], c, m)->0)
        },
{
    law_crucial_condition_required(spec, current);
    let hs = spec.hypotheses@;
    if has_crucial_condition(hs) {
        let (i, j) = choose|i: int, j: int| 0 <= i < j < hs.len() && #[trigger] discriminates(hs[i], hs[j]);
        let (c, m) = choose|c: Seq<char>, m: Seq<char>|
            #![trigger table_entry(hs[i], c, m), table_entry(hs[j], c, m)]
            table_entry(hs[i], c, m) is Some && table_entry(hs[j], c, m) is Some && table_entry(
                hs[i],
                c,
                m,
            )->0.disjoint(table_entry(hs[j], c, m)->0);
        assert(table_entry(hs[i], c, m) is Some && table_entry(hs[j], c, m) is Some);
    }
    if exists|i: int, j: int, c: Seq<char>, m: Seq<char>|
        #![trigger table_entry(hs[i], c, m), table_entry(hs[j], c, m)]
        0 <= i < j < hs.len() && table_entry(hs[i], c, m) is Some && table_entry(hs[j], c, m) is Some
            && table_entry(hs[i], c, m)->0.disjoint(table_entry(hs[j], c, m)->0) {
        let (i, j, c, m) = choose|i: int, j: int, c: Seq<char>, m: Seq<char>|
            #![trigger table_entry(hs[i], c, m), table_entry(hs[j], c, m)]
            0 <= i < j < hs.len() && table_entry(hs[i], c, m) is Some && table_entry(hs[j], c, m) is Some
                && table_entry(hs[i], c, m)->0.disjoint(table_entry(hs[j], c, m)->0);
        assert(discriminates(hs[i], hs[j]));
    }
}

/// A prediction whose bounds are all finite and whose interval has its
/// lower bound at most its upper one.
pub open spec fn usable(p: Prediction) -> bool {
    &&& forall|b: int| 0 <= b < p.expect.bound_bits().len() ==> spec_finite(#[trigger] p.expect.bound_bits()[b])
    &&& spec_le(p.expect.spec_interval().lo, p.expect.spec_interval().hi)
}

proof fn lemma_last_usable(preds: Seq<Prediction>, c: Seq<char>, m: Seq<char>, n: int)
    requires
        0 <= n <= preds.len(),
    ensures
        ({
            let k = last_well_formed(preds, c, m, n);
            &&& k == -1 <==> !exists|j: int|
                0 <= j < n && usable(#[trigger] preds[j]) && preds[j].condition@ == c
                    && preds[j].metric@ == m
            &&& k != -1 ==> {
                &&& 0 <= k < n
                &&& usable(preds[k])
                &&& preds[k].condition@ == c
                &&& preds[k].metric@ == m
                &&& forall|j: int|
                    k < j < n ==> !(usable(#[trigger] preds[j]) && preds[j].condition@ == c
                        && preds[j].metric@ == m)
            }
        }),
    decreases n,
{
    if n > 0 {
        lemma_last_usable(preds, c, m, n - 1);
        assert(usable(preds[n - 1]) == crate::validate::well_formed_prediction(preds[n - 1]));
    }
}

/// A hypothesis's prediction table holds, for a condition and metric, the
/// interval of the last prediction about them whose bounds are finite and
/// in order; it holds nothing when there is no such prediction.
pub proof fn law_table_holds_last_usable_prediction(h: Hypothesis, c: Seq<char>, m: Seq<char>)
    ensures
        table_entry(h, c, m) is None <==> !exists|j: int|
            0 <= j < h.predictions@.len() && usable(#[trigger] h.predictions@[j])
                && h.predictions@[j].condition@ == c && h.predictions@[j].metric@ == m,
        table_entry(h, c, m) matches Some(iv) ==> exists|k: int|
            0 <= k < h.predictions@.len() && usable(#[trigger] h.predictions@[k])
                && h.predictions@[k].condition@ == c && h.predictions@[k].metric@ == m
                && iv == h.predictions@[k].expect.spec_interval() && forall|j: int|
                k < j < h.predictions@.len() ==> !(usable(#[trigger] h.predictions@[j])
                    && h.predictions@[j].condition@ == c && h.predictions@[j].metric@ == m),
{
    let preds = h.predictions@;
    lemma_last_usable(preds, c, m, preds.len() as int);
    let k = last_well_formed(preds, c, m, preds.len() as int);
    if k != -1 {
        assert(usable(preds[k]));
    }
}

// ------------------------------------------------------------ expectations

/// The map form is read by its key names: `below` gives `Below`, `above`
/// gives `Above`, `within` gives `Within`, each with the number written
/// under it; `below: x` accepts exactly the values under `x`, `above: x`
/// exactly those over it, and `within: [a, b]` those from `a` to `b`.
pub proof fn law_keys_name_their_bounds(x: Number, range: [Number; 2], v: u64)
    ensures
        Expectation::spec_from_parts(Some(x), None, None) == Some(Expectation::Below(x)),
        Expectation::spec_from_parts(None, Some(x), None) == Some(Expectation::Above(x)),
        Expectation::spec_from_parts(None, None, Some(range)) == Some(Expectation::Within(range)),
        spec_finite(v) ==> (Expectation::Below(x).spec_interval().admits(v) <==> spec_lt(v, x.bits)),
        spec_finite(v) ==> (Expectation::Above(x).spec_interval().admits(v) <==> spec_lt(x.bits, v)),
        Expectation::Within(range).spec_interval().admits(v) <==> (spec_le(range[0].bits, v)
            && spec_le(v, range[1].bits)),
        Expectation::spec_from_parts(Some(x), Some(x), None) is None,
        Expectation::spec_from_parts(Some(x), None, Some(range)) is None,
        Expectation::spec_from_parts(None, Some(x), Some(range)) is None,
        Expectation::spec_from_parts(Some(x), Some(x), Some(range)) is None,
        Expectation::spec_from_parts(None, None, None) is None,
        Expectation::Below(x).spec_into_parts() == (Some(x), None::<Number>, None::<[Number; 2]>),
        Expectation::Above(x).spec_into_parts() == (None::<Number>, Some(x), None::<[Number; 2]>),
{
}

// ------------------------------------------------------------------ dates

/// A date has the shape `DDDD-DD-DD` of ASCII digits `0`..=`9` and dashes.
pub proof fn law_iso_date_shape(s: Seq<char>)
    ensures
        iso_date(s) ==> {
            &&& s.len() == 10
            &&& s[4] == '-'
            &&& s[7] == '-'
            &&& forall|i: int| 0 <= i < 10 && i != 4 && i != 7 ==> '0' <= #[trigger] s[i] <= '9'
        },
{
}

/// Every text of that shape is a date exactly when its month (the digits
/// after the first dash) is from 1 to 12 and its day (the last two digits)
/// from 1 to 31; nothing else about its digits matters.
pub proof fn law_iso_date_by_month_and_day(s: Seq<char>)
    requires
        s.len() == 10,
        s[4] == '-',
        s[7] == '-',
        forall|i: int| 0 <= i < 10 && i != 4 && i != 7 ==> '0' <= #[trigger] s[i] <= '9',
    ensures
        iso_date(s) <==> {
            let month = 10 * (s[5] as int - 48) + (s[6] as int - 48);
            let day = 10 * (s[8] as int - 48) + (s[9] as int - 48);
            1 <= month <= 12 && 1 <= day <= 31
        },
{
}

// -------------------------------------------------------------------- ids

pub open spec fn lowercase_or_digit(c: char) -> bool {
    ('a' <= c <= 'z') || ('0' <= c <= '9')
}

/// An id holds only lowercase ASCII letters, ASCII digits, `-` and `_`.
pub proof fn law_id_characters(s: Seq<char>)
    ensures
        valid_id(s) ==> s.len() > 0 && forall|i: int|
            0 <= i < s.len() ==> lowercase_or_digit(#[trigger] s[i]) || s[i] == '-' || s[i] == '_',
{
}

/// Every nonempty run of lowercase ASCII letters and digits is an id.
pub proof fn law_group_is_id(s: Seq<char>)
    requires
        s.len() > 0,
        forall|i: int| 0 <= i < s.len() ==> lowercase_or_digit(#[trigger] s[i]),
    ensures
        valid_id(s),
{
    assert(lowercase_or_digit(s[0]));
    assert(lowercase_or_digit(s[s.len() - 1]));
    assert forall|i: int| 0 <= i < s.len() - 1 implies !(crate::validate::separator(#[trigger] s[i])
        && crate::validate::separator(s[i + 1])) by {
        assert(lowercase_or_digit(s[i]));
    }
}

/// Ids join: two texts joined by a single `-` or `_` form an id exactly
/// when each of them is one.
pub proof fn law_ids_join(a: Seq<char>, b: Seq<char>, sep: char)
    requires
        sep == '-' || sep == '_',
    ensures
        valid_id(a + seq![sep] + b) <==> valid_id(a) && valid_id(b),
{
    let t = a + seq![sep] + b;
    let n: int = a.len() as int;
    assert(t.len() == a.len() + 1 + b.len());
    assert forall|i: int| 0 <= i < n implies #[trigger] t[i] == a[i] by {}
    assert(t[n] == sep);
    assert forall|i: int| 0 <= i < b.len() implies #[trigger] t[n + 1 + i] == b[i] by {}
    if valid_id(a) && valid_id(b) {
        assert forall|i: int| 0 <= i < t.len() implies crate::validate::id_char(#[trigger] t[i])
            || crate::validate::separator(t[i]) by {
            if i < n {
                assert(t[i] == a[i]);
            } else if i > n {
                assert(t[i] == b[i - n - 1]);
            }
        }
        assert(t.last() == b.last());
        assert forall|i: int| 0 <= i < t.len() - 1 implies !(crate::validate::separator(
            #[trigger] t[i],
        ) && crate::validate::separator(t[i + 1])) by {
            if i < n - 1 {
                assert(t[i] == a[i] && t[i + 1] == a[i + 1]);
            } else if i == n - 1 {
                assert(t[i] == a.last());
            } else if i == n {
                assert(t[i + 1] == b[0]);
            } else {
                assert(t[i] == b[i - n - 1] && t[i + 1] == b[i - n]);
            }
        }
    }
    if valid_id(t) {
        assert(n > 0) by {
            if n == 0 {
                assert(t[0] == sep);
            }
        }
        assert(b.len() > 0) by {
            if b.len() == 0 {
                assert(t.last() == sep);
            }
        }
        assert(a.last() == t[n - 1]);
        assert(!crate::validate::separator(t[n - 1]) || !crate::validate::separator(t[n - 1 + 1]));
        assert(b[0] == t[n + 1]);
        assert(!crate::validate::separator(t[n]) || !crate::validate::separator(t[n + 1]));
        assert(b.last() == t.last());
        assert forall|i: int| 0 <= i < a.len() implies crate::validate::id_char(#[trigger] a[i])
            || crate::validate::separator(a[i]) by {
            assert(t[i] == a[i]);
        }
        assert forall|i: int| 0 <= i < a.len() - 1 implies !(crate::validate::separator(
            #[trigger] a[i],
        ) && crate::validate::separator(a[i + 1])) by {
            assert(t[i] == a[i] && t[i + 1] == a[i + 1]);
        }
        assert forall|i: int| 0 <= i < b.len() implies crate::validate::id_char(#[trigger] b[i])
            || crate::validate::separator(b[i]) by {
            assert(t[n + 1 + i] == b[i]);
        }
        assert forall|i: int| 0 <= i < b.len() - 1 implies !(crate::validate::separator(
            #[trigger] b[i],
        ) && crate::validate::separator(b[i + 1])) by {
            assert(t[n + 1 + i] == b[i] && t[n + 1 + i + 1] == b[i + 1]);
        }
    }
}

// --------------------------------------------------------------- baseline

proof fn lemma_baseline_count(cs: Seq<Condition>)
    ensures
        (baseline_ids(cs).len() == 0) <==> forall|i: int| 0 <= i < cs.len() ==> !(#[trigger] cs[i]).baseline,
        (baseline_ids(cs).len() >= 2) <==> exists|i: int, j: int|
            0 <= i < j < cs.len() && (#[trigger] cs[i]).baseline && (#[trigger] cs[j]).baseline,
        baseline_ids(cs) == cs.filter(|c: Condition| c.baseline).map_values(|c: Condition| c.id@),
    decreases cs.len(),
{
    if cs.len() > 0 {
        let rest = cs.drop_last();
        lemma_baseline_count(rest);
        let k = cs.len() - 1;
        assert forall|i: int| 0 <= i < rest.len() implies #[trigger] rest[i] == cs[i] by {}
        if exists|i: int| 0 <= i < rest.len() && (#[trigger] rest[i]).baseline {
            let i = choose|i: int| 0 <= i < rest.len() && (#[trigger] rest[i]).baseline;
            assert(cs[i].baseline);
            if cs[k].baseline {
                assert(cs[i].baseline && cs[k].baseline);
            }
        }
        if exists|i: int, j: int| 0 <= i < j < cs.len() && (#[trigger] cs[i]).baseline && (
        #[trigger] cs[j]).baseline {
            let (i, j) = choose|i: int, j: int|
                0 <= i < j < cs.len() && (#[trigger] cs[i]).baseline && (#[trigger] cs[j]).baseline;
            assert(rest[i].baseline);
            if j < k {
                assert(rest[j].baseline);
            }
        }
        if exists|i: int, j: int|
            0 <= i < j < rest.len() && (#[trigger] rest[i]).baseline && (#[trigger] rest[j]).baseline {
            let (i, j) = choose|i: int, j: int|
                0 <= i < j < rest.len() && (#[trigger] rest[i]).baseline && (#[trigger] rest[j]).baseline;
            assert(cs[i].baseline && cs[j].baseline);
        }
        if baseline_ids(cs).len() == 0 {
            assert(!cs[k].baseline);
            assert forall|i: int| 0 <= i < cs.len() implies !(#[trigger] cs[i]).baseline by {
                if i < k {
                    assert(rest[i] == cs[i]);
                }
            }
        }
        if forall|i: int| 0 <= i < cs.len() ==> !(#[trigger] cs[i]).baseline {
            assert(forall|i: int| 0 <= i < rest.len() ==> !(#[trigger] rest[i]).baseline);
            assert(!cs[k].baseline);
        }
        reveal_with_fuel(Seq::filter, 1);
        let pred = |c: Condition| c.baseline;
        let f = cs.filter(pred);
        let g = rest.filter(pred);
        assert(cs.drop_last() == rest);
        assert(f == (if pred(cs.last()) {
            g.push(cs.last())
        } else {
            g
        }));
        if cs.last().baseline {
            assert(f == g.push(cs.last()));
            assert(f.map_values(|c: Condition| c.id@) =~= g.map_values(|c: Condition| c.id@).push(
                cs.last().id@,
            ));
        } else {
            assert(f == g);
        }
    } else {
        reveal_with_fuel(Seq::filter, 1);
        assert(cs.filter(|c: Condition| c.baseline).map_values(|c: Condition| c.id@) =~= seq![]);
    }
}

/// Exactly one condition must be the baseline, wherever in the list the
/// baselines stand: a report says `no-baseline` exactly when no condition
/// is marked `baseline: true`, and `multiple-baselines` exactly when two
/// are; the baselines it names are all the marked conditions, in order.
pub proof fn law_baselines_counted_wherever_they_stand(spec: ProbeSpec, current: Seq<char>)
    ensures
        mentions(errors_first(findings(spec, current)), Code::NoBaseline) <==> forall|i: int|
            0 <= i < spec.conditions@.len() ==> !(#[trigger] spec.conditions@[i]).baseline,
        mentions(errors_first(findings(spec, current)), Code::MultipleBaselines) <==> exists|
            i: int,
            j: int,
        |
            0 <= i < j < spec.conditions@.len() && (#[trigger] spec.conditions@[i]).baseline && (
            #[trigger] spec.conditions@[j]).baseline,
        baseline_ids(spec.conditions@) == spec.conditions@.filter(|c: Condition| c.baseline).map_values(
            |c: Condition| c.id@,
        ),
{
    law_exactly_one_baseline(spec, current);
    lemma_baseline_count(spec.conditions@);
}

// ------------------------------------------------------------ predictions

/// Some condition of the spec has id `c`.
pub open spec fn names_condition(spec: ProbeSpec, c: Seq<char>) -> bool {
    exists|j: int| 0 <= j < spec.conditions@.len() && (#[trigger] spec.conditions@[j]).id@ == c
}

/// Some metric of the spec has id `m`.
pub open spec fn names_metric(spec: ProbeSpec, m: Seq<char>) -> bool {
    exists|j: int| 0 <= j < spec.metrics@.len() && (#[trigger] spec.metrics@[j]).id@ == m
}

/// All bounds written in the prediction are finite.
pub open spec fn finite_bounds(p: Prediction) -> bool {
    forall|b: int| 0 <= b < p.expect.bound_bits().len() ==> spec_finite(#[trigger] p.expect.bound_bits()[b])
}

/// What is wrong with prediction `k` of hypothesis `h`, as the code it is
/// reported under.
pub open spec fn prediction_fault(spec: ProbeSpec, h: Hypothesis, k: int, c: Code) -> bool {
    let p = h.predictions@[k];
    let iv = p.expect.spec_interval();
    ||| c == Code::UnknownCondition && !names_condition(spec, p.condition@)
    ||| c == Code::UnknownMetric && !names_metric(spec, p.metric@)
    ||| c == Code::NonFiniteBound && !finite_bounds(p)
    ||| c == Code::EmptyInterval && finite_bounds(p) && spec_lt(iv.hi, iv.lo)
    ||| c == Code::DuplicatePrediction && exists|j: int|
        0 <= j < k && (#[trigger] h.predictions@[j]).condition@ == p.condition@
            && h.predictions@[j].metric@ == p.metric@
}

proof fn lemma_prediction_entry_mentions(spec: ProbeSpec, h: Hypothesis, k: int, c: Code)
    requires
        0 <= k < h.predictions@.len(),
    ensures
        mentions(prediction_entry(spec, h, k), c) == prediction_fault(spec, h, k, c),
{
    let p = h.predictions@[k];
    let iv = p.expect.spec_interval();
    // declared ids are the ids of the declared items
    assert(crate::validate::declares_condition(spec, p.condition@) == names_condition(spec, p.condition@)) by {
        let ids = crate::validate::condition_ids(spec);
        if names_condition(spec, p.condition@) {
            let j = choose|j: int| 0 <= j < spec.conditions@.len() && (#[trigger] spec.conditions@[j]).id@ == p.condition@;
            assert(ids[j] == p.condition@);
        }
        if ids.contains(p.condition@) {
            let j = choose|j: int| 0 <= j < ids.len() && ids[j] == p.condition@;
            assert(spec.conditions@[j].id@ == p.condition@);
        }
    }
    assert(crate::validate::declares_metric(spec, p.metric@) == names_metric(spec, p.metric@)) by {
        let ids = crate::validate::metric_ids(spec);
        if names_metric(spec, p.metric@) {
            let j = choose|j: int| 0 <= j < spec.metrics@.len() && (#[trigger] spec.metrics@[j]).id@ == p.metric@;
            assert(ids[j] == p.metric@);
        }
        if ids.contains(p.metric@) {
            let j = choose|j: int| 0 <= j < ids.len() && ids[j] == p.metric@;
            assert(spec.metrics@[j].id@ == p.metric@);
        }
    }
    assert(crate::validate::all_finite(p.expect.bound_bits()) == finite_bounds(p));
    let dup = exists|j: int| 0 <= j < k && #[trigger] crate::validate::same_key(h.predictions@[j], p);
    assert(dup == exists|j: int|
        0 <= j < k && (#[trigger] h.predictions@[j]).condition@ == p.condition@
            && h.predictions@[j].metric@ == p.metric@) by {
        if dup {
            let j = choose|j: int| 0 <= j < k && #[trigger] crate::validate::same_key(h.predictions@[j], p);
            assert(h.predictions@[j].condition@ == p.condition@);
        }
        if exists|j: int|
            0 <= j < k && (#[trigger] h.predictions@[j]).condition@ == p.condition@
                && h.predictions@[j].metric@ == p.metric@ {
            let j = choose|j: int|
                0 <= j < k && (#[trigger] h.predictions@[j]).condition@ == p.condition@
                    && h.predictions@[j].metric@ == p.metric@;
            assert(crate::validate::same_key(h.predictions@[j], p));
        }
    }
    let m1 = crate::messages::msg_unknown_condition(h.id@, p.condition@);
    let m2 = crate::messages::msg_unknown_metric(h.id@, p.metric@);
    let m3 = crate::messages::msg_non_finite_bound(h.id@, p.metric@, p.condition@);
    let m4 = crate::messages::msg_empty_interval(
        h.id@,
        p.metric@,
        p.condition@,
        crate::validate::bound_texts(p.expect).0,
        crate::validate::bound_texts(p.expect).1,
    );
    let m5 = crate::messages::msg_duplicate_prediction(h.id@, p.metric@, p.condition@);
    let a = provided(!names_condition(spec, p.condition@), error_finding(Code::UnknownCondition, m1));
    let b = provided(!names_metric(spec, p.metric@), error_finding(Code::UnknownMetric, m2));
    let mid = if !finite_bounds(p) {
        error_finding(Code::NonFiniteBound, m3)
    } else if spec_lt(iv.hi, iv.lo) {
        error_finding(Code::EmptyInterval, m4)
    } else {
        seq![]
    };
    let d = provided(dup, error_finding(Code::DuplicatePrediction, m5));
    assert(prediction_entry(spec, h, k) == a + b + mid + d);
    lemma_mentions_one(!names_condition(spec, p.condition@), Severity::Error, Code::UnknownCondition, m1, c);
    lemma_mentions_one(!names_metric(spec, p.metric@), Severity::Error, Code::UnknownMetric, m2, c);
    lemma_mentions_one(dup, Severity::Error, Code::DuplicatePrediction, m5, c);
    if !finite_bounds(p) {
        lemma_mentions_one(true, Severity::Error, Code::NonFiniteBound, m3, c);
    } else if spec_lt(iv.hi, iv.lo) {
        lemma_mentions_one(true, Severity::Error, Code::EmptyInterval, m4, c);
    } else {
        lemma_mentions_one(false, Severity::Error, Code::EmptyInterval, m4, c);
    }
    lemma_mentions_concat(a, b, c);
    lemma_mentions_concat(a + b, mid, c);
    lemma_mentions_concat(a + b + mid, d, c);
}

/// The predictions are checked one by one, in every hypothesis: a report
/// says `hypothesis-without-predictions` exactly when some hypothesis
/// predicts nothing, and `unknown-condition`, `unknown-metric`,
/// `non-finite-bound`, `empty-interval` or `duplicate-prediction` exactly
/// when some prediction has that fault: a condition or metric that the spec
/// does not declare, a bound that is infinite or NaN, finite bounds with the
/// lower above the upper, or the condition and metric of an earlier
/// prediction of the same hypothesis.
pub proof fn law_predictions_checked_one_by_one(spec: ProbeSpec, current: Seq<char>, c: Code)
    ensures
        c == Code::HypothesisWithoutPredictions ==> (mentions(
            errors_first(findings(spec, current)),
            c,
        ) <==> exists|i: int|
            0 <= i < spec.hypotheses@.len() && (#[trigger] spec.hypotheses@[i]).predictions@.len()
                == 0),
        c == Code::UnknownCondition || c == Code::UnknownMetric || c == Code::NonFiniteBound || c
            == Code::EmptyInterval || c == Code::DuplicatePrediction ==> (mentions(
            errors_first(findings(spec, current)),
            c,
        ) <==> exists|i: int, k: int|
            0 <= i < spec.hypotheses@.len() && 0 <= k < spec.hypotheses@[i].predictions@.len()
                && #[trigger] prediction_fault(spec, spec.hypotheses@[i], k, c)),
{
    let hs = spec.hypotheses@;
    lemma_mentions_by_source(spec, current, c);
    let f = |i: int| hypothesis_entry(spec, hs[i]);
    lemma_mentions_gather(hs.len(), f, c);
    assert forall|i: int| 0 <= i < hs.len() implies #[trigger] mentions(f(i), c) == ((c
        == Code::HypothesisWithoutPredictions && hs[i].predictions@.len() == 0) || exists|k: int|
        0 <= k < hs[i].predictions@.len() && #[trigger] prediction_fault(spec, hs[i], k, c)) by {
        let h = hs[i];
        let g = |k: int| prediction_entry(spec, h, k);
        let first = provided(
            h.predictions@.len() == 0,
            error_finding(
                Code::HypothesisWithoutPredictions,
                crate::messages::msg_hypothesis_without_predictions(h.id@),
            ),
        );
        lemma_mentions_one(
            h.predictions@.len() == 0,
            Severity::Error,
            Code::HypothesisWithoutPredictions,
            crate::messages::msg_hypothesis_without_predictions(h.id@),
            c,
        );
        lemma_mentions_gather(h.predictions@.len(), g, c);
        lemma_mentions_concat(first, gather(h.predictions@.len(), g), c);
        assert forall|k: int| 0 <= k < h.predictions@.len() implies #[trigger] mentions(g(k), c)
            == prediction_fault(spec, h, k, c) by {
            lemma_prediction_entry_mentions(spec, h, k, c);
        }
        if exists|k: int| 0 <= k < h.predictions@.len() && #[trigger] prediction_fault(spec, h, k, c) {
            let k = choose|k: int| 0 <= k < h.predictions@.len() && #[trigger] prediction_fault(spec, h, k, c);
            assert(mentions(g(k), c));
        }
    }
    if exists|i: int, k: int|
        0 <= i < hs.len() && 0 <= k < hs[i].predictions@.len() && #[trigger] prediction_fault(spec, hs[i], k, c) {
        let (i, k) = choose|i: int, k: int|
            0 <= i < hs.len() && 0 <= k < hs[i].predictions@.len() && #[trigger] prediction_fault(spec, hs[i], k, c);
        assert(mentions(f(i), c));
    }
    if c == Code::HypothesisWithoutPredictions && exists|i: int|
        0 <= i < hs.len() && (#[trigger] hs[i]).predictions@.len() == 0 {
        let i = choose|i: int| 0 <= i < hs.len() && (#[trigger] hs[i]).predictions@.len() == 0;
        assert(mentions(f(i), c));
    }
}

// ------------------------------------------------------------ identifiers

proof fn lemma_namespace_mentions(kind: Seq<char>, ids: Seq<Seq<char>>, c: Code)
    ensures
        mentions(namespace_findings(kind, ids), c) == {
            ||| c == Code::InvalidId && exists|i: int| 0 <= i < ids.len() && !valid_id(#[trigger] ids[i])
            ||| c == Code::DuplicateId && exists|i: int, j: int|
                0 <= i < j < ids.len() && #[trigger] ids[i] == #[trigger] ids[j]
        },
{
    let f = |i: int| namespace_entry(kind, ids, i);
    lemma_mentions_gather(ids.len(), f, c);
    assert forall|i: int| 0 <= i < ids.len() implies #[trigger] mentions(f(i), c) == (
    (c == Code::InvalidId && !valid_id(ids[i])) || (c == Code::DuplicateId && exists|j: int|
        0 <= j < i && ids[j] == ids[i])) by {
        let dup = exists|j: int| 0 <= j < i && ids[j] == ids[i];
        let a = provided(
            !valid_id(ids[i]),
            error_finding(Code::InvalidId, crate::messages::msg_invalid_id(kind, ids[i])),
        );
        let b = provided(
            dup,
            error_finding(Code::DuplicateId, crate::messages::msg_duplicate_id(kind, ids[i])),
        );
        lemma_mentions_one(!valid_id(ids[i]), Severity::Error, Code::InvalidId, crate::messages::msg_invalid_id(kind, ids[i]), c);
        lemma_mentions_one(dup, Severity::Error, Code::DuplicateId, crate::messages::msg_duplicate_id(kind, ids[i]), c);
        lemma_mentions_concat(a, b, c);
    }
    if exists|i: int| 0 <= i < ids.len() && !valid_id(#[trigger] ids[i]) {
        let i = choose|i: int| 0 <= i < ids.len() && !valid_id(#[trigger] ids[i]);
        if c == Code::InvalidId {
            assert(mentions(f(i), c));
        }
    }
    if exists|i: int, j: int| 0 <= i < j < ids.len() && #[trigger] ids[i] == #[trigger] ids[j] {
        let (i, j) = choose|i: int, j: int| 0 <= i < j < ids.len() && #[trigger] ids[i] == #[trigger] ids[j];
        if c == Code::DuplicateId {
            assert(mentions(f(j), c));
        }
    }
    if c == Code::DuplicateId && exists|i: int| 0 <= i < ids.len() && #[trigger] mentions(f(i), c) {
        let i = choose|i: int| 0 <= i < ids.len() && #[trigger] mentions(f(i), c);
        let j = choose|j: int| 0 <= j < i && ids[j] == ids[i];
        assert(ids[j] == ids[i]);
    }
}

/// Some two of `ids`, at different places, are equal.
pub open spec fn repeats(ids: Seq<Seq<char>>) -> bool {
    exists|i: int, j: int| 0 <= i < j < ids.len() && #[trigger] ids[i] == #[trigger] ids[j]
}

/// Some one of `ids` is not a valid id.
pub open spec fn has_invalid(ids: Seq<Seq<char>>) -> bool {
    exists|i: int| 0 <= i < ids.len() && !valid_id(#[trigger] ids[i])
}

/// Ids are unique per kind and well formed: a report says `duplicate-id`
/// exactly when two hypotheses, two conditions or two metrics share an id,
/// and `invalid-id` exactly when the probe's id, or the id of some
/// hypothesis, condition or metric, is not a valid id.
pub proof fn law_ids_valid_and_unique_per_kind(spec: ProbeSpec, current: Seq<char>)
    ensures
        mentions(errors_first(findings(spec, current)), Code::DuplicateId) <==> (repeats(
            spec.hypotheses@.map_values(|h: Hypothesis| h.id@),
        ) || repeats(spec.conditions@.map_values(|c: Condition| c.id@)) || repeats(
            spec.metrics@.map_values(|m: crate::spec::Metric| m.id@),
        )),
        mentions(errors_first(findings(spec, current)), Code::InvalidId) <==> (!valid_id(spec.id@)
            || has_invalid(spec.hypotheses@.map_values(|h: Hypothesis| h.id@)) || has_invalid(
            spec.conditions@.map_values(|c: Condition| c.id@),
        ) || has_invalid(spec.metrics@.map_values(|m: crate::spec::Metric| m.id@))),
{
    let hi = crate::validate::hypothesis_ids(spec);
    let ci = crate::validate::condition_ids(spec);
    let mi = crate::validate::metric_ids(spec);
    assert(hi == spec.hypotheses@.map_values(|h: Hypothesis| h.id@));
    assert(ci == spec.conditions@.map_values(|c: Condition| c.id@));
    assert(mi == spec.metrics@.map_values(|m: crate::spec::Metric| m.id@));
    let p0 = provided(
        !valid_id(spec.id@),
        error_finding(Code::InvalidId, crate::messages::msg_invalid_id("probe"@, spec.id@)),
    );
    let a = namespace_findings("hypothesis"@, hi);
    let b = namespace_findings("condition"@, ci);
    let d = namespace_findings("metric"@, mi);
    lemma_identifier_mentions(spec, current, p0, a, b, d, hi, ci, mi);
}

proof fn lemma_identifier_mentions(
    spec: ProbeSpec,
    current: Seq<char>,
    p0: Seq<crate::validate::Finding>,
    a: Seq<crate::validate::Finding>,
    b: Seq<crate::validate::Finding>,
    d: Seq<crate::validate::Finding>,
    hi: Seq<Seq<char>>,
    ci: Seq<Seq<char>>,
    mi: Seq<Seq<char>>,
)
    requires
        p0 == provided(
            !valid_id(spec.id@),
            error_finding(Code::InvalidId, crate::messages::msg_invalid_id("probe"@, spec.id@)),
        ),
        a == namespace_findings("hypothesis"@, hi),
        b == namespace_findings("condition"@, ci),
        d == namespace_findings("metric"@, mi),
        hi == crate::validate::hypothesis_ids(spec),
        ci == crate::validate::condition_ids(spec),
        mi == crate::validate::metric_ids(spec),
    ensures
        mentions(errors_first(findings(spec, current)), Code::DuplicateId) <==> (repeats(hi)
            || repeats(ci) || repeats(mi)),
        mentions(errors_first(findings(spec, current)), Code::InvalidId) <==> (!valid_id(spec.id@)
            || has_invalid(hi) || has_invalid(ci) || has_invalid(mi)),
{
    assert(crate::validate::identifier_findings(spec) == p0 + a + b + d);
    lemma_mentions_by_source(spec, current, Code::DuplicateId);
    lemma_mentions_by_source(spec, current, Code::InvalidId);
    lemma_namespace_mentions("hypothesis"@, hi, Code::DuplicateId);
    lemma_namespace_mentions("condition"@, ci, Code::DuplicateId);
    lemma_namespace_mentions("metric"@, mi, Code::DuplicateId);
    lemma_namespace_mentions("hypothesis"@, hi, Code::InvalidId);
    lemma_namespace_mentions("condition"@, ci, Code::InvalidId);
    lemma_namespace_mentions("metric"@, mi, Code::InvalidId);
    lemma_mentions_one(!valid_id(spec.id@), Severity::Error, Code::InvalidId, crate::messages::msg_invalid_id("probe"@, spec.id@), Code::DuplicateId);
    lemma_mentions_one(!valid_id(spec.id@), Severity::Error, Code::InvalidId, crate::messages::msg_invalid_id("probe"@, spec.id@), Code::InvalidId);
    lemma_mentions_concat(p0, a, Code::DuplicateId);
    lemma_mentions_concat(p0 + a, b, Code::DuplicateId);
    lemma_mentions_concat(p0 + a + b, d, Code::DuplicateId);
    lemma_mentions_concat(p0, a, Code::InvalidId);
    lemma_mentions_concat(p0 + a, b, Code::InvalidId);
    lemma_mentions_concat(p0 + a + b, d, Code::InvalidId);
}

// -------------------------------------------------------- header and run

/// The header rules: a report says `unsupported-version` exactly when
/// `spec_version` is not `0.1`, `empty-title` and `empty-claim` exactly when
/// the title or the claim's statement is nothing but white space, and
/// `claim-without-source` exactly when the claim cites no source.
pub proof fn law_header_rules(spec: ProbeSpec, current: Seq<char>)
    ensures
        mentions(errors_first(findings(spec, current)), Code::UnsupportedVersion) <==> spec.spec_version@
            != "0.1"@,
        mentions(errors_first(findings(spec, current)), Code::EmptyTitle) <==> forall|i: int|
            0 <= i < spec.title@.len() ==> crate::text::white(#[trigger] spec.title@[i]),
        mentions(errors_first(findings(spec, current)), Code::EmptyClaim) <==> forall|i: int|
            0 <= i < spec.claim.statement@.len() ==> crate::text::white(
                #[trigger] spec.claim.statement@[i],
            ),
        mentions(errors_first(findings(spec, current)), Code::ClaimWithoutSource) <==> spec.claim.sources@.len()
            == 0,
{
    let p1 = provided(
        spec.spec_version@ != crate::spec::SPEC_VERSION@,
        error_finding(Code::UnsupportedVersion, crate::messages::msg_unsupported_version(spec.spec_version@)),
    );
    let p2 = provided(crate::text::blank(spec.title@), error_finding(Code::EmptyTitle, crate::messages::msg_empty_title()));
    let p3 = provided(crate::text::blank(spec.claim.statement@), error_finding(Code::EmptyClaim, crate::messages::msg_empty_claim()));
    let p4 = provided(
        spec.claim.sources@.len() == 0,
        crate::validate::warning_finding(Code::ClaimWithoutSource, crate::messages::msg_claim_without_source()),
    );
    assert(crate::validate::header_findings(spec) == p1 + p2 + p3 + p4);
    let codes = seq![Code::UnsupportedVersion, Code::EmptyTitle, Code::EmptyClaim, Code::ClaimWithoutSource];
    assert forall|k: int| 0 <= k < 4 implies mentions(crate::validate::header_findings(spec), #[trigger] codes[k]) == {
        ||| codes[k] == Code::UnsupportedVersion && spec.spec_version@ != crate::spec::SPEC_VERSION@
        ||| codes[k] == Code::EmptyTitle && crate::text::blank(spec.title@)
        ||| codes[k] == Code::EmptyClaim && crate::text::blank(spec.claim.statement@)
        ||| codes[k] == Code::ClaimWithoutSource && spec.claim.sources@.len() == 0
    } by {
        let c = codes[k];
        lemma_mentions_one(spec.spec_version@ != crate::spec::SPEC_VERSION@, Severity::Error, Code::UnsupportedVersion, crate::messages::msg_unsupported_version(spec.spec_version@), c);
        lemma_mentions_one(crate::text::blank(spec.title@), Severity::Error, Code::EmptyTitle, crate::messages::msg_empty_title(), c);
        lemma_mentions_one(crate::text::blank(spec.claim.statement@), Severity::Error, Code::EmptyClaim, crate::messages::msg_empty_claim(), c);
        lemma_mentions_one(spec.claim.sources@.len() == 0, Severity::Warning, Code::ClaimWithoutSource, crate::messages::msg_claim_without_source(), c);
        lemma_mentions_concat(p1, p2, c);
        lemma_mentions_concat(p1 + p2, p3, c);
        lemma_mentions_concat(p1 + p2 + p3, p4, c);
    }
    assert(mentions(crate::validate::header_findings(spec), codes[0]) == mentions(crate::validate::header_findings(spec), Code::UnsupportedVersion));
    lemma_mentions_by_source(spec, current, Code::UnsupportedVersion);
    lemma_mentions_by_source(spec, current, Code::EmptyTitle);
    lemma_mentions_by_source(spec, current, Code::EmptyClaim);
    lemma_mentions_by_source(spec, current, Code::ClaimWithoutSource);
    assert(mentions(crate::validate::header_findings(spec), codes[1]) == mentions(crate::validate::header_findings(spec), Code::EmptyTitle));
    assert(mentions(crate::validate::header_findings(spec), codes[2]) == mentions(crate::validate::header_findings(spec), Code::EmptyClaim));
    assert(mentions(crate::validate::header_findings(spec), codes[3]) == mentions(crate::validate::header_findings(spec), Code::ClaimWithoutSource));
}

/// The run rules: a report says `empty-sample` exactly when
/// `n_per_condition` is zero, and `missing-generator` exactly when the
/// generator's path is nothing but white space.
pub proof fn law_execution_rules(spec: ProbeSpec, current: Seq<char>)
    ensures
        mentions(errors_first(findings(spec, current)), Code::EmptySample) <==> spec.sampling.n_per_condition
            == 0,
        mentions(errors_first(findings(spec, current)), Code::MissingGenerator) <==> forall|i: int|
            0 <= i < spec.generator.path@.len() ==> crate::text::white(
                #[trigger] spec.generator.path@[i],
            ),
{
    let a = provided(
        spec.sampling.n_per_condition == 0,
        error_finding(Code::EmptySample, crate::messages::msg_empty_sample()),
    );
    let b = provided(
        crate::text::blank(spec.generator.path@),
        error_finding(Code::MissingGenerator, crate::messages::msg_missing_generator()),
    );
    assert(crate::validate::execution_findings(spec) == a + b);
    lemma_mentions_by_source(spec, current, Code::EmptySample);
    lemma_mentions_by_source(spec, current, Code::MissingGenerator);
    lemma_mentions_one(spec.sampling.n_per_condition == 0, Severity::Error, Code::EmptySample, crate::messages::msg_empty_sample(), Code::EmptySample);
    lemma_mentions_one(crate::text::blank(spec.generator.path@), Severity::Error, Code::MissingGenerator, crate::messages::msg_missing_generator(), Code::EmptySample);
    lemma_mentions_one(spec.sampling.n_per_condition == 0, Severity::Error, Code::EmptySample, crate::messages::msg_empty_sample(), Code::MissingGenerator);
    lemma_mentions_one(crate::text::blank(spec.generator.path@), Severity::Error, Code::MissingGenerator, crate::messages::msg_missing_generator(), Code::MissingGenerator);
    lemma_mentions_concat(a, b, Code::EmptySample);
    lemma_mentions_concat(a, b, Code::MissingGenerator);
}

/// The shape of a recorded hash: `sha256:` and then exactly 64 hexadecimal
/// digits, `0`-`9`, `a`-`f` or `A`-`F`.
pub proof fn law_hash_shape(s: Seq<char>)
    ensures
        crate::hash::well_formed_hash(s) <==> {
            &&& s.len() == 71
            &&& s.take(7) == "sha256:"@
            &&& forall|i: int|
                7 <= i < 71 ==> ('0' <= #[trigger] s[i] <= '9') || ('a' <= s[i] <= 'f') || ('A' <= s[i]
                    <= 'F')
        },
{
    reveal_strlit("sha256:");
    assert(crate::hash::HASH_PREFIX@ == "sha256:"@);
    assert("sha256:"@.len() == 7);
    if crate::hash::well_formed_hash(s) {
        assert forall|i: int| 7 <= i < 71 implies ('0' <= #[trigger] s[i] <= '9') || ('a' <= s[i]
            <= 'f') || ('A' <= s[i] <= 'F') by {
            assert(crate::hash::is_hex(s[i]));
        }
    }
    if s.len() == 71 && s.take(7) == "sha256:"@ && forall|i: int|
        7 <= i < 71 ==> ('0' <= #[trigger] s[i] <= '9') || ('a' <= s[i] <= 'f') || ('A' <= s[i]
            <= 'F') {
        assert forall|i: int| 7 <= i < s.len() implies #[trigger] crate::hash::is_hex(s[i]) by {
            assert(('0' <= s[i] <= '9') || ('a' <= s[i] <= 'f') || ('A' <= s[i] <= 'F'));
        }
    }
}

/// The lock rules: with a preregistration block, a report says
/// `invalid-date` exactly when its date is not a valid `YYYY-MM-DD` date,
/// and `malformed-hash` exactly when its hash does not have the shape of
/// one; without a block it says neither.
pub proof fn law_preregistration_rules(spec: ProbeSpec, current: Seq<char>)
    ensures
        mentions(errors_first(findings(spec, current)), Code::InvalidDate) <==> (spec.preregistration matches Some(pr)
            && !iso_date(pr.registered@)),
        mentions(errors_first(findings(spec, current)), Code::MalformedHash) <==> (spec.preregistration matches Some(pr)
            && !crate::hash::well_formed_hash(pr.spec_hash@)),
{
    lemma_mentions_by_source(spec, current, Code::InvalidDate);
    lemma_mentions_by_source(spec, current, Code::MalformedHash);
    match spec.preregistration {
        None => {},
        Some(pr) => {
            let m1 = crate::messages::msg_invalid_date(pr.registered@);
            let a = provided(!iso_date(pr.registered@), error_finding(Code::InvalidDate, m1));
            lemma_mentions_one(!iso_date(pr.registered@), Severity::Error, Code::InvalidDate, m1, Code::InvalidDate);
            lemma_mentions_one(!iso_date(pr.registered@), Severity::Error, Code::InvalidDate, m1, Code::MalformedHash);
            if !crate::hash::well_formed_hash(pr.spec_hash@) {
                let m2 = crate::messages::msg_malformed_hash();
                lemma_mentions_one(true, Severity::Error, Code::MalformedHash, m2, Code::InvalidDate);
                lemma_mentions_one(true, Severity::Error, Code::MalformedHash, m2, Code::MalformedHash);
                lemma_mentions_concat(a, error_finding(Code::MalformedHash, m2), Code::InvalidDate);
                lemma_mentions_concat(a, error_finding(Code::MalformedHash, m2), Code::MalformedHash);
            } else {
                let cond = !crate::text::same_ignoring_ascii_case(pr.spec_hash@, current);
                let m3 = crate::messages::msg_spec_changed(pr.registered@, pr.spec_hash@, current);
                let b = provided(cond, error_finding(Code::SpecChangedAfterPreregistration, m3));
                lemma_mentions_one(cond, Severity::Error, Code::SpecChangedAfterPreregistration, m3, Code::InvalidDate);
                lemma_mentions_one(cond, Severity::Error, Code::SpecChangedAfterPreregistration, m3, Code::MalformedHash);
                lemma_mentions_concat(a, b, Code::InvalidDate);
                lemma_mentions_concat(a, b, Code::MalformedHash);
            }
        },
    }
}

// --------------------------------------------------------------- coverage

/// Some hypothesis predicts something under condition `c`.
pub open spec fn predicts_under(spec: ProbeSpec, c: Seq<char>) -> bool {
    exists|i: int, k: int|
        0 <= i < spec.hypotheses@.len() && 0 <= k < spec.hypotheses@[i].predictions@.len()
            && (#[trigger] spec.hypotheses@[i].predictions@[k]).condition@ == c
}

/// Some hypothesis predicts metric `m`.
pub open spec fn predicts_metric(spec: ProbeSpec, m: Seq<char>) -> bool {
    exists|i: int, k: int|
        0 <= i < spec.hypotheses@.len() && 0 <= k < spec.hypotheses@[i].predictions@.len()
            && (#[trigger] spec.hypotheses@[i].predictions@[k]).metric@ == m
}

proof fn lemma_predicted_grounded(spec: ProbeSpec, t: Seq<char>)
    ensures
        crate::validate::predicted(spec, t, false) == predicts_under(spec, t),
        crate::validate::predicted(spec, t, true) == predicts_metric(spec, t),
{
    if predicts_under(spec, t) {
        let (i, k) = choose|i: int, k: int|
            0 <= i < spec.hypotheses@.len() && 0 <= k < spec.hypotheses@[i].predictions@.len()
                && (#[trigger] spec.hypotheses@[i].predictions@[k]).condition@ == t;
        assert(crate::validate::prediction_part(spec.hypotheses@[i].predictions@[k], false) == t);
    }
    if predicts_metric(spec, t) {
        let (i, k) = choose|i: int, k: int|
            0 <= i < spec.hypotheses@.len() && 0 <= k < spec.hypotheses@[i].predictions@.len()
                && (#[trigger] spec.hypotheses@[i].predictions@[k]).metric@ == t;
        assert(crate::validate::prediction_part(spec.hypotheses@[i].predictions@[k], true) == t);
    }
    if crate::validate::predicted(spec, t, false) {
        let (i, k) = choose|i: int, k: int|
            0 <= i < spec.hypotheses@.len() && 0 <= k < spec.hypotheses@[i].predictions@.len()
                && #[trigger] crate::validate::prediction_part(spec.hypotheses@[i].predictions@[k], false) == t;
        assert(spec.hypotheses@[i].predictions@[k].condition@ == t);
    }
    if crate::validate::predicted(spec, t, true) {
        let (i, k) = choose|i: int, k: int|
            0 <= i < spec.hypotheses@.len() && 0 <= k < spec.hypotheses@[i].predictions@.len()
                && #[trigger] crate::validate::prediction_part(spec.hypotheses@[i].predictions@[k], true) == t;
        assert(spec.hypotheses@[i].predictions@[k].metric@ == t);
    }
}

/// Declared but unused: a report warns `unused-condition` exactly when some
/// condition other than a baseline has no prediction under it, and
/// `unused-metric` exactly when some metric is predicted by no hypothesis.
pub proof fn law_coverage_rules(spec: ProbeSpec, current: Seq<char>)
    ensures
        mentions(errors_first(findings(spec, current)), Code::UnusedCondition) <==> exists|i: int|
            0 <= i < spec.conditions@.len() && !(#[trigger] spec.conditions@[i]).baseline
                && !predicts_under(spec, spec.conditions@[i].id@),
        mentions(errors_first(findings(spec, current)), Code::UnusedMetric) <==> exists|i: int|
            0 <= i < spec.metrics@.len() && !predicts_metric(spec, (#[trigger] spec.metrics@[i]).id@),
{
    let f = |i: int| crate::validate::unused_condition_entry(spec, i);
    let g = |i: int| crate::validate::unused_metric_entry(spec, i);
    assert(crate::validate::coverage_findings(spec) == gather(spec.conditions@.len(), f) + gather(
        spec.metrics@.len(),
        g,
    ));
    lemma_mentions_by_source(spec, current, Code::UnusedCondition);
    lemma_mentions_by_source(spec, current, Code::UnusedMetric);
    let cs = seq![Code::UnusedCondition, Code::UnusedMetric];
    assert forall|t: int| 0 <= t < 2 implies #[trigger] mentions(
        crate::validate::coverage_findings(spec),
        cs[t],
    ) == ((cs[t] == Code::UnusedCondition && exists|i: int|
        0 <= i < spec.conditions@.len() && !(#[trigger] spec.conditions@[i]).baseline
            && !predicts_under(spec, spec.conditions@[i].id@)) || (cs[t] == Code::UnusedMetric
        && exists|i: int|
        0 <= i < spec.metrics@.len() && !predicts_metric(spec, (#[trigger] spec.metrics@[i]).id@))) by {
        let c = cs[t];
        lemma_mentions_gather(spec.conditions@.len(), f, c);
        lemma_mentions_gather(spec.metrics@.len(), g, c);
        lemma_mentions_concat(gather(spec.conditions@.len(), f), gather(spec.metrics@.len(), g), c);
        assert forall|i: int| 0 <= i < spec.conditions@.len() implies #[trigger] mentions(f(i), c) == (c
            == Code::UnusedCondition && !spec.conditions@[i].baseline && !predicts_under(
            spec,
            spec.conditions@[i].id@,
        )) by {
            let cd = spec.conditions@[i];
            lemma_predicted_grounded(spec, cd.id@);
            lemma_mentions_one(
                !cd.baseline && !crate::validate::predicted(spec, cd.id@, false),
                Severity::Warning,
                Code::UnusedCondition,
                crate::messages::msg_unused_condition(cd.id@),
                c,
            );
        }
        assert forall|i: int| 0 <= i < spec.metrics@.len() implies #[trigger] mentions(g(i), c) == (c
            == Code::UnusedMetric && !predicts_metric(spec, spec.metrics@[i].id@)) by {
            let md = spec.metrics@[i];
            lemma_predicted_grounded(spec, md.id@);
            lemma_mentions_one(
                !crate::validate::predicted(spec, md.id@, true),
                Severity::Warning,
                Code::UnusedMetric,
                crate::messages::msg_unused_metric(md.id@),
                c,
            );
        }
        if exists|i: int|
            0 <= i < spec.conditions@.len() && !(#[trigger] spec.conditions@[i]).baseline
                && !predicts_under(spec, spec.conditions@[i].id@) {
            let i = choose|i: int|
                0 <= i < spec.conditions@.len() && !(#[trigger] spec.conditions@[i]).baseline
                    && !predicts_under(spec, spec.conditions@[i].id@);
            if c == Code::UnusedCondition {
                assert(mentions(f(i), c));
            }
        }
        if exists|i: int|
            0 <= i < spec.metrics@.len() && !predicts_metric(spec, (#[trigger] spec.metrics@[i]).id@) {
            let i = choose|i: int|
                0 <= i < spec.metrics@.len() && !predicts_metric(spec, (#[trigger] spec.metrics@[i]).id@);
            if c == Code::UnusedMetric {
                assert(mentions(g(i), c));
            }
        }
    }
    assert(mentions(crate::validate::coverage_findings(spec), cs[0]) == mentions(crate::validate::coverage_findings(spec), Code::UnusedCondition));
    assert(mentions(crate::validate::coverage_findings(spec), cs[1]) == mentions(crate::validate::coverage_findings(spec), Code::UnusedMetric));
}

/// Hashes compare ignoring ASCII case: equal lengths, and at each place the
/// same character, or the same ASCII letter in the other case.
pub proof fn law_hash_comparison_ignores_ascii_case(a: Seq<char>, b: Seq<char>)
    ensures
        crate::text::same_ignoring_ascii_case(a, b) <==> {
            &&& a.len() == b.len()
            &&& forall|i: int|
                0 <= i < a.len() ==> {
                    ||| #[trigger] a[i] == b[i]
                    ||| 'A' <= a[i] <= 'Z' && (b[i] as int) == (a[i] as int) + 32
                    ||| 'a' <= a[i] <= 'z' && (a[i] as int) == (b[i] as int) + 32
                }
        },
{
    if crate::text::same_ignoring_ascii_case(a, b) {
        assert forall|i: int| 0 <= i < a.len() implies {
            ||| #[trigger] a[i] == b[i]
            ||| 'A' <= a[i] <= 'Z' && (b[i] as int) == (a[i] as int) + 32
            ||| 'a' <= a[i] <= 'z' && (a[i] as int) == (b[i] as int) + 32
        } by {
            assert(crate::text::ascii_lower(a[i]) == crate::text::ascii_lower(b[i]));
        }
    }
    if a.len() == b.len() && forall|i: int|
        0 <= i < a.len() ==> {
            ||| #[trigger] a[i] == b[i]
            ||| 'A' <= a[i] <= 'Z' && (b[i] as int) == (a[i] as int) + 32
            ||| 'a' <= a[i] <= 'z' && (a[i] as int) == (b[i] as int) + 32
        } {
        assert forall|i: int| 0 <= i < a.len() implies #[trigger] crate::text::ascii_lower(a[i])
            == crate::text::ascii_lower(b[i]) by {
            assert(a[i] == b[i] || ('A' <= a[i] <= 'Z' && (b[i] as int) == (a[i] as int) + 32) || (
            'a' <= a[i] <= 'z' && (a[i] as int) == (b[i] as int) + 32));
        }
    }
}

// ---------------------------------------------------------------- reports

proof fn lemma_of_severity_is_filter(s: Seq<Finding>, sev: Severity)
    ensures
        of_severity(s, sev) == s.filter(|f: Finding| f.severity == sev),
    decreases s.len(),
{
    reveal_with_fuel(Seq::filter, 1);
    if s.len() > 0 {
        lemma_of_severity_is_filter(s.drop_last(), sev);
    }
}

/// A report lists the errors first and then the warnings, each group in
/// the order the checks found them: errors first is the errors of the
/// findings, then their warnings.
pub proof fn law_errors_first_keeps_each_group_in_order(s: Seq<Finding>)
    ensures
        errors_first(s) == s.filter(|f: Finding| f.severity == Severity::Error) + s.filter(
            |f: Finding| f.severity == Severity::Warning,
        ),
{
    lemma_of_severity_is_filter(s, Severity::Error);
    lemma_of_severity_is_filter(s, Severity::Warning);
}

proof fn lemma_concat_contains(a: Seq<Finding>, b: Seq<Finding>, x: Finding)
    ensures
        (a.contains(x) || b.contains(x)) ==> (a + b).contains(x),
{
    if a.contains(x) {
        let i = choose|i: int| 0 <= i < a.len() && a[i] == x;
        assert((a + b)[i] == x);
    } else if b.contains(x) {
        let i = choose|i: int| 0 <= i < b.len() && b[i] == x;
        assert((a + b)[a.len() + i] == x);
    }
}

proof fn lemma_gather_contains(n: nat, f: spec_fn(int) -> Seq<Finding>, i: int, x: Finding)
    requires
        0 <= i < n,
        f(i).contains(x),
    ensures
        gather(n, f).contains(x),
    decreases n,
{
    if i < n - 1 {
        lemma_gather_contains((n - 1) as nat, f, i, x);
    }
    lemma_concat_contains(gather((n - 1) as nat, f), f(n - 1), x);
}

proof fn lemma_of_severity_contains(s: Seq<Finding>, x: Finding)
    requires
        s.contains(x),
    ensures
        of_severity(s, x.severity).contains(x),
    decreases s.len(),
{
    let rest = s.drop_last();
    if s.last() == x {
        assert(of_severity(s, x.severity).last() == x);
    } else {
        let i = choose|i: int| 0 <= i < s.len() && s[i] == x;
        assert(rest[i] == x);
        lemma_of_severity_contains(rest, x);
        let r = of_severity(rest, x.severity);
        let j = choose|j: int| 0 <= j < r.len() && r[j] == x;
        if s.last().severity == x.severity {
            assert(of_severity(s, x.severity)[j] == x);
        }
    }
}

/// Every pair of hypotheses that nothing tells apart is named: when the
/// probe has a crucial condition, for each two hypotheses `i < j` that no
/// shared condition and metric tells apart the report holds a warning
/// `indistinguishable-hypotheses` naming `i` and then `j`.
pub proof fn law_each_indistinguishable_pair_named(spec: ProbeSpec, current: Seq<char>, i: int, j: int)
    requires
        0 <= i < j < spec.hypotheses@.len(),
        has_crucial_condition(spec.hypotheses@),
        !discriminates(spec.hypotheses@[i], spec.hypotheses@[j]),
    ensures
        errors_first(findings(spec, current)).contains(
            Finding {
                severity: Severity::Warning,
                code: Code::IndistinguishableHypotheses,
                message: crate::messages::msg_indistinguishable(
                    spec.hypotheses@[i].id@,
                    spec.hypotheses@[j].id@,
                ),
            },
        ),
{
    let hs = spec.hypotheses@;
    let x = Finding {
        severity: Severity::Warning,
        code: Code::IndistinguishableHypotheses,
        message: crate::messages::msg_indistinguishable(hs[i].id@, hs[j].id@),
    };
    let g = |t: int| crate::validate::pair_entry(hs, i, i + 1 + t);
    let t = j - (i + 1);
    assert(g(t) == seq![x]);
    assert(g(t)[0] == x);
    lemma_gather_contains((hs.len() - (i + 1)) as nat, g, t, x);
    let f = |k: int| crate::validate::pairs_from(hs, k);
    assert(f(i) == gather((hs.len() - (i + 1)) as nat, g));
    lemma_gather_contains(hs.len(), f, i, x);
    let d = crate::validate::discrimination_findings(spec);
    assert(d == gather(hs.len(), f));
    let p0 = crate::validate::header_findings(spec);
    let p1 = crate::validate::identifier_findings(spec);
    let p2 = crate::validate::baseline_findings(spec);
    let p3 = crate::validate::prediction_findings(spec);
    let p5 = crate::validate::coverage_findings(spec);
    let p6 = crate::validate::execution_findings(spec);
    let p7 = crate::validate::preregistration_findings(spec, current);
    lemma_concat_contains(p0 + p1 + p2 + p3, d, x);
    lemma_concat_contains(p0 + p1 + p2 + p3 + d, p5, x);
    lemma_concat_contains(p0 + p1 + p2 + p3 + d + p5, p6, x);
    lemma_concat_contains(p0 + p1 + p2 + p3 + d + p5 + p6, p7, x);
    let all = findings(spec, current);
    assert(all == p0 + p1 + p2 + p3 + d + p5 + p6 + p7);
    lemma_of_severity_contains(all, x);
    lemma_concat_contains(of_severity(all, Severity::Error), of_severity(all, Severity::Warning), x);
}

} // verus!
