//! The probe specification format, `spec_version: "0.1"`.
//!
//! A probe ties one philosophical claim to at least two rival hypotheses.
//! Each hypothesis commits, before any data exists, to the outcome it
//! predicts for a metric under a named condition. A probe is worth running
//! only if some possible result would favor one hypothesis over another;
//! [`crate::validate`] checks exactly that.
use vstd::prelude::*;
use vstd::std_specs::cmp::PartialEqSpecImpl;

use crate::number::{
    Number, rank, NEG_INFINITY_BITS, INFINITY_BITS, spec_lt, spec_le, spec_eq, spec_nan, spec_finite,
    lt, eq, is_nan,
};

verus! {

/// The only spec version this release understands.
pub const SPEC_VERSION: &'static str = "0.1";

/// A complete probe specification.
#[derive(Debug, Clone, PartialEq)]
pub struct ProbeSpec {
    pub spec_version: String,
    /// Stable identifier. A changed probe gets a new id, never an edit.
    pub id: String,
    pub title: String,
    pub claim: Claim,
    pub tier: Tier,
    pub hypotheses: Vec<Hypothesis>,
    pub conditions: Vec<Condition>,
    pub metrics: Vec<Metric>,
    pub generator: Generator,
    pub sampling: Sampling,
    /// Languages the generator produces instances in, e.g. `en`, `pt-BR`.
    pub languages: Vec<String>,
    /// Present once the probe is locked. Excluded from its own hash.
    pub preregistration: Option<Preregistration>,
}

impl ProbeSpec {
    /// The spec without its preregistration block: what its hash covers.
    pub open spec fn unlocked(self) -> ProbeSpec {
        ProbeSpec { preregistration: None, ..self }
    }

    /// Drops the preregistration block, leaving what the spec says: the
    /// content its hash is taken over.
    pub fn without_preregistration(self) -> (r: ProbeSpec)
        ensures
            r == self.unlocked(),
    {
        ProbeSpec { preregistration: None, ..self }
    }
}

/// The philosophical claim under test, with where it comes from.
#[derive(Debug, Clone, PartialEq)]
pub struct Claim {
    pub statement: String,
    pub sources: Vec<String>,
}

/// Behavioral probes need only model outputs; mechanistic probes need
/// access to internal activations, so they run on open-weight models.
#[derive(Debug, Clone, Copy, PartialEq, Eq, Structural)]
pub enum Tier {
    Behavioral,
    Mechanistic,
}

/// One position on the claim, stated as testable predictions.
#[derive(Debug, Clone, PartialEq)]
pub struct Hypothesis {
    pub id: String,
    pub description: String,
    pub predictions: Vec<Prediction>,
}

/// What a hypothesis expects a metric to be under a condition.
#[derive(Debug, Clone, PartialEq)]
pub struct Prediction {
    pub condition: String,
    pub metric: String,
    pub expect: Expectation,
}

/// A named variation of the task, such as renamed symbols or a translation.
#[derive(Debug, Clone, PartialEq)]
pub struct Condition {
    pub id: String,
    pub description: String,
    /// Exactly one condition is the unperturbed reference.
    pub baseline: bool,
}

/// A quantity computed from model outputs.
#[derive(Debug, Clone, PartialEq)]
pub struct Metric {
    pub id: String,
    pub description: String,
}

/// Where fresh task instances come from. Generated rather than fixed
/// instances keep a probe resistant to training-data contamination.
#[derive(Debug, Clone, PartialEq)]
pub struct Generator {
    /// Path relative to the repository root.
    pub path: String,
    pub seed: Option<u64>,
}

#[derive(Debug, Clone, Copy, PartialEq, Eq, Structural)]
pub struct Sampling {
    pub n_per_condition: u32,
}

/// The lock on a probe: when it was registered and what it said then.
#[derive(Debug, Clone, PartialEq)]
pub struct Preregistration {
    /// ISO date, `YYYY-MM-DD`.
    pub registered: String,
    /// Output of [`crate::spec_hash`] at registration time.
    pub spec_hash: String,
}

/// An expected region for a metric's value.
///
/// `Below` and `Above` are strict; `Within` includes its endpoints.
#[derive(Debug, Clone, PartialEq)]
pub enum Expectation {
    Below(Number),
    Above(Number),
    Within([Number; 2]),
}

/// An interval on the extended real line with independently open or closed
/// ends, its bounds given as binary64 bit patterns.
#[derive(Debug, Clone, Copy)]
pub struct Interval {
    pub lo: u64,
    pub lo_open: bool,
    pub hi: u64,
    pub hi_open: bool,
}

/// The message with which an expectation that does not state exactly one
/// bound is refused.
pub const ONE_BOUND_MESSAGE: &'static str = "`expect` must have exactly one of `below`, `above`, `within`";

impl Expectation {
    pub open spec fn spec_interval(self) -> Interval {
        match self {
            Expectation::Below(x) => Interval {
                lo: NEG_INFINITY_BITS,
                lo_open: true,
                hi: x.bits,
                hi_open: true,
            },
            Expectation::Above(x) => Interval {
                lo: x.bits,
                lo_open: true,
                hi: INFINITY_BITS,
                hi_open: true,
            },
            Expectation::Within(range) => Interval {
                lo: range[0].bits,
                lo_open: false,
                hi: range[1].bits,
                hi_open: false,
            },
        }
    }

    /// The set of metric values this expectation accepts.
    pub fn interval(&self) -> (r: Interval)
        ensures
            r == self.spec_interval(),
            // what the interval accepts, stated of every finite value
            forall|v: u64|
                #![trigger r.admits(v)]
                spec_finite(v) ==> (r.admits(v) <==> match *self {
                    Expectation::Below(x) => spec_lt(v, x.bits),
                    Expectation::Above(x) => spec_lt(x.bits, v),
                    Expectation::Within(range) => spec_le(range[0].bits, v) && spec_le(
                        v,
                        range[1].bits,
                    ),
                }),
    {
        match self {
            Expectation::Below(x) => Interval {
                lo: NEG_INFINITY_BITS,
                lo_open: true,
                hi: x.bits,
                hi_open: true,
            },
            Expectation::Above(x) => Interval {
                lo: x.bits,
                lo_open: true,
                hi: INFINITY_BITS,
                hi_open: true,
            },
            Expectation::Within(range) => Interval {
                lo: range[0].bits,
                lo_open: false,
                hi: range[1].bits,
                hi_open: false,
            },
        }
    }

    pub open spec fn bound_bits(self) -> Seq<u64> {
        match self {
            Expectation::Below(x) => seq![x.bits],
            Expectation::Above(x) => seq![x.bits],
            Expectation::Within(range) => seq![range[0].bits, range[1].bits],
        }
    }

    /// The numbers written in the spec, for well-formedness checks.
    pub fn bounds(&self) -> (r: Vec<u64>)
        ensures
            r@ == self.bound_bits(),
    {
        match self {
            Expectation::Below(x) => vec![x.bits],
            Expectation::Above(x) => vec![x.bits],
            Expectation::Within(range) => vec![range[0].bits, range[1].bits],
        }
    }

    /// The expectation that a map with the keys `below`, `above` and
    /// `within` states, when exactly one of them is present.
    pub open spec fn spec_from_parts(
        below: Option<Number>,
        above: Option<Number>,
        within: Option<[Number; 2]>,
    ) -> Option<Expectation> {
        match (below, above, within) {
            (Some(x), None, None) => Some(Expectation::Below(x)),
            (None, Some(x), None) => Some(Expectation::Above(x)),
            (None, None, Some(range)) => Some(Expectation::Within(range)),
            _ => None,
        }
    }

    /// Builds an expectation from the keys of its map form. Exactly one of
    /// `below`, `above` and `within` must be present.
    pub fn from_parts(
        below: Option<Number>,
        above: Option<Number>,
        within: Option<[Number; 2]>,
    ) -> (r: Result<Expectation, String>)
        ensures
            match r {
                Ok(e) => Self::spec_from_parts(below, above, within) == Some(e),
                Err(message) => Self::spec_from_parts(below, above, within) is None
                    && message@ == ONE_BOUND_MESSAGE@,
            },
    {
        match (below, above, within) {
            (Some(x), None, None) => Ok(Expectation::Below(x)),
            (None, Some(x), None) => Ok(Expectation::Above(x)),
            (None, None, Some(range)) => Ok(Expectation::Within(range)),
            _ => Err(String::from_str(ONE_BOUND_MESSAGE)),
        }
    }

    pub open spec fn spec_into_parts(self) -> (Option<Number>, Option<Number>, Option<[Number; 2]>) {
        match self {
            Expectation::Below(x) => (Some(x), None, None),
            Expectation::Above(x) => (None, Some(x), None),
            Expectation::Within(range) => (None, None, Some(range)),
        }
    }

    /// The keys of the map form: `(below, above, within)`, one of them present.
    pub fn into_parts(self) -> (r: (Option<Number>, Option<Number>, Option<[Number; 2]>))
        ensures
            r == self.spec_into_parts(),
    {
        match self {
            Expectation::Below(x) => (Some(x), None, None),
            Expectation::Above(x) => (None, Some(x), None),
            Expectation::Within(range) => (None, None, Some(range)),
        }
    }
}

/// Writing an expectation as its map form and reading that back gives the
/// same expectation; a map form that reads as an expectation is the one
/// that expectation writes.
pub proof fn lemma_parts_round_trip(
    e: Expectation,
    below: Option<Number>,
    above: Option<Number>,
    within: Option<[Number; 2]>,
)
    ensures
        Expectation::spec_from_parts(e.spec_into_parts().0, e.spec_into_parts().1, e.spec_into_parts().2)
            == Some(e),
        Expectation::spec_from_parts(below, above, within) == Some(e) ==> e.spec_into_parts() == (
            below,
            above,
            within,
        ),
{
}

impl Interval {
    /// The value `v` (a bit pattern) lies in the interval.
    pub open spec fn admits(self, v: u64) -> bool {
        &&& if self.lo_open {
            spec_lt(self.lo, v)
        } else {
            spec_le(self.lo, v)
        }
        &&& if self.hi_open {
            spec_lt(v, self.hi)
        } else {
            spec_le(v, self.hi)
        }
    }

    pub open spec fn left_of(self, other: Interval) -> bool {
        spec_lt(self.hi, other.lo) || (spec_eq(self.hi, other.lo) && (self.hi_open || other.lo_open))
    }

    /// The interval holds no value of the line: a NaN bound, a lower bound
    /// above the upper one, or equal bounds with an open end.
    pub open spec fn empty(self) -> bool {
        ||| spec_nan(self.lo)
        ||| spec_nan(self.hi)
        ||| spec_lt(self.hi, self.lo)
        ||| (spec_eq(self.lo, self.hi) && (self.lo_open || self.hi_open))
    }

    /// No value lies in both intervals: one of them is empty, or one lies
    /// wholly to the left of the other.
    pub open spec fn disjoint(self, other: Interval) -> bool {
        self.empty() || other.empty() || self.left_of(other) || other.left_of(self)
    }

    /// Points of the extended real line as binary64 bounds tell them apart:
    /// the point `2 * rank(x)` stands for the value `x`, and the odd point
    /// between two such points for the values strictly between two adjacent
    /// binary64 values. An interval with a NaN bound admits no point.
    pub open spec fn admits_point(self, p: int) -> bool {
        &&& !spec_nan(self.lo)
        &&& !spec_nan(self.hi)
        &&& if self.lo_open {
            2 * rank(self.lo) < p
        } else {
            2 * rank(self.lo) <= p
        }
        &&& if self.hi_open {
            p < 2 * rank(self.hi)
        } else {
            p <= 2 * rank(self.hi)
        }
    }

    /// True when the interval holds no value.
    pub fn is_empty(&self) -> (r: bool)
        ensures
            r == self.empty(),
    {
        is_nan(self.lo) || is_nan(self.hi) || lt(self.hi, self.lo) || (eq(self.lo, self.hi) && (
        self.lo_open || self.hi_open))
    }

    /// True when no single value satisfies both intervals, meaning any
    /// observed result is inconsistent with at least one of them.
    pub fn is_disjoint_from(&self, other: &Interval) -> (r: bool)
        ensures
            r == self.disjoint(*other),
            r <==> !(exists|p: int| self.admits_point(p) && other.admits_point(p)),
    {
        proof {
            lemma_disjoint_iff_no_common_point(*self, *other);
        }
        self.is_empty() || other.is_empty() || self.lies_left_of(other) || other.lies_left_of(self)
    }

    fn lies_left_of(&self, other: &Interval) -> (r: bool)
        ensures
            r == self.left_of(*other),
    {
        lt(self.hi, other.lo) || (eq(self.hi, other.lo) && (self.hi_open || other.lo_open))
    }
}

/// Intervals are equal when their bounds are equal values and their ends
/// equally open. Bounds compare as binary64 values: `0.0` equals `-0.0`, and
/// a NaN bound equals nothing.
impl PartialEq for Interval {
    fn eq(&self, other: &Interval) -> (r: bool) {
        eq(self.lo, other.lo) && self.lo_open == other.lo_open && eq(self.hi, other.hi)
            && self.hi_open == other.hi_open
    }
}

impl PartialEqSpecImpl for Interval {
    open spec fn obeys_eq_spec() -> bool {
        true
    }

    open spec fn eq_spec(&self, other: &Interval) -> bool {
        spec_eq(self.lo, other.lo) && self.lo_open == other.lo_open && spec_eq(self.hi, other.hi)
            && self.hi_open == other.hi_open
    }
}

/// Disjointness does not depend on the order of the two intervals.
pub proof fn lemma_disjoint_symmetric(a: Interval, b: Interval)
    ensures
        a.disjoint(b) == b.disjoint(a),
{
}

/// A value admitted by an interval is the point `2 * rank` of that value.
pub proof fn lemma_value_is_point(i: Interval, v: u64)
    requires
        !spec_nan(v),
    ensures
        i.admits(v) == i.admits_point(2 * rank(v)),
{
}

/// An interval is empty exactly when it admits no point of the line.
pub proof fn lemma_empty_iff_no_point(i: Interval)
    ensures
        i.empty() <==> !(exists|p: int| i.admits_point(p)),
{
    if !i.empty() {
        let lo = 2 * rank(i.lo);
        let hi = 2 * rank(i.hi);
        let p = if lo < hi {
            lo + 1
        } else {
            lo
        };
        assert(i.admits_point(p));
    }
}

/// Two intervals are disjoint exactly when no point of the line lies in
/// both. Disjoint intervals in particular share no binary64 value.
pub proof fn lemma_disjoint_iff_no_common_point(a: Interval, b: Interval)
    ensures
        a.disjoint(b) <==> !(exists|p: int| a.admits_point(p) && b.admits_point(p)),
        a.disjoint(b) ==> forall|v: u64| !(#[trigger] a.admits(v) && b.admits(v)),
{
    lemma_empty_iff_no_point(a);
    lemma_empty_iff_no_point(b);
    let la = 2 * rank(a.lo);
    let lb = 2 * rank(b.lo);
    let ha = 2 * rank(a.hi);
    let hb = 2 * rank(b.hi);
    let lo = if la > lb {
        la
    } else {
        lb
    };
    let hi = if ha < hb {
        ha
    } else {
        hb
    };
    let p = if lo < hi {
        lo + 1
    } else {
        lo
    };
    if !a.disjoint(b) {
        assert(a.admits_point(p) && b.admits_point(p));
    }
    if a.disjoint(b) {
        assert forall|v: u64| !(#[trigger] a.admits(v) && b.admits(v)) by {
            if !spec_nan(v) {
                assert(a.admits(v) == a.admits_point(2 * rank(v)));
                assert(b.admits(v) == b.admits_point(2 * rank(v)));
            }
        }
    }
}

} // verus!
