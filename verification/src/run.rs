//! The decisions of a validation run over several spec files.
//!
//! A run reads each file in turn, whatever happened to earlier ones, and
//! prints each spec's diagnostics followed by a summary line. A file that
//! cannot be read or parsed makes the run exit with 2; otherwise a spec with
//! errors makes it exit with 1; otherwise it exits with 0, so the run works
//! as a CI gate. Reading and printing are the caller's; what follows from
//! each outcome is decided here.
use vstd::prelude::*;

use crate::text::{decimal, decimal_text};
use crate::validate::{Finding, Report, Severity, of_severity, rendered};

verus! {

/// What a run has met so far.
#[derive(Debug, Clone, Copy, PartialEq, Eq, Structural)]
pub struct RunState {
    /// Some file could not be read or parsed.
    pub unreadable: bool,
    /// Some spec had errors.
    pub failed: bool,
}

impl RunState {
    /// The state before any file.
    pub fn new() -> (r: RunState)
        ensures
            r == (RunState { unreadable: false, failed: false }),
    {
        RunState { unreadable: false, failed: false }
    }
}

/// A file could not be read or parsed.
pub fn on_unreadable(s: RunState) -> (r: RunState)
    ensures
        r == (RunState { unreadable: true, failed: s.failed }),
{
    RunState { unreadable: true, failed: s.failed }
}

/// The line that closes a spec's output.
pub open spec fn summary_line(path: Seq<char>, errors: nat, warnings: nat) -> Seq<char> {
    if errors > 0 {
        path + ": FAILED ("@ + decimal(errors) + " error(s), "@ + decimal(warnings)
            + " warning(s))"@
    } else {
        path + ": ok ("@ + decimal(warnings) + " warning(s))"@
    }
}

/// What a run prints for a spec at `path` with report `report`: one line per
/// diagnostic, then the summary line.
pub open spec fn report_lines(path: Seq<char>, report: Seq<Finding>) -> Seq<Seq<char>> {
    Seq::new(report.len(), |i: int| path + ": "@ + rendered(report[i])).push(
        summary_line(
            path,
            of_severity(report, Severity::Error).len(),
            of_severity(report, Severity::Warning).len(),
        ),
    )
}

/// A spec at `path` was read and validated with result `report`: the lines
/// to print, and the state after it.
pub fn on_report(s: RunState, path: &str, report: &Report) -> (r: (RunState, Vec<String>))
    ensures
        r.0 == (RunState {
            unreadable: s.unreadable,
            failed: s.failed || of_severity(report@, Severity::Error).len() > 0,
        }),
        r.1@.len() == report@.len() + 1,
        forall|i: int| 0 <= i < r.1@.len() ==> #[trigger] r.1@[i]@ == report_lines(path@, report@)[i],
{
    let mut lines: Vec<String> = Vec::new();
    let mut i: usize = 0;
    while i < report.diagnostics.len()
        invariant
            i <= report@.len(),
            lines@.len() == i,
            forall|k: int| 0 <= k < i ==> #[trigger] lines@[k]@ == path@ + ": "@ + rendered(report@[k]),
        decreases report.diagnostics.len() - i,
    {
        let mut line = String::from_str(path);
        line.append(": ");
        line.append(report.diagnostics[i].render().as_str());
        lines.push(line);
        i = i + 1;
    }
    let errors = report.errors().len();
    let warnings = report.warnings().len();
    let mut summary = String::from_str(path);
    if errors > 0 {
        summary.append(": FAILED (");
        summary.append(decimal_text(errors).as_str());
        summary.append(" error(s), ");
        summary.append(decimal_text(warnings).as_str());
        summary.append(" warning(s))");
    } else {
        summary.append(": ok (");
        summary.append(decimal_text(warnings).as_str());
        summary.append(" warning(s))");
    }
    lines.push(summary);
    let failed = s.failed || errors > 0;
    (RunState { unreadable: s.unreadable, failed }, lines)
}

/// The exit status of a run in state `s`.
pub fn exit_status(s: RunState) -> (c: u8)
    ensures
        c == (if s.unreadable {
            2u8
        } else if s.failed {
            1u8
        } else {
            0u8
        }),
{
    if s.unreadable {
        2
    } else if s.failed {
        1
    } else {
        0
    }
}

} // verus!
