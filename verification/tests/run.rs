use sondamente::run::{exit_status, on_report, on_unreadable, RunState};
use sondamente::{Code, Diagnostic, Report, Severity};

fn diag(severity: Severity, code: Code, message: &str) -> Diagnostic {
    Diagnostic { severity, code, message: message.to_string() }
}

#[test]
fn a_clean_run_exits_with_zero() {
    let s = RunState::new();
    let (s, lines) = on_report(s, "a.yaml", &Report { diagnostics: vec![] });
    assert_eq!(lines, ["a.yaml: ok (0 warning(s))"]);
    assert_eq!(s, RunState { unreadable: false, failed: false });
    assert_eq!(exit_status(s), 0);
}

#[test]
fn warnings_do_not_fail_a_run() {
    let report = Report {
        diagnostics: vec![diag(Severity::Warning, Code::UnusedMetric, "metric `m` is unused")],
    };
    let (s, lines) = on_report(RunState::new(), "w.yaml", &report);
    assert_eq!(
        lines,
        ["w.yaml: warning[unused-metric]: metric `m` is unused", "w.yaml: ok (1 warning(s))"]
    );
    assert_eq!(exit_status(s), 0);
}

#[test]
fn errors_fail_a_run_with_one() {
    let report = Report {
        diagnostics: vec![
            diag(Severity::Error, Code::EmptyTitle, "title is empty"),
            diag(Severity::Error, Code::EmptySample, "n"),
            diag(Severity::Warning, Code::ClaimWithoutSource, "c"),
        ],
    };
    let (s, lines) = on_report(RunState::new(), "e.yaml", &report);
    assert_eq!(lines.len(), 4);
    assert_eq!(lines[0], "e.yaml: error[empty-title]: title is empty");
    assert_eq!(lines[3], "e.yaml: FAILED (2 error(s), 1 warning(s))");
    assert_eq!(exit_status(s), 1);
    // A later clean spec does not clear the failure.
    let (s, _) = on_report(s, "ok.yaml", &Report { diagnostics: vec![] });
    assert_eq!(exit_status(s), 1);
}

#[test]
fn an_unreadable_file_exits_with_two_whatever_else_happened() {
    let s = on_unreadable(RunState::new());
    assert_eq!(exit_status(s), 2);
    let report = Report { diagnostics: vec![diag(Severity::Error, Code::EmptyTitle, "t")] };
    let (s, _) = on_report(s, "e.yaml", &report);
    assert_eq!(s, RunState { unreadable: true, failed: true });
    assert_eq!(exit_status(s), 2);
}
