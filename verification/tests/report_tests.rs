//! Batch summary and exit code.

use imzip::report::{exit_code, finish_reports, report_line, summarize, summary_line, FileReport, Status, Stream};

fn report(status: Status, in_bytes: u64, out_bytes: u64) -> FileReport {
    FileReport { index: 1, input: "a".to_string(), output: None, in_bytes, out_bytes, status, note: None }
}

#[test]
fn summary_counts_and_totals() {
    let rs = vec![
        report(Status::Success { quality: None }, 100, 60),
        report(Status::Success { quality: Some(70) }, 50, 40),
        report(Status::Skipped("already under target size".to_string()), 10, 0),
        report(Status::AlreadyOptimal, 10, 20),
        report(Status::DryRun, 5, 0),
    ];
    let s = summarize(&rs);
    assert_eq!((s.ok, s.skipped, s.failed, s.planned), (2, 2, 0, 1));
    assert_eq!((s.total_in, s.total_out), (150, 100));
    assert_eq!(exit_code(&s), 0);
}

#[test]
fn any_failure_gives_exit_code_one() {
    let rs = vec![report(Status::Success { quality: None }, 1, 1), report(Status::Failed("boom".to_string()), 0, 0)];
    let s = summarize(&rs);
    assert_eq!(s.failed, 1);
    assert_eq!(exit_code(&s), 1);
    assert_eq!(exit_code(&summarize(&[])), 0);
}

#[test]
fn discovery_failures_go_last_and_order_is_by_index() {

    let rs = vec![
        FileReport { index: 2, ..report(Status::DryRun, 0, 0) },
        FileReport { index: 1, ..report(Status::DryRun, 0, 0) },
    ];
    let out = finish_reports(rs, vec![("missing.jpg".to_string(), "no such file or directory".to_string())]);
    let idx: Vec<usize> = out.iter().map(|r| r.index).collect();
    assert_eq!(idx, vec![1, 2, usize::MAX]);
    assert_eq!(out[2].input, "missing.jpg");
    assert!(matches!(&out[2].status, Status::Failed(m) if m == "no such file or directory"));
}

#[test]
fn report_lines() {
    let mut r = report(Status::Success { quality: Some(70) }, 100, 60);
    r.output = Some("a_imzip.jpg".to_string());
    assert_eq!(
        report_line(&r, true, false, "60 B", "40.0"),
        Some((Stream::Stdout, "OK   a -> a_imzip.jpg (60 B, saved 40.0%) [quality 70]".to_string()))
    );
    assert_eq!(report_line(&r, false, false, "60 B", "40.0"), None);
    let f = report(Status::Failed("boom".to_string()), 0, 0);
    assert_eq!(report_line(&f, false, false, "", ""), Some((Stream::Stdout, "FAIL a: boom".to_string())));
    assert_eq!(report_line(&f, false, true, "", ""), Some((Stream::Stderr, "error: a: boom".to_string())));
    let mut d = report(Status::DryRun, 0, 0);
    d.note = Some("format png, size 1x1, quality 75".to_string());
    assert_eq!(
        report_line(&d, false, false, "", ""),
        Some((Stream::Stdout, "DRY  a ->  [format png, size 1x1, quality 75]".to_string()))
    );
    let s = report(Status::Skipped("already under target size".to_string()), 0, 0);
    assert_eq!(
        report_line(&s, true, false, "", ""),
        Some((Stream::Stdout, "SKIP a (already under target size)".to_string()))
    );
    assert_eq!(
        report_line(&report(Status::AlreadyOptimal, 0, 0), true, false, "", ""),
        Some((Stream::Stdout, "SKIP a (already optimal)".to_string()))
    );
}

#[test]
fn summary_lines() {
    let rs = vec![report(Status::Success { quality: None }, 2000, 1000), report(Status::Failed("x".to_string()), 0, 0)];
    let s = summarize(&rs);
    assert_eq!(
        summary_line(&s, false, false, "2.0 KB", "1.0 KB", "50.0"),
        Some("Done: 1 ok, 0 skipped, 1 failed | 2.0 KB -> 1.0 KB (50.0% saved)".to_string())
    );
    assert_eq!(
        summary_line(&s, true, false, "", "", ""),
        Some("Dry run: 0 file(s) planned, 1 failed — nothing written.".to_string())
    );
    assert_eq!(summary_line(&s, false, true, "", "", ""), None);
}
