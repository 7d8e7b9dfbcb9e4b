use cargo_flaky::args::RrOptions;
use cargo_flaky::args::TestOptions;
use cargo_flaky::parser::parse_test_output;
use cargo_flaky::runner::file_name;
use cargo_flaky::runner::Report;
use cargo_flaky::runner::RrTask;
use cargo_flaky::runner::RunError;
use cargo_flaky::runner::Runner;
use cargo_flaky::runner::TestTask;

fn test_opts(jobs: Option<usize>) -> TestOptions {
    TestOptions { jobs, build_args: Vec::new(), extra: Vec::new() }
}

fn rr_opts(record: bool, chaos: bool) -> RrOptions {
    RrOptions { record, record_out_dir: String::from("recordings"), chaos }
}

#[test]
fn direct_command_line() {
    let opts = test_opts(Some(4));
    let mut task = TestTask::new("target/debug/suite", &opts);
    task.advance();
    let argv = task.cmd();
    assert_eq!(argv, vec![
        String::from("target/debug/suite"),
        String::from("--test-threads"),
        String::from("4"),
    ]);
}

#[test]
fn direct_command_line_defaults_to_cpu_count() {
    let opts = test_opts(None);
    let task = TestTask::new("bin", &opts);
    let argv = task.cmd();
    assert_eq!(argv.len(), 3);
    assert_eq!(argv[1], "--test-threads");
    let threads: usize = argv[2].parse().unwrap();
    assert!(threads >= 1);
}

#[test]
fn recorded_command_line_with_chaos() {
    let rr = rr_opts(true, true);
    let opts = test_opts(Some(2));
    let mut task = RrTask::new("target/debug/suite", &rr, &opts);
    task.advance();
    let argv = task.cmd("/tmp/scratch");
    assert_eq!(argv, vec![
        String::from("rr"),
        String::from("record"),
        String::from("--chaos"),
        String::from("-o"),
        String::from("/tmp/scratch/record_iter_1"),
        String::from("target/debug/suite"),
        String::from("--test-threads"),
        String::from("2"),
    ]);
}

#[test]
fn recorded_command_line_without_chaos() {
    let rr = rr_opts(true, false);
    let opts = test_opts(Some(1));
    let task = RrTask::new("bin", &rr, &opts);
    let argv = task.cmd("scratch");
    assert_eq!(argv, vec![
        String::from("rr"),
        String::from("record"),
        String::from("-o"),
        String::from("scratch/record_iter_0"),
        String::from("bin"),
        String::from("--test-threads"),
        String::from("1"),
    ]);
}

#[test]
fn crash_without_failures_is_an_execution_error() {
    let opts = test_opts(Some(1));
    let task = TestTask::new("bin", &opts);
    let out = "Killed\n";
    match task.conclude(out, false) {
        Err(RunError::Execution(msg)) => assert_eq!(msg, out),
        _ => panic!("expected an execution error"),
    }
}

#[test]
fn nonzero_exit_with_parsed_failures_is_normal() {
    let opts = test_opts(Some(1));
    let task = TestTask::new("bin", &opts);
    let out = "---- t1 ----\nboom\n\n";
    let report = task.conclude(out, false).unwrap();
    assert_eq!(report.failures.len(), 1);
    assert_eq!(report.failures[0].name, "t1");
    assert!(report.recording.is_none());
}

#[test]
fn clean_exit_without_failures_is_ok() {
    let opts = test_opts(Some(1));
    let task = TestTask::new("bin", &opts);
    let report = task.conclude("all good\n", true).unwrap();
    assert_eq!(report.failures.len(), 0);
}

#[test]
fn recorded_conclude_carries_the_recording() {
    let rr = rr_opts(true, false);
    let opts = test_opts(Some(1));
    let task = RrTask::new("bin", &rr, &opts);
    let out = "---- t1 ----\nboom\n\n";
    let report = task.conclude(out, false, String::from("/tmp/eph")).unwrap();
    assert_eq!(report.recording.as_deref(), Some("/tmp/eph"));
}

#[test]
fn unrecorded_run_never_asks_for_a_rename() {
    let rr = rr_opts(false, false);
    let opts = test_opts(Some(1));
    let bins = vec![String::from("target/debug/suite")];
    let mut runner = Runner::new(bins, &rr, 2, &opts);
    let mut batches = 0;
    while let Some((_bin, _iter, recorded)) = runner.next_batch() {
        assert!(!recorded);
        let failures = parse_test_output("---- t1 ----\nboom\n\n");
        let op = runner
            .record_batch(Report { failures, recording: None })
            .unwrap();
        assert!(op.is_none());
        batches += 1;
    }
    assert_eq!(batches, 2);
    let reports = runner.into_reports();
    assert_eq!(reports.failed_tests(), 1);
    assert_eq!(reports.entries()[0].occurences, 2);
}

#[test]
fn first_batch_claims_the_recording() {
    let rr = rr_opts(true, false);
    let opts = test_opts(Some(1));
    let bins = vec![String::from("target/debug/suite")];
    let mut runner = Runner::new(bins, &rr, 2, &opts);

    let (bin, iter, recorded) = runner.next_batch().unwrap();
    assert_eq!(bin, "target/debug/suite");
    assert_eq!(iter, 0);
    assert!(recorded);
    let failures = parse_test_output("---- t1 ----\nboom\n\n");
    let op = runner
        .record_batch(Report { failures, recording: Some(String::from("/tmp/eph0")) })
        .unwrap()
        .expect("the first sighting claims the recording");
    assert_eq!(op.src, "/tmp/eph0");
    assert_eq!(op.dir, "recordings/suite");
    assert_eq!(op.dst, "recordings/suite/record_iter_0");

    let failures = parse_test_output("---- t1 ----\nboom\n\n");
    let op = runner
        .record_batch(Report { failures, recording: Some(String::from("/tmp/eph1")) })
        .unwrap();
    assert!(op.is_none(), "a name already seen claims nothing");

    assert!(runner.next_batch().is_none());
    let reports = runner.into_reports();
    assert_eq!(
        reports.entries()[0].recording.as_deref(),
        Some("recordings/suite/record_iter_0")
    );
}

#[test]
fn one_batch_promotes_at_most_one_recording() {
    let rr = rr_opts(true, false);
    let opts = test_opts(Some(1));
    let bins = vec![String::from("suite")];
    let mut runner = Runner::new(bins, &rr, 1, &opts);
    let failures = parse_test_output("---- a ----\nx\n\n---- b ----\ny\n\n");
    let op = runner
        .record_batch(Report { failures, recording: Some(String::from("/tmp/eph")) })
        .unwrap()
        .expect("one promotion for the batch");
    assert_eq!(op.dst, "recordings/suite/record_iter_0");
    let reports = runner.into_reports();
    assert_eq!(reports.failed_tests(), 2);
    let recorded = reports
        .entries()
        .iter()
        .filter(|e| e.recording.is_some())
        .count();
    assert_eq!(recorded, 1, "only the first newly-seen name keeps the recording");
}

#[test]
fn binary_path_without_file_name_cannot_record() {
    let rr = rr_opts(true, false);
    let opts = test_opts(Some(1));
    let bins = vec![String::from("dir/")];
    let mut runner = Runner::new(bins, &rr, 1, &opts);
    let failures = parse_test_output("---- t ----\nx\n\n");
    let err = runner
        .record_batch(Report { failures, recording: Some(String::from("/tmp/eph")) })
        .unwrap_err();
    assert!(matches!(err, RunError::InvalidRecordingDest));
}

#[test]
fn cancellation_stops_scheduling_and_keeps_the_report() {
    let rr = rr_opts(false, false);
    let opts = test_opts(Some(1));
    let bins = vec![String::from("a"), String::from("b")];
    let mut runner = Runner::new(bins, &rr, 5, &opts);
    let failures = parse_test_output("---- t1 ----\nboom\n\n");
    runner
        .record_batch(Report { failures, recording: None })
        .unwrap();
    runner.cancel();
    assert!(runner.next_batch().is_none());
    let reports = runner.into_reports();
    assert_eq!(reports.failed_tests(), 1);
}

#[test]
fn iterations_walk_through_every_binary() {
    let rr = rr_opts(false, false);
    let opts = test_opts(Some(1));
    let bins = vec![String::from("a"), String::from("b")];
    let mut runner = Runner::new(bins, &rr, 2, &opts);
    let mut seen = Vec::new();
    while let Some((bin, iter, _)) = runner.next_batch() {
        seen.push((bin, iter));
        let failures = parse_test_output("");
        runner.record_batch(Report { failures, recording: None }).unwrap();
    }
    assert_eq!(seen, vec![
        (String::from("a"), 0),
        (String::from("a"), 1),
        (String::from("b"), 0),
        (String::from("b"), 1),
    ]);
    assert_eq!(runner.into_reports().failed_tests(), 0);
}

#[test]
fn zero_iterations_schedule_nothing() {
    let rr = rr_opts(false, false);
    let opts = test_opts(Some(1));
    let runner = Runner::new(vec![String::from("a")], &rr, 0, &opts);
    assert!(runner.next_batch().is_none());
}

#[test]
fn file_name_takes_the_last_component() {
    assert_eq!(file_name("a/b/c"), "c");
    assert_eq!(file_name("plain"), "plain");
    assert_eq!(file_name("ends/with/slash/"), "");
    assert_eq!(file_name(""), "");
}
