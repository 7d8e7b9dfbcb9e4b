use cargo_flaky::report::Failure;
use cargo_flaky::report::Reports;

fn fail(name: &str, message: &str) -> Failure {
    Failure::new(String::from(name), String::from(message))
}

#[test]
fn counting_is_idempotent_over_names() {
    let mut reports = Reports::new(3);
    reports.register(fail("t1", "first message"), "bins/a", None);
    reports.register(fail("t1", "second message"), "bins/b", None);
    reports.register(fail("t1", "third message"), "bins/c", None);
    assert_eq!(reports.failed_tests(), 1);
    let entries = reports.entries();
    assert_eq!(entries[0].occurences, 3);
    assert_eq!(entries[0].name, "t1");
    assert_eq!(entries[0].message, "first message");
    assert_eq!(entries[0].bin, "bins/a");
    assert!(entries[0].recording.is_none());
}

#[test]
fn first_sighting_keeps_its_recording() {
    let mut reports = Reports::new(2);
    let claimed = reports.register(fail("t1", "m"), "b", Some(String::from("rec/one")));
    assert!(claimed);
    let claimed_again = reports.register(fail("t1", "m"), "b", Some(String::from("rec/two")));
    assert!(!claimed_again);
    let entries = reports.entries();
    assert_eq!(entries.len(), 1);
    assert_eq!(entries[0].recording.as_deref(), Some("rec/one"));
    assert_eq!(entries[0].occurences, 2);
}

#[test]
fn promotion_happens_at_most_once_per_name() {
    let mut reports = Reports::new(10);
    let mut promotions = 0usize;
    for i in 0..6 {
        let name = if i % 2 == 0 { "even" } else { "odd" };
        let dst = Some(format!("rec/{}", i));
        if reports.register(fail(name, "m"), "b", dst) {
            promotions += 1;
        }
    }
    assert_eq!(promotions, 2);
    assert_eq!(reports.failed_tests(), 2);
}

#[test]
fn recordings_never_exceed_distinct_names() {
    let mut reports = Reports::new(10);
    reports.register(fail("a", "m"), "b", Some(String::from("r0")));
    reports.register(fail("b", "m"), "b", None);
    reports.register(fail("a", "m"), "b", Some(String::from("r1")));
    reports.register(fail("c", "m"), "b", Some(String::from("r2")));
    let recorded = reports
        .entries()
        .iter()
        .filter(|e| e.recording.is_some())
        .count();
    assert!(recorded <= reports.failed_tests());
    assert_eq!(recorded, 2);
}

#[test]
fn report_shows_full_rate() {
    let mut reports = Reports::new(3);
    for _ in 0..3 {
        reports.register(fail("t1", "boom"), "target/debug/suite", None);
    }
    let text = reports.render();
    assert!(text.contains("test: t1"));
    assert!(text.contains("failures: 3/3 (100%)"));
}

#[test]
fn report_shows_partial_rate() {
    let mut reports = Reports::new(3);
    for _ in 0..2 {
        reports.register(fail("t1", "boom"), "target/debug/suite", None);
    }
    let text = reports.render();
    assert!(text.contains("failures: 2/3 (66.66%)"));
}

#[test]
fn rendered_report_has_exact_shape() {
    let mut reports = Reports::new(2);
    reports.register(fail("t1", "boom"), "bins/suite", None);
    let text = reports.render();
    let expected = "====== FOUND 1 FAILING TESTS ======\n\
                    test: t1\n\
                    failures: 1/2 (50%)\n\
                    path: bins/suite\n\
                    message:\nboom\n\
                    \n------------------------------------\n";
    assert_eq!(text, expected);
}

#[test]
fn rendered_report_names_the_recording() {
    let mut reports = Reports::new(1);
    reports.register(fail("t1", "boom"), "bins/suite", Some(String::from("recordings/suite/record_iter_0")));
    let text = reports.render();
    assert!(text.contains("recording available at: recordings/suite/record_iter_0\n"));
}

#[test]
fn empty_report_renders_headline_only() {
    let reports = Reports::new(5);
    assert_eq!(reports.failed_tests(), 0);
    assert_eq!(reports.render(), "====== FOUND 0 FAILING TESTS ======\n");
}

#[test]
fn has_report_tracks_names() {
    let mut reports = Reports::new(1);
    assert!(!reports.has_report("t1"));
    reports.register(fail("t1", "m"), "b", None);
    assert!(reports.has_report("t1"));
    assert!(!reports.has_report("t2"));
}
