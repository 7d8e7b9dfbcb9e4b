use cargo_flaky::args::Args;
use cargo_flaky::args::Command;
use cargo_flaky::args::RrOptions;
use cargo_flaky::args::TestOptions;
use cargo_flaky::text::dec_string;

#[test]
fn decimal_rendering() {
    assert_eq!(dec_string(0), "0");
    assert_eq!(dec_string(7), "7");
    assert_eq!(dec_string(10), "10");
    assert_eq!(dec_string(105), "105");
    assert_eq!(dec_string(18446744073709551615), "18446744073709551615");
}

#[test]
fn command_hands_out_its_args() {
    let command = Command::Flaky(Args {
        release: true,
        iter: 100,
        rr: RrOptions { record: false, record_out_dir: String::from("recordings"), chaos: false },
        test_opts: TestOptions { jobs: None, build_args: Vec::new(), extra: Vec::new() },
    });
    let args = command.deref();
    assert!(args.release);
    assert_eq!(args.iter, 100);
    assert!(!args.rr.record);
}
