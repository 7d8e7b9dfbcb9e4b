use cargo_flaky::parser::parse_test_output;
use cargo_flaky::parser::Parser;

#[test]
fn two_blocks_in_one_batch() {
    let out = "---- foo::bar ----\nassertion failed\n\n---- baz ----\npanic\n\n";
    let failures = parse_test_output(out);
    assert_eq!(failures.len(), 2);
    assert_eq!(failures[0].name, "foo::bar");
    assert_eq!(failures[0].message, "assertion failed");
    assert_eq!(failures[1].name, "baz");
    assert_eq!(failures[1].message, "panic");
}

#[test]
fn no_delimiters_yields_empty_list() {
    let out = "running 5 tests\ntest a ... ok\ntest b ... ok\nall fine\n";
    let failures = parse_test_output(out);
    assert_eq!(failures.len(), 0);
}

#[test]
fn empty_input_yields_empty_list() {
    let failures = parse_test_output("");
    assert_eq!(failures.len(), 0);
}

#[test]
fn block_with_no_message_at_eof() {
    let failures = parse_test_output("---- lonely ----");
    assert_eq!(failures.len(), 1);
    assert_eq!(failures[0].name, "lonely");
    assert_eq!(failures[0].message, "");
}

#[test]
fn block_without_trailing_blank_line_still_closes() {
    let failures = parse_test_output("---- t ----\nboom");
    assert_eq!(failures.len(), 1);
    assert_eq!(failures[0].name, "t");
    assert_eq!(failures[0].message, "boom");
}

#[test]
fn multiline_message_keeps_inner_newlines() {
    let failures = parse_test_output("---- t ----\nline one\nline two\n\n");
    assert_eq!(failures.len(), 1);
    assert_eq!(failures[0].message, "line one\nline two");
}

#[test]
fn carriage_returns_are_stripped() {
    let failures = parse_test_output("---- t ----\r\nboom\r\n\r\n");
    assert_eq!(failures.len(), 1);
    assert_eq!(failures[0].name, "t");
    assert_eq!(failures[0].message, "boom");
}

#[test]
fn name_is_captured_verbatim() {
    let failures = parse_test_output("---- tests::my mod::weird name ----\nx\n\n");
    assert_eq!(failures.len(), 1);
    assert_eq!(failures[0].name, "tests::my mod::weird name");
}

#[test]
fn whitespace_only_line_closes_the_block() {
    let failures = parse_test_output("---- t ----\nmsg\n   \nthis is not part of the message\n");
    assert_eq!(failures.len(), 1);
    assert_eq!(failures[0].message, "msg");
}

#[test]
fn chatter_between_blocks_is_skipped() {
    let out = "noise\n---- a ----\nfirst\n\nmore noise here\n---- b ----\nsecond\n\ntrailing";
    let failures = parse_test_output(out);
    assert_eq!(failures.len(), 2);
    assert_eq!(failures[0].name, "a");
    assert_eq!(failures[0].message, "first");
    assert_eq!(failures[1].name, "b");
    assert_eq!(failures[1].message, "second");
}

#[test]
fn line_with_extra_text_around_delimiter_is_not_a_delimiter() {
    let failures = parse_test_output("prefix ---- t ---- suffix\n");
    assert_eq!(failures.len(), 0);
}

#[test]
fn incremental_parser_agrees_with_one_shot_parse() {
    let stream = "noise\n---- a ----\nfirst line\nsecond line\n\n---- b ----\npanic\n\ntail";
    let mut parser = Parser::new();
    for line in stream.split('\n') {
        parser.feed_line(line);
    }
    let incremental = parser.finish();
    let batch = parse_test_output(stream);
    assert_eq!(incremental.len(), batch.len());
    for (a, b) in incremental.iter().zip(batch.iter()) {
        assert_eq!(a.name, b.name);
        assert_eq!(a.message, b.message);
    }
    assert_eq!(incremental.len(), 2);
    assert_eq!(incremental[0].message, "first line\nsecond line");
}

#[test]
fn incremental_parser_closes_an_open_block_at_the_end() {
    let mut parser = Parser::new();
    parser.feed_line("---- t ----");
    parser.feed_line("boom");
    let failures = parser.finish();
    assert_eq!(failures.len(), 1);
    assert_eq!(failures[0].name, "t");
    assert_eq!(failures[0].message, "boom");
}

#[test]
fn empty_name_is_accepted() {
    let failures = parse_test_output("----  ----\nmsg\n\n");
    assert_eq!(failures.len(), 1);
    assert_eq!(failures[0].name, "");
    assert_eq!(failures[0].message, "msg");
}
