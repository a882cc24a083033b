use sse::buffered_reader::LineError;
use sse::cap_groups::CapGroup;
use sse::cli::{Eol, InitialFlagOptions, Input, Matching, Output};
use sse::pattern::{Captures, Matches};
use sse::work::{do_work, transform_line, transform_text, write_line, write_segments, Action};
use std::io::BufRead;

/// What a run did to its output.
#[derive(Debug, Default, PartialEq)]
struct Outcome {
    /// The bytes that were written while the input was read.
    written: Vec<u8>,
    /// The number of writes.
    writes: usize,
    /// The output was flushed.
    finished: bool,
    /// The bytes that the output was rewritten with.
    rewritten: Option<Vec<u8>>,
    /// The number of reads that were served before the rewrite.
    reads_before_rewrite: usize,
    reports: Vec<LineError>,
    failure: Option<LineError>,
}

/// Runs the engine over an input in memory. The read with the number
/// `failing_read`, counted from 0, fails.
fn run(
    opts: &InitialFlagOptions,
    pattern: &str,
    format: &str,
    input: &[u8],
    failing_read: Option<usize>,
) -> Outcome {
    let regex = opts.build_regex(pattern).unwrap();
    let caps = if opts.literal_match {
        vec![CapGroup::CopyFromInput(format)]
    } else {
        CapGroup::build_groups(format)
    };
    let mut work = do_work(opts, &regex, &caps);
    let mut source: &[u8] = input;
    let mut outcome = Outcome::default();
    let mut reads = 0;
    let mut steps = 0;
    loop {
        steps += 1;
        assert!(steps < 10_000);
        match work.next() {
            Action::Read(byte) => {
                if failing_read == Some(reads) {
                    work.feed(Err("read failed".to_string()));
                } else {
                    let mut chunk = Vec::new();
                    source.read_until(byte, &mut chunk).unwrap();
                    work.feed(Ok(chunk));
                }
                reads += 1;
            }
            Action::ReadAll => {
                if failing_read == Some(reads) {
                    work.feed(Err("read failed".to_string()));
                } else {
                    work.feed(Ok(source.to_vec()));
                    source = b"";
                }
                reads += 1;
            }
            Action::Write(bytes) => {
                assert!(outcome.rewritten.is_none());
                outcome.written.extend_from_slice(&bytes);
                outcome.writes += 1;
            }
            Action::Continue => {}
            Action::Report(error) => outcome.reports.push(error),
            Action::Finish => outcome.finished = true,
            Action::Rewrite(bytes) => {
                assert!(outcome.rewritten.is_none());
                outcome.rewritten = Some(bytes);
                outcome.reads_before_rewrite = reads;
            }
            Action::Fail(error) => outcome.failure = Some(error),
            Action::Done => return outcome,
        }
    }
}

fn streamed(opts: &InitialFlagOptions, pattern: &str, format: &str, input: &str) -> String {
    let outcome = run(opts, pattern, format, input.as_bytes(), None);
    assert!(outcome.finished);
    assert_eq!(outcome.rewritten, None);
    assert_eq!(outcome.failure, None);
    String::from_utf8(outcome.written).unwrap()
}

fn rewrite(opts: &InitialFlagOptions, pattern: &str, format: &str, input: &str) -> String {
    let outcome = run(opts, pattern, format, input.as_bytes(), None);
    assert!(!outcome.finished);
    assert_eq!(outcome.writes, 0);
    assert_eq!(outcome.failure, None);
    String::from_utf8(outcome.rewritten.unwrap()).unwrap()
}

fn write_back() -> InitialFlagOptions {
    InitialFlagOptions::default().set_input(Input::File).set_output(Output::SameFile)
}

#[test]
fn lines_are_rewritten_through_the_template() {
    let opts = InitialFlagOptions::default();
    assert_eq!(streamed(&opts, r"(\w),(\d)", "%2-%1", "a,1\nb,2\n"), "1-a\n2-b\n");
}

#[test]
fn nice_mode_keeps_the_line_that_does_not_match() {
    let opts = InitialFlagOptions::default().set_nice(true);
    assert_eq!(
        streamed(&opts, r"(\w),(\d)", "%2-%1", "a,1\nb,2\nnoMatch\n"),
        "1-a\n2-b\nnoMatch\n"
    );
    assert_eq!(
        streamed(&opts, r"(\w),(\d)", "%2-%1", "a,1\nnoMatch\nb,2\n"),
        "1-a\nnoMatch\n2-b\n"
    );
    let opts = InitialFlagOptions::default();
    assert_eq!(streamed(&opts, r"(\w),(\d)", "%2-%1", "a,1\nb,2\nnoMatch\n"), "1-a\n2-b\n");
}

#[test]
fn the_delimiter_comes_back_only_where_it_was() {
    let opts = InitialFlagOptions::default().set_nice(true);
    assert_eq!(streamed(&opts, r"(\w),(\d)", "%2-%1", "a,1\nb,2"), "1-a\n2-b");
    assert_eq!(streamed(&opts, r"(\w),(\d)", "%2-%1", "a,1\nrest"), "1-a\nrest");
    assert_eq!(streamed(&opts, r"(\w),(\d)", "%2-%1", ""), "");
    let windows = opts.set_matching(Matching::LineByLine(Eol::Windows));
    assert_eq!(streamed(&windows, r"(\w),(\d)", "%2-%1", "a,1\r\nx\ny\r\nb,2"), "1-a\r\nx\ny\r\n2-b");
}

#[test]
fn a_line_is_matched_once() {
    let opts = InitialFlagOptions::default();
    assert_eq!(streamed(&opts, r"\d", "<%0>", "123\n45\n"), "<1>\n<4>\n");
}

#[test]
fn every_delimiter_preset_works() {
    let presets: [(Eol, &[u8]); 6] = [
        (Eol::Unix, b"\n"),
        (Eol::Windows, b"\r\n"),
        (Eol::Mac, b"\r"),
        (Eol::Acorn, b"\n\r"),
        (Eol::Ibm, b"\x15"),
        (Eol::Qnx, b"\x1e"),
    ];
    for (eol, bytes) in presets.iter() {
        assert_eq!(eol.get_eol_bytes(), *bytes);
        let opts = InitialFlagOptions::default().set_matching(Matching::LineByLine(*eol));
        let mut input = b"a,1".to_vec();
        input.extend_from_slice(bytes);
        input.extend_from_slice(b"b,2");
        input.extend_from_slice(bytes);
        let mut expected = b"1-a".to_vec();
        expected.extend_from_slice(bytes);
        expected.extend_from_slice(b"2-b");
        expected.extend_from_slice(bytes);
        let outcome = run(&opts, r"(\w),(\d)", "%2-%1", &input, None);
        assert_eq!(outcome.written, expected);
        assert!(outcome.finished);
    }
}

#[test]
fn continuous_mode_matches_across_lines() {
    let opts = InitialFlagOptions::default().set_matching(Matching::Continuous).set_nice(true);
    assert_eq!(streamed(&opts, r"(\w),(\d)", "%2-%1", "a,1\nb,2\nnoMatch\n"), "1-a\n2-b\nnoMatch\n");
    assert_eq!(streamed(&opts, r"b\nc", "[%0]", "a\nb\nc\nd"), "a\n[b\nc]\nd");
    assert_eq!(streamed(&opts, r"^b$", "B", "a\nb\nc"), "a\nB\nc");
    let opts = opts.set_nice(false);
    assert_eq!(streamed(&opts, r"(\w),(\d)", "%2-%1", "a,1\nb,2\nnoMatch\n"), "1-a2-b");
}

#[test]
fn nice_mode_without_any_match_copies_the_input() {
    let text = "nothing\nto see ❤\r\nhere";
    let continuous = InitialFlagOptions::default().set_matching(Matching::Continuous).set_nice(true);
    assert_eq!(streamed(&continuous, r"\d", "%0%0", text), text);
    assert_eq!(streamed(&continuous, r"\d", "%0%0", ""), "");
    let lines = InitialFlagOptions::default().set_nice(true);
    assert_eq!(streamed(&lines, r"\d", "%0%0", text), text);
    assert_eq!(rewrite(&write_back().set_nice(true), r"\d", "%0%0", text), text);
}

#[test]
fn literal_match_takes_pattern_and_format_as_they_stand() {
    let opts = InitialFlagOptions::default().set_literal_match(true).set_nice(true);
    assert_eq!(streamed(&opts, "a.c", "%1\\t", "abc\na.c\n"), "abc\n%1\\t\n");
    let opts = opts.set_case_in_sensitive(true);
    assert_eq!(streamed(&opts, "a.c", "x", "A.C\n"), "A.C\n");
}

#[test]
fn write_back_holds_the_output_until_the_end() {
    let opts = write_back();
    let outcome = run(&opts, r"(\w),(\d)", "%2-%1", b"a,1\nb,2\nc,3", None);
    assert_eq!(outcome.writes, 0);
    assert!(!outcome.finished);
    assert_eq!(outcome.rewritten, Some(b"1-a\n2-b\n3-c".to_vec()));
    assert_eq!(outcome.reads_before_rewrite, 4);
    let continuous = opts.set_matching(Matching::Continuous);
    assert_eq!(rewrite(&continuous, r"(\w),(\d)", "%2-%1;", "a,1\nb,2\nc,3"), "1-a;2-b;3-c;");
}

#[test]
fn write_back_touches_nothing_when_a_read_fails() {
    let opts = write_back();
    let outcome = run(&opts, r"(\w),(\d)", "%2-%1", b"a,1\nb,2\n", Some(1));
    assert_eq!(outcome.writes, 0);
    assert!(!outcome.finished);
    assert_eq!(outcome.rewritten, None);
    assert_eq!(outcome.failure, Some(LineError::Io("read failed".to_string())));

    let continuous = opts.set_matching(Matching::Continuous);
    let outcome = run(&continuous, r"(\w),(\d)", "%2-%1", b"a,1\nb,2\n", Some(0));
    assert_eq!(outcome.writes, 0);
    assert_eq!(outcome.rewritten, None);
    assert_eq!(outcome.failure, Some(LineError::Io("read failed".to_string())));
}

#[test]
fn streaming_keeps_what_was_written_before_a_failed_read() {
    let opts = InitialFlagOptions::default();
    let outcome = run(&opts, r"(\w),(\d)", "%2-%1", b"a,1\nb,2\n", Some(1));
    assert_eq!(outcome.written, b"1-a\n".to_vec());
    assert!(!outcome.finished);
    assert_eq!(outcome.failure, Some(LineError::Io("read failed".to_string())));
}

#[test]
fn line_that_is_no_text_ends_a_write_back() {
    let outcome = run(&write_back(), r"(\w),(\d)", "%2-%1", b"a,1\n\xff\nb,2\n", None);
    assert_eq!(outcome.rewritten, None);
    assert_eq!(outcome.writes, 0);
    assert_eq!(outcome.failure, Some(LineError::InvalidData));
    assert!(outcome.reports.is_empty());
}

#[test]
fn line_that_is_no_text_is_reported_while_streaming() {
    let opts = InitialFlagOptions::default().set_nice(true);
    let outcome = run(&opts, r"(\w),(\d)", "%2-%1", b"a,1\n\xff\nb,2\n", None);
    assert_eq!(outcome.written, b"1-a\n2-b\n".to_vec());
    assert_eq!(outcome.reports, vec![LineError::InvalidData]);
    assert_eq!(outcome.failure, None);
    assert!(outcome.finished);
}

#[test]
fn input_that_is_no_text_ends_continuous_mode() {
    let opts = InitialFlagOptions::default().set_matching(Matching::Continuous).set_nice(true);
    let outcome = run(&opts, r"\d", "%0", b"ab\xffcd", None);
    assert_eq!(outcome.writes, 0);
    assert!(!outcome.finished);
    assert_eq!(outcome.failure, Some(LineError::InvalidData));
}

#[test]
fn a_finished_run_has_nothing_left_to_do() {
    let opts = InitialFlagOptions::default();
    let regex = opts.build_regex("a").unwrap();
    let caps = CapGroup::build_groups("b");
    let mut work = do_work(&opts, &regex, &caps);
    assert!(matches!(work.next(), Action::Read(0x0A)));
    work.feed(Ok(Vec::new()));
    assert!(matches!(work.next(), Action::Finish));
    assert!(matches!(work.next(), Action::Done));
    work.feed(Ok(b"late\n".to_vec()));
    assert!(matches!(work.next(), Action::Done));
}

#[test]
fn transform_line_appends_to_the_writer() {
    let opts = InitialFlagOptions::default();
    let regex = opts.build_regex(r"(\w),(\d)").unwrap();
    let caps = CapGroup::build_groups("%2-%1");
    let mut writer = b"> ".to_vec();
    transform_line(&regex, &caps, "a,1", true, b"\r\n", false, &mut writer);
    transform_line(&regex, &caps, "none", true, b"\r\n", false, &mut writer);
    transform_line(&regex, &caps, "none", true, b"\r\n", true, &mut writer);
    transform_line(&regex, &caps, "b,2", false, b"\r\n", true, &mut writer);
    assert_eq!(writer, b"> 1-a\r\nnone\r\n2-b".to_vec());
}

#[test]
fn write_line_goes_by_what_was_found() {
    let caps = CapGroup::build_groups("<%1>");
    let found = Captures { haystack: "abc", names: &[], spans: vec![Some((0, 3)), Some((1, 2))] };
    let mut writer = Vec::new();
    write_line(&caps, "abc", true, Some(&found), b";", false, &mut writer);
    write_line(&caps, "abc", false, Some(&found), b";", false, &mut writer);
    write_line(&caps, "abc", true, None, b";", true, &mut writer);
    write_line(&caps, "abc", true, None, b";", false, &mut writer);
    assert_eq!(writer, b"<b>;<b>abc;".to_vec());
}

#[test]
fn transform_text_appends_to_the_writer() {
    let opts = InitialFlagOptions::default().set_matching(Matching::Continuous);
    let regex = opts.build_regex(r"(\w),(\d)").unwrap();
    let caps = CapGroup::build_groups("%2-%1");
    let mut writer = b"> ".to_vec();
    transform_text(&regex, &caps, "a,1 and b,2.", true, &mut writer);
    assert_eq!(writer, b"> 1-a and 2-b.".to_vec());
    let mut writer = Vec::new();
    transform_text(&regex, &caps, "a,1 and b,2.", false, &mut writer);
    assert_eq!(writer, b"1-a2-b".to_vec());
    let mut writer = Vec::new();
    let matches = Matches::found("abcd", &[], vec![vec![Some((1, 3)), Some((2, 3))]]);
    write_segments(&caps, "abcd", matches, true, &mut writer);
    assert_eq!(writer, b"a-cd".to_vec());
}

#[test]
fn strictness_can_be_chosen() {
    let opts = InitialFlagOptions::default();
    let regex = opts.build_regex("a").unwrap();
    let caps = CapGroup::build_groups("b");
    let mut work = do_work(&opts, &regex, &caps).set_strict(true);
    assert!(matches!(work.next(), Action::Read(0x0A)));
    work.feed(Ok(b"\xff\n".to_vec()));
    assert!(matches!(work.next(), Action::Fail(LineError::InvalidData)));
    assert!(matches!(work.next(), Action::Done));

    let opts = write_back();
    let mut work = do_work(&opts, &regex, &caps).set_strict(false);
    assert!(matches!(work.next(), Action::Read(0x0A)));
    work.feed(Ok(b"\xff\n".to_vec()));
    assert!(matches!(work.next(), Action::Report(LineError::InvalidData)));
    assert!(matches!(work.next(), Action::Read(0x0A)));
    work.feed(Ok(b"a".to_vec()));
    assert!(matches!(work.next(), Action::Read(0x0A)));
    work.feed(Ok(Vec::new()));
    assert!(matches!(work.next(), Action::Continue));
    assert!(matches!(work.next(), Action::Rewrite(ref bytes) if bytes == b"b"));
    assert!(matches!(work.next(), Action::Done));
}
