use sse::buffered_reader::{BufferedReader, LineError, Step};
use std::io::BufRead;

type Line = Result<(String, bool), LineError>;

fn line(text: &str, terminated: bool) -> Line {
    Ok((text.to_string(), terminated))
}

/// Serves the reads that a reader asks for from a text in memory, at most
/// `limit` bytes at a time.
fn read_lines(input: &[u8], eol: &'static [u8], limit: usize) -> Vec<Line> {
    let mut source: &[u8] = input;
    let mut reader = BufferedReader::new(eol);
    let mut lines = Vec::new();
    let mut steps = 0;
    loop {
        steps += 1;
        assert!(steps < 10_000);
        match reader.next() {
            Step::Line(line) => lines.push(line),
            Step::Read(byte) => {
                let mut chunk = Vec::new();
                let mut window: &[u8] = &source[..source.len().min(limit)];
                let taken = window.read_until(byte, &mut chunk).unwrap();
                source = &source[taken..];
                reader.feed(Ok(chunk));
            }
            Step::Done => return lines,
        }
    }
}

#[test]
fn unix_lines() {
    assert_eq!(read_lines(b"a,1\nb,2\n", b"\n", 64), vec![line("a,1", true), line("b,2", true)]);
    assert_eq!(read_lines(b"a\n\nb", b"\n", 64), vec![line("a", true), line("", true), line("b", false)]);
    assert_eq!(read_lines(b"", b"\n", 64), vec![]);
    assert_eq!(read_lines(b"\n", b"\n", 64), vec![line("", true)]);
    assert_eq!(read_lines(b"no end", b"\n", 64), vec![line("no end", false)]);
}

#[test]
fn windows_lines() {
    let expected = vec![line("x", true), line("y", true)];
    assert_eq!(read_lines(b"x\r\ny\r\n", b"\r\n", 64), expected);
    assert_eq!(
        read_lines(b"x\ry\nz\r\nw", b"\r\n", 64),
        vec![line("x\ry\nz", true), line("w", false)]
    );
    assert_eq!(read_lines(b"x\r", b"\r\n", 64), vec![line("x\r", false)]);
    assert_eq!(read_lines(b"\r\n\r\n", b"\r\n", 64), vec![line("", true), line("", true)]);
}

#[test]
fn first_byte_of_the_delimiter_need_not_come_again() {
    assert_eq!(
        read_lines(b"a\r\nbbbbbbbbbbbbbbbbbbbbbbbbbbbbbbbb", b"\r\n", 64),
        vec![line("a", true), line("bbbbbbbbbbbbbbbbbbbbbbbbbbbbbbbb", false)]
    );
    assert_eq!(
        read_lines(b"a\n\rb\n\rc", b"\n\r", 64),
        vec![line("a", true), line("b", true), line("c", false)]
    );
}

#[test]
fn the_size_of_the_reads_makes_no_difference() {
    let inputs: [&[u8]; 5] = [
        b"one\r\ntwo\r\nthr\ree\r\nfour",
        b"\r\n\r\r\n\n\r\n",
        b"h\xc3\xa9llo\r\nw\xc3\xb6rld\r\n",
        b"",
        b"\r",
    ];
    for input in inputs.iter() {
        let whole = read_lines(input, b"\r\n", 1 << 20);
        for limit in 1..8 {
            assert_eq!(read_lines(input, b"\r\n", limit), whole);
        }
    }
    assert_eq!(
        read_lines(b"one\r\ntwo\r\nthr\ree\r\nfour", b"\r\n", 1),
        vec![line("one", true), line("two", true), line("thr\ree", true), line("four", false)]
    );
}

#[test]
fn line_that_is_no_text_is_a_fault_in_its_place() {
    assert_eq!(
        read_lines(b"ok\n\xff\xfe\nfine\n", b"\n", 64),
        vec![line("ok", true), Err(LineError::InvalidData), line("fine", true)]
    );
    assert_eq!(
        read_lines(b"ok\n\xc3", b"\n", 64),
        vec![line("ok", true), Err(LineError::InvalidData)]
    );
}

#[test]
fn lines_are_decoded_as_utf8() {
    assert_eq!(
        read_lines("héllo\n❤\n".as_bytes(), b"\n", 3),
        vec![line("héllo", true), line("❤", true)]
    );
}

#[test]
fn failed_read_is_queued_behind_the_lines_before_it() {
    let mut reader = BufferedReader::new(b"\n");
    assert!(matches!(reader.next(), Step::Read(0x0A)));
    reader.feed(Ok(b"first\n".to_vec()));
    assert!(matches!(reader.next(), Step::Line(Ok((ref text, true))) if text == "first"));
    assert!(matches!(reader.next(), Step::Read(0x0A)));
    reader.feed(Ok(b"second\nthi".to_vec()));
    assert!(matches!(reader.next(), Step::Line(Ok((ref text, true))) if text == "second"));
    assert!(matches!(reader.next(), Step::Read(0x0A)));
    reader.feed(Err("broken pipe".to_string()));
    assert!(
        matches!(reader.next(), Step::Line(Err(LineError::Io(ref message))) if message == "broken pipe")
    );
    assert!(matches!(reader.next(), Step::Read(0x0A)));
    reader.feed(Ok(b"rd\n".to_vec()));
    assert!(matches!(reader.next(), Step::Line(Ok((ref text, true))) if text == "third"));
    assert!(matches!(reader.next(), Step::Read(0x0A)));
    reader.feed(Ok(Vec::new()));
    assert!(matches!(reader.next(), Step::Done));
    assert!(matches!(reader.next(), Step::Done));
}

#[test]
fn a_pass_reads_once_for_each_byte_of_the_delimiter() {
    let mut reader = BufferedReader::new(b"\r\n");
    assert!(matches!(reader.next(), Step::Read(0x0D)));
    reader.feed(Ok(b"a\r".to_vec()));
    assert!(matches!(reader.next(), Step::Read(0x0A)));
    assert!(matches!(reader.next(), Step::Read(0x0A)));
    reader.feed(Ok(b"\n".to_vec()));
    assert!(matches!(reader.next(), Step::Line(Ok((ref text, true))) if text == "a"));
    assert!(matches!(reader.next(), Step::Read(0x0D)));
    reader.feed(Err("interrupted".to_string()));
    assert!(matches!(reader.next(), Step::Read(0x0A)));
    reader.feed(Ok(b"b\r\nc".to_vec()));
    assert!(matches!(reader.next(), Step::Line(Err(LineError::Io(_)))));
    assert!(matches!(reader.next(), Step::Line(Ok((ref text, true))) if text == "b"));
    assert!(matches!(reader.next(), Step::Read(0x0D)));
    reader.feed(Ok(Vec::new()));
    assert!(matches!(reader.next(), Step::Line(Ok((ref text, false))) if text == "c"));
    assert!(matches!(reader.next(), Step::Done));
}

#[test]
fn remainder_is_flushed_once_at_the_end() {
    let mut reader = BufferedReader::new(b"\n");
    assert!(matches!(reader.next(), Step::Read(0x0A)));
    reader.feed(Ok(b"tail".to_vec()));
    assert!(matches!(reader.next(), Step::Read(0x0A)));
    reader.feed(Ok(Vec::new()));
    assert!(matches!(reader.next(), Step::Line(Ok((ref text, false))) if text == "tail"));
    assert!(matches!(reader.next(), Step::Done));
}

#[test]
fn empty_delimiter_is_refused() {
    assert!(matches!(
        BufferedReader::with_delimiter(b""),
        Err(sse::cli::ConfigurationError::EmptyDelimiter)
    ));
    let mut reader = BufferedReader::with_delimiter(b";").unwrap();
    assert!(matches!(reader.next(), Step::Read(0x3B)));
}
