//! An incremental line reader over a pull-based source of bytes.
//!
//! The reader never touches the source itself. It says which read it needs
//! next (`Step::Read`: read up to and including the given byte), and is fed
//! what the read brought. A delimiter of several bytes is approached by one
//! read for each of its bytes; such a pass may stop short of a delimiter or
//! run past one, so after every pass the exact splitter goes over all the
//! buffered bytes: what it finds terminated becomes a line, the rest stays
//! buffered.

use crate::cli::ConfigurationError;
use crate::split_iterator::{
    complete_lines, leftover, lemma_split_parts, lemma_split_resumes, segments_view,
    split_iter_wrapper, split_segments, tail_segment, Segment,
};
use crate::text::from_utf8;
use std::collections::VecDeque;
use vstd::prelude::*;
use vstd::slice::slice_to_vec;
use vstd::utf8::{encode_utf8, valid_utf8};

verus! {

/// Why a line could not be delivered.
#[derive(Debug, Clone, PartialEq, Eq)]
pub enum LineError {
    /// The bytes of the line are not valid UTF-8.
    InvalidData,
    /// A read failed; the text says how.
    Io(String),
}

/// Why a line could not be delivered, in specifications.
pub enum LineFault {
    InvalidData,
    Io(Seq<char>),
}

/// A line, in specifications: its bytes and whether the delimiter followed it,
/// or the fault that stands in its place.
pub type LineView = Result<(Seq<u8>, bool), LineFault>;

/// What a read brought, in specifications: the bytes that were read (none at
/// the end of the input), or the failure.
pub type ReadView = Result<Seq<u8>, Seq<char>>;

/// What a delivered line stands for.
pub open spec fn line_view(line: Result<(String, bool), LineError>) -> LineView {
    match line {
        Ok((text, terminated)) => Ok((encode_utf8(text@), terminated)),
        Err(LineError::InvalidData) => Err(LineFault::InvalidData),
        Err(LineError::Io(message)) => Err(LineFault::Io(message@)),
    }
}

/// What a queue of lines stands for.
pub open spec fn lines_view(lines: Seq<Result<(String, bool), LineError>>) -> Seq<LineView> {
    Seq::new(lines.len(), |i: int| line_view(lines[i]))
}

/// What a read stands for.
pub open spec fn read_view(outcome: Result<Vec<u8>, String>) -> ReadView {
    match outcome {
        Ok(bytes) => Ok(bytes@),
        Err(message) => Err(message@),
    }
}

/// A segment as a line: its text, where its bytes are valid UTF-8.
pub open spec fn decoded(segment: Segment) -> LineView {
    if valid_utf8(segment.0) {
        Ok(segment)
    } else {
        Err(LineFault::InvalidData)
    }
}

/// Each segment as a line.
pub open spec fn decoded_all(segments: Seq<Segment>) -> Seq<LineView> {
    Seq::new(segments.len(), |i: int| decoded(segments[i]))
}

/// The state of a reader, in specifications.
pub struct ReaderView {
    /// The bytes that were read and are not resolved into lines yet.
    pub buffer: Seq<u8>,
    /// The lines and faults that wait for delivery.
    pub queue: Seq<LineView>,
    /// The delimiter.
    pub eol: Seq<u8>,
    /// The source has reported the end of the input.
    pub end: bool,
    /// The index of the delimiter byte that the next read of the pass under
    /// way looks for; 0 where no pass is under way.
    pub cursor: int,
}

/// What the reader does next, in specifications.
pub enum StepView {
    Line(LineView),
    Read(u8),
    Done,
}

impl ReaderView {
    /// The delimiter is not empty, a pass does not run past its last byte, and
    /// no pass is under way at the end of the input.
    pub open spec fn well_formed(self) -> bool {
        &&& 0 <= self.cursor < self.eol.len()
        &&& self.end ==> self.cursor == 0
    }

    /// The state after the splitter went over the buffer at the end of a pass.
    pub open spec fn resolved(self) -> ReaderView {
        ReaderView {
            buffer: leftover(self.buffer, self.eol),
            queue: self.queue + decoded_all(complete_lines(self.buffer, self.eol)),
            cursor: 0,
            ..self
        }
    }

    /// The state after one read of a pass: the pass goes on to the next byte of
    /// the delimiter, or ends behind the last one.
    pub open spec fn advanced(self) -> ReaderView {
        if self.cursor + 1 < self.eol.len() {
            ReaderView { cursor: self.cursor + 1, ..self }
        } else {
            self.resolved()
        }
    }

    /// The state after a read brought `outcome`. Bytes are buffered; no bytes
    /// mean the end of the input, which ends the pass at once; a failure is
    /// queued in its place among the lines. At the end of the input nothing
    /// more is taken.
    pub open spec fn fed(self, outcome: ReadView) -> ReaderView {
        if self.end {
            self
        } else {
            match outcome {
                Ok(bytes) => if bytes.len() == 0 {
                    ReaderView { end: true, ..self }.resolved()
                } else {
                    ReaderView { buffer: self.buffer + bytes, ..self }.advanced()
                },
                Err(message) => ReaderView {
                    queue: self.queue.push(Err(LineFault::Io(message))),
                    ..self
                }.advanced(),
            }
        }
    }

    /// What the reader does next. A pass under way goes on; else a waiting line
    /// is delivered; else, at the end of the input, the bytes that are left are
    /// delivered once as an unterminated line, and then the reader is done; else
    /// a new pass starts.
    pub open spec fn step(self) -> StepView {
        if self.cursor > 0 {
            StepView::Read(self.eol[self.cursor])
        } else if self.queue.len() > 0 {
            StepView::Line(self.queue[0])
        } else if !self.end {
            StepView::Read(self.eol[0])
        } else if self.buffer.len() > 0 {
            StepView::Line(decoded((self.buffer, false)))
        } else {
            StepView::Done
        }
    }

    /// The state after the step.
    pub open spec fn stepped(self) -> ReaderView {
        if self.cursor > 0 {
            self
        } else if self.queue.len() > 0 {
            ReaderView { queue: self.queue.drop_first(), ..self }
        } else if !self.end {
            self
        } else {
            ReaderView { buffer: Seq::empty(), ..self }
        }
    }
}

impl ReaderView {
    /// The lines that are delivered from now on, where the source brings `rest`
    /// and then ends, and no read fails. While the input goes on these are the
    /// lines that wait and every segment of what is buffered and what is still
    /// to come; at the end of the input they are the lines that wait and what
    /// is buffered, as one unterminated line.
    pub open spec fn lines_to_come(self, rest: Seq<u8>) -> Seq<LineView> {
        if !self.end {
            self.queue + decoded_all(split_segments(self.buffer + rest, self.eol))
        } else if self.buffer.len() > 0 {
            self.queue.push(decoded((self.buffer, false)))
        } else {
            self.queue
        }
    }
}

/// The lines of two runs of segments, one after the other, are the lines of
/// the two runs together.
proof fn lemma_decoded_all_concat(a: Seq<Segment>, b: Seq<Segment>)
    ensures
        decoded_all(a + b) == decoded_all(a) + decoded_all(b),
{
    assert(decoded_all(a + b) =~= decoded_all(a) + decoded_all(b));
}

/// How the input is cut into reads makes no difference to the lines: a reader
/// that is fed some bytes delivers, from then on, what it would have delivered
/// with those bytes still to come.
pub proof fn lemma_feed_keeps_lines(reader: ReaderView, bytes: Seq<u8>, rest: Seq<u8>)
    requires
        reader.well_formed(),
        !reader.end,
        bytes.len() > 0,
    ensures
        reader.fed(Ok(bytes)).lines_to_come(rest) == reader.lines_to_come(bytes + rest),
        !reader.fed(Ok(bytes)).end,
{
    let grown = reader.buffer + bytes;
    assert(grown + rest =~= reader.buffer + (bytes + rest));
    if reader.cursor + 1 >= reader.eol.len() {
        lemma_split_resumes(grown, rest, reader.eol);
        lemma_decoded_all_concat(
            complete_lines(grown, reader.eol),
            split_segments(leftover(grown, reader.eol) + rest, reader.eol),
        );
        assert(reader.fed(Ok(bytes)).lines_to_come(rest) =~= reader.lines_to_come(bytes + rest));
    }
}

/// At the end of the input nothing is lost: a reader that is told that the
/// input has ended delivers, from then on, what was to come with nothing more
/// to read. No read after that makes the input go on again.
pub proof fn lemma_end_keeps_lines(reader: ReaderView, rest: Seq<u8>, later: ReadView)
    requires
        reader.well_formed(),
        !reader.end,
    ensures
        reader.fed(Ok(Seq::empty())).end,
        reader.fed(Ok(Seq::empty())).well_formed(),
        reader.fed(Ok(Seq::empty())).lines_to_come(rest) == reader.lines_to_come(Seq::empty()),
        reader.fed(Ok(Seq::empty())).fed(later) == reader.fed(Ok(Seq::empty())),
{
    let ended = reader.fed(Ok(Seq::empty()));
    assert(reader.buffer + Seq::<u8>::empty() =~= reader.buffer);
    lemma_split_parts(reader.buffer, reader.eol);
    lemma_decoded_all_concat(
        complete_lines(reader.buffer, reader.eol),
        tail_segment(reader.buffer, reader.eol),
    );
    assert(ended.lines_to_come(rest) =~= reader.lines_to_come(Seq::empty()));
}

/// A line that is delivered is the first of the lines to come, and the others
/// stay to come. A reader is done only at the end of its input, when no line
/// is left to come, and it asks for a read only while the input goes on.
pub proof fn lemma_delivery_takes_first_line(reader: ReaderView, rest: Seq<u8>)
    requires
        reader.well_formed(),
    ensures
        match reader.step() {
            StepView::Line(line) => {
                &&& reader.lines_to_come(rest).len() > 0
                &&& line == reader.lines_to_come(rest)[0]
                &&& reader.stepped().lines_to_come(rest) == reader.lines_to_come(rest).drop_first()
            },
            StepView::Done => reader.end && reader.lines_to_come(rest).len() == 0
                && reader.stepped() == reader,
            StepView::Read(byte) => !reader.end && byte == reader.eol[reader.cursor]
                && reader.stepped() == reader,
        },
        reader.stepped().end == reader.end,
{
    if reader.step() is Line {
        assert(reader.stepped().lines_to_come(rest) =~= reader.lines_to_come(rest).drop_first());
    }
    if reader.step() is Done {
        assert(reader.stepped().buffer =~= reader.buffer);
    }
}

/// What the reader does next.
#[derive(Debug)]
pub enum Step {
    /// A line is delivered: its text and whether the delimiter followed it, or
    /// the fault that stands in its place.
    Line(Result<(String, bool), LineError>),
    /// The reader needs a read from the source, up to and including the given
    /// byte; what the read brings is to be handed to `feed`.
    Read(u8),
    /// The input is at its end and every line has been delivered.
    Done,
}

impl View for Step {
    type V = StepView;

    open spec fn view(&self) -> StepView {
        match *self {
            Step::Line(line) => StepView::Line(line_view(line)),
            Step::Read(byte) => StepView::Read(byte),
            Step::Done => StepView::Done,
        }
    }
}

/// Decodes a segment: its text, where its bytes are valid UTF-8.
fn decode(segment: &[u8], terminated: bool) -> (line: Result<(String, bool), LineError>)
    ensures
        line_view(line) == decoded((segment@, terminated)),
{
    match from_utf8(segment) {
        Some(text) => Ok((text.to_owned(), terminated)),
        None => Err(LineError::InvalidData),
    }
}

/// An incremental line reader.
pub struct BufferedReader {
    buffer: Vec<u8>,
    stack: VecDeque<Result<(String, bool), LineError>>,
    eol: &'static [u8],
    end: bool,
    cursor: usize,
}

impl View for BufferedReader {
    type V = ReaderView;

    closed spec fn view(&self) -> ReaderView {
        ReaderView {
            buffer: self.buffer@,
            queue: lines_view(self.stack@),
            eol: self.eol@,
            end: self.end,
            cursor: self.cursor as int,
        }
    }
}

impl BufferedReader {
    /// A reader for lines that end in `eol`, with nothing read yet.
    pub fn new(eol: &'static [u8]) -> (reader: BufferedReader)
        requires
            eol@.len() > 0,
        ensures
            reader@.well_formed(),
            reader@ == (ReaderView {
                buffer: Seq::empty(),
                queue: Seq::empty(),
                eol: eol@,
                end: false,
                cursor: 0,
            }),
    {
        let reader = BufferedReader {
            buffer: Vec::new(),
            stack: VecDeque::new(),
            eol: eol,
            end: false,
            cursor: 0,
        };
        assert(lines_view(reader.stack@) =~= Seq::<LineView>::empty());
        reader
    }

    /// A reader for lines that end in `eol`, with nothing read yet; an error
    /// where the delimiter is empty.
    pub fn with_delimiter(eol: &'static [u8]) -> (made: Result<BufferedReader, ConfigurationError>)
        ensures
            match made {
                Ok(reader) => eol@.len() > 0 && reader@.well_formed() && reader@ == (ReaderView {
                    buffer: Seq::empty(),
                    queue: Seq::empty(),
                    eol: eol@,
                    end: false,
                    cursor: 0,
                }),
                Err(error) => eol@.len() == 0 && error == ConfigurationError::EmptyDelimiter,
            },
    {
        if eol.len() == 0 {
            Err(ConfigurationError::EmptyDelimiter)
        } else {
            Ok(BufferedReader::new(eol))
        }
    }

    /// Ends a pass: the splitter goes over the whole buffer; every terminated
    /// segment is decoded and queued, and what is left stays buffered.
    fn populate_lines_from_buffer(&mut self)
        requires
            old(self)@.well_formed(),
        ensures
            final(self)@ == old(self)@.resolved(),
    {
        let mut taken: Vec<u8> = Vec::new();
        core::mem::swap(&mut self.buffer, &mut taken);
        let ghost queued = lines_view(self.stack@);
        let (splits, left_over) = split_iter_wrapper(taken.as_slice(), self.eol);
        let ghost lines = complete_lines(taken@, self.eol@);
        match splits {
            None => {
                assert(lines_view(self.stack@) =~= queued + decoded_all(lines));
            },
            Some(v) => {
                let total: usize = v.len();
                let mut i: usize = 0;
                assert(queued + decoded_all(lines.take(0)) =~= queued);
                while i < total
                    invariant
                        total == v@.len(),
                        i <= total,
                        segments_view(v@) == lines,
                        lines_view(self.stack@) == queued + decoded_all(lines.take(i as int)),
                        self.buffer@ == Seq::<u8>::empty(),
                        self.eol == old(self).eol,
                        self.end == old(self).end,
                        self.cursor == old(self).cursor,
                    decreases total - i,
                {
                    let ghost before = lines_view(self.stack@);
                    let (line, eol_flag) = v[i];
                    assert(segments_view(v@)[i as int] == (line@, eol_flag));
                    let result = decode(line, eol_flag);
                    self.stack.push_back(result);
                    assert(lines_view(self.stack@) =~= before.push(line_view(result)));
                    assert(decoded_all(lines.take(i + 1)) =~= decoded_all(
                        lines.take(i as int),
                    ).push(decoded(lines[i as int])));
                    i += 1;
                }
                assert(lines.take(total as int) =~= lines);
            },
        }
        match left_over {
            None => {},
            Some(rest) => {
                self.buffer = slice_to_vec(rest);
            },
        }
        self.cursor = 0;
    }

    /// Takes what a read brought. Bytes are buffered, and the pass goes on to
    /// the next byte of the delimiter or ends behind the last one. No bytes
    /// mean the end of the input, which ends the pass at once. A failure is
    /// queued, in its place among the lines, and the pass goes on. At the end of
    /// the input nothing more is taken.
    pub fn feed(&mut self, outcome: Result<Vec<u8>, String>)
        requires
            old(self)@.well_formed(),
        ensures
            final(self)@.well_formed(),
            final(self)@ == old(self)@.fed(read_view(outcome)),
    {
        if self.end {
            return ;
        }
        match outcome {
            Ok(bytes) => {
                if bytes.len() == 0 {
                    self.cursor = 0;
                    self.end = true;
                    self.populate_lines_from_buffer();
                    return ;
                }
                let ghost before = self.buffer@;
                self.buffer.extend_from_slice(bytes.as_slice());
                assert(self.buffer@ =~= before + bytes@);
            },
            Err(message) => {
                let ghost before = lines_view(self.stack@);
                self.stack.push_back(Err(LineError::Io(message)));
                assert(lines_view(self.stack@) =~= before.push(Err(LineFault::Io(message@))));
            },
        }
        let width: usize = self.eol.len();
        if self.cursor + 1 < width {
            self.cursor = self.cursor + 1;
        } else {
            self.populate_lines_from_buffer();
        }
    }

    /// Says what the reader does next, and does it where it is a delivery.
    pub fn next(&mut self) -> (step: Step)
        requires
            old(self)@.well_formed(),
        ensures
            final(self)@.well_formed(),
            step@ == old(self)@.step(),
            final(self)@ == old(self)@.stepped(),
    {
        if self.cursor > 0 {
            return Step::Read(self.eol[self.cursor]);
        }
        let ghost queued = lines_view(self.stack@);
        match self.stack.pop_front() {
            Some(line) => {
                assert(lines_view(self.stack@) =~= queued.drop_first());
                return Step::Line(line);
            },
            None => {},
        }
        if !self.end {
            return Step::Read(self.eol[0]);
        }
        if self.buffer.len() == 0 {
            assert(self.buffer@ =~= Seq::<u8>::empty());
            return Step::Done;
        }
        let mut taken: Vec<u8> = Vec::new();
        core::mem::swap(&mut self.buffer, &mut taken);
        Step::Line(decode(taken.as_slice(), false))
    }
}

} // verus!
