//! The transform engine: what a line, or the whole text, writes under a
//! pattern and a template, and the run as a whole, which reads the input to
//! its end and either streams the output or holds it back for a rewrite.
//!
//! The engine does no reading or writing itself. `Work::next` says what is to
//! be done next; the caller does it, and feeds back what a read brought.

use crate::buffered_reader::{
    lemma_delivery_takes_first_line, lemma_end_keeps_lines, lemma_feed_keeps_lines, read_view,
    BufferedReader, LineError, LineFault, LineView, ReadView, ReaderView, Step, StepView,
};
use crate::cap_groups::{instructions, render, CapGroup};
use crate::cap_iter::{lemma_nice_identity, segments_from, segments_output, CapIter};
use crate::cli::{InitialFlagOptions, Matching};
use crate::grammar::Instruction;
use crate::pattern::{Captures, CapturesView, Matcher, MatcherView, Matches};
use crate::text::from_utf8;
use vstd::prelude::*;
use vstd::string::StringSliceAdditionalSpecFns;
use vstd::utf8::*;

verus! {

/// The delimiter behind a line, where the line was terminated.
pub open spec fn line_end(terminated: bool, term: Seq<u8>) -> Seq<u8> {
    if terminated {
        term
    } else {
        Seq::empty()
    }
}

/// What one line writes. A line that matches writes what the template makes
/// of the match; a line that does not is copied in nice mode and dropped
/// otherwise. The delimiter is written back behind a terminated line that
/// wrote anything.
pub open spec fn line_output(
    template: Seq<Instruction>,
    line: Seq<u8>,
    terminated: bool,
    found: Option<CapturesView>,
    term: Seq<u8>,
    nice: bool,
) -> Seq<u8> {
    match found {
        Some(caps) => render(template, caps) + line_end(terminated, term),
        None => if nice {
            line + line_end(terminated, term)
        } else {
            Seq::empty()
        },
    }
}

/// What the whole text writes: each of its segments, in order.
pub open spec fn text_output(
    template: Seq<Instruction>,
    text: Seq<u8>,
    matches: Seq<CapturesView>,
    nice: bool,
) -> Seq<u8> {
    segments_output(segments_from(text, matches, 0, nice), template)
}

/// In nice mode a text that the pattern matches nowhere is written out as it
/// stands, whatever the template.
pub proof fn lemma_nice_text_without_match(template: Seq<Instruction>, text: Seq<u8>)
    requires
        valid_utf8(text),
    ensures
        text_output(template, text, Seq::empty(), true) == text,
{
    lemma_nice_identity(text, template);
}

/// In nice mode a line that the pattern does not match is written out as it
/// stands, with its delimiter where it had one; without nice mode it writes
/// nothing.
pub proof fn lemma_line_without_match(
    template: Seq<Instruction>,
    line: Seq<u8>,
    terminated: bool,
    term: Seq<u8>,
)
    ensures
        line_output(template, line, terminated, None, term, true) == line + line_end(
            terminated,
            term,
        ),
        line_output(template, line, terminated, None, term, false) == Seq::<u8>::empty(),
{
}

/// The groups of a match that may not be there, in specifications.
pub open spec fn found_view(found: Option<&Captures<'_>>) -> Option<CapturesView> {
    match found {
        Some(caps) => Some(caps@),
        None => None,
    }
}

/// Writes what one line writes, given what the pattern found in the line.
pub fn write_line(
    caps: &[CapGroup<'_>],
    line: &str,
    terminated: bool,
    found: Option<&Captures<'_>>,
    term: &[u8],
    nice: bool,
    writer: &mut Vec<u8>,
)
    ensures
        final(writer)@ == old(writer)@ + line_output(
            instructions(caps@),
            line.spec_bytes(),
            terminated,
            found_view(found),
            term@,
            nice,
        ),
{
    let ghost before = writer@;
    match found {
        None => {
            if nice {
                writer.extend_from_slice(line.as_bytes());
                if terminated {
                    writer.extend_from_slice(term);
                }
                assert(writer@ =~= before + (line.spec_bytes() + line_end(terminated, term@)));
            } else {
                assert(writer@ =~= before + Seq::<u8>::empty());
            }
        },
        Some(c) => {
            CapGroup::stream_output(caps, c, writer);
            if terminated {
                writer.extend_from_slice(term);
            }
            assert(writer@ =~= before + (render(instructions(caps@), c@) + line_end(
                terminated,
                term@,
            )));
        },
    }
}

/// Matches one line against the pattern and writes what the line writes.
pub fn transform_line(
    regex: &Matcher,
    caps: &[CapGroup<'_>],
    line: &str,
    terminated: bool,
    term: &[u8],
    nice: bool,
    writer: &mut Vec<u8>,
)
    ensures
        final(writer)@ == old(writer)@ + line_output(
            instructions(caps@),
            line.spec_bytes(),
            terminated,
            regex@.first_captures(line@),
            term@,
            nice,
        ),
{
    match regex.captures(line) {
        Some(found) => write_line(caps, line, terminated, Some(&found), term, nice, writer),
        None => write_line(caps, line, terminated, None, term, nice, writer),
    }
}

/// Writes what the whole text writes, given the matches of the pattern in it,
/// which are taken from left to right, one when the one before has been
/// written.
pub fn write_segments<'a>(
    caps: &[CapGroup<'_>],
    buffer: &'a str,
    matches: Matches<'a>,
    nice: bool,
    writer: &mut Vec<u8>,
)
    ensures
        final(writer)@ == old(writer)@ + text_output(
            instructions(caps@),
            buffer.spec_bytes(),
            matches@.captures(),
            nice,
        ),
{
    let ghost all = segments_from(buffer.spec_bytes(), matches@.captures(), 0, nice);
    let ghost template = instructions(caps@);
    let ghost wanted = old(writer)@ + text_output(
        template,
        buffer.spec_bytes(),
        matches@.captures(),
        nice,
    );
    let mut it = CapIter::new(buffer, matches, nice);
    loop
        invariant
            template == instructions(caps@),
            wanted == old(writer)@ + segments_output(all, template),
            wanted == old(writer)@ + text_output(
                instructions(caps@),
                buffer.spec_bytes(),
                matches@.captures(),
                nice,
            ),
            writer@ + segments_output(it.upcoming(), template) == old(writer)@ + segments_output(
                all,
                template,
            ),
        decreases it.upcoming().len(),
    {
        let ghost before = writer@;
        let ghost upcoming = it.upcoming();
        match it.next() {
            None => {
                assert(before + segments_output(upcoming, template) =~= before);
                assert(writer@ == wanted);
                return ;
            },
            Some(item) => {
                item.stream_output(caps, writer);
                assert(before + segments_output(upcoming, template) =~= writer@ + segments_output(
                    upcoming.drop_first(),
                    template,
                ));
            },
        }
    }
}

/// Matches the whole text against the pattern and writes what the text writes.
pub fn transform_text(
    regex: &Matcher,
    caps: &[CapGroup<'_>],
    buffer: &str,
    nice: bool,
    writer: &mut Vec<u8>,
)
    ensures
        final(writer)@ == old(writer)@ + text_output(
            instructions(caps@),
            buffer.spec_bytes(),
            regex@.all_captures(buffer@),
            nice,
        ),
{
    let matches = regex.captures_iter(buffer);
    write_segments(caps, buffer, matches, nice, writer);
}

/// Where a run stands.
#[derive(Clone, Copy, PartialEq, Eq, Debug)]
pub enum Phase {
    /// Line mode: the line reader is at work.
    Lines,
    /// Continuous mode: the whole input is still to be read.
    Whole,
    /// Continuous mode: the input has been read and its output is held.
    Loaded,
    /// The output has been written and is to be flushed.
    Closing,
    /// The run has failed and the failure is still to be reported.
    Failed,
    /// Nothing is left to do.
    Over,
}

/// What the caller of a run is to do next.
#[derive(Debug)]
pub enum Action {
    /// Read from the input up to and including the given byte, and feed what
    /// the read brought.
    Read(u8),
    /// Read the whole input, and feed it.
    ReadAll,
    /// Write these bytes to the output, now.
    Write(Vec<u8>),
    /// Nothing for now: the output of a line is held back. Ask again.
    Continue,
    /// A line was no valid text and has been left out; say so, and ask again.
    Report(LineError),
    /// The output is complete: flush it.
    Finish,
    /// The input has been read to its end: open the output, write these
    /// bytes, which are all of the output, and flush it.
    Rewrite(Vec<u8>),
    /// Give up, with this failure. What has been written stays written.
    Fail(LineError),
    /// Nothing is left to do.
    Done,
}

/// What the caller of a run is to do next, in specifications.
pub enum ActionView {
    Read(u8),
    ReadAll,
    Write(Seq<u8>),
    Continue,
    Report(LineFault),
    Finish,
    Rewrite(Seq<u8>),
    Fail(LineFault),
    Done,
}

/// The fault that an error stands for.
pub open spec fn fault_view(error: LineError) -> LineFault {
    match error {
        LineError::InvalidData => LineFault::InvalidData,
        LineError::Io(message) => LineFault::Io(message@),
    }
}

impl View for Action {
    type V = ActionView;

    open spec fn view(&self) -> ActionView {
        match *self {
            Action::Read(byte) => ActionView::Read(byte),
            Action::ReadAll => ActionView::ReadAll,
            Action::Write(bytes) => ActionView::Write(bytes@),
            Action::Continue => ActionView::Continue,
            Action::Report(error) => ActionView::Report(fault_view(error)),
            Action::Finish => ActionView::Finish,
            Action::Rewrite(bytes) => ActionView::Rewrite(bytes@),
            Action::Fail(error) => ActionView::Fail(fault_view(error)),
            Action::Done => ActionView::Done,
        }
    }
}

/// A run, in specifications.
pub struct WorkView {
    pub matcher: MatcherView,
    pub template: Seq<Instruction>,
    /// Text that does not match is copied.
    pub nice: bool,
    /// The output is written while the input is read. Where it is not, the
    /// output is held back until the input has been read to its end.
    pub stream: bool,
    /// A line that is no valid text ends the run. Where it does not, the line
    /// is reported and left out.
    pub strict: bool,
    /// The delimiter of line mode.
    pub term: Seq<u8>,
    pub phase: Phase,
    /// The line reader of line mode.
    pub reader: Option<ReaderView>,
    /// The output that is held back.
    pub held: Seq<u8>,
    /// The failure that is still to be reported.
    pub fault: Option<LineFault>,
}

impl WorkView {
    /// Line mode has a reader in good order, over the run's delimiter, and
    /// holds nothing back while it streams; a failure that is to be reported is
    /// at hand; only a run that streams has output to flush.
    pub open spec fn well_formed(self) -> bool {
        &&& self.phase == Phase::Lines ==> {
            &&& self.reader matches Some(reader)
            &&& reader.well_formed()
            &&& reader.eol == self.term
        }
        &&& self.phase == Phase::Failed ==> self.fault is Some
        &&& self.phase == Phase::Closing ==> self.stream
        &&& self.phase == Phase::Lines && self.stream ==> self.held.len() == 0
    }

    /// What a line of this run writes.
    pub open spec fn chunk(self, line: Seq<u8>, terminated: bool) -> Seq<u8> {
        line_output(
            self.template,
            line,
            terminated,
            self.matcher.first_captures(decode_utf8(line)),
            self.term,
            self.nice,
        )
    }

    /// What the whole text writes in this run.
    pub open spec fn whole(self, text: Seq<u8>) -> Seq<u8> {
        text_output(self.template, text, self.matcher.all_captures(decode_utf8(text)), self.nice)
    }

    /// What a run of lines writes: what each line writes, one after the other.
    /// A fault in the place of a line writes nothing.
    pub open spec fn lines_output(self, lines: Seq<LineView>) -> Seq<u8>
        decreases lines.len(),
    {
        if lines.len() == 0 {
            Seq::empty()
        } else {
            let first = match lines[0] {
                Ok((line, terminated)) => self.chunk(line, terminated),
                Err(_) => Seq::empty(),
            };
            first + self.lines_output(lines.drop_first())
        }
    }

    /// The output that a run in line mode still owes, where the source brings
    /// `rest` and then ends, and no read fails: what it holds back, and what
    /// the lines to come write.
    pub open spec fn output_to_come(self, rest: Seq<u8>) -> Seq<u8> {
        self.held + self.lines_output(self.reader.unwrap().lines_to_come(rest))
    }

    /// What the caller is to do next.
    pub open spec fn action(self) -> ActionView {
        match self.phase {
            Phase::Lines => match self.reader.unwrap().step() {
                StepView::Read(byte) => ActionView::Read(byte),
                StepView::Line(Ok((line, terminated))) => if self.stream {
                    ActionView::Write(self.chunk(line, terminated))
                } else {
                    ActionView::Continue
                },
                StepView::Line(Err(LineFault::InvalidData)) => if self.strict {
                    ActionView::Fail(LineFault::InvalidData)
                } else {
                    ActionView::Report(LineFault::InvalidData)
                },
                StepView::Line(Err(fault)) => ActionView::Fail(fault),
                StepView::Done => if self.stream {
                    ActionView::Finish
                } else {
                    ActionView::Rewrite(self.held)
                },
            },
            Phase::Whole => ActionView::ReadAll,
            Phase::Loaded => if self.stream {
                ActionView::Write(self.held)
            } else {
                ActionView::Rewrite(self.held)
            },
            Phase::Closing => ActionView::Finish,
            Phase::Failed => ActionView::Fail(self.fault.unwrap()),
            Phase::Over => ActionView::Done,
        }
    }

    /// The run after the caller has been told what to do next.
    pub open spec fn advanced(self) -> WorkView {
        match self.phase {
            Phase::Lines => {
                let reader = Some(self.reader.unwrap().stepped());
                match self.reader.unwrap().step() {
                    StepView::Read(_) => WorkView { reader, ..self },
                    StepView::Line(Ok((line, terminated))) => if self.stream {
                        WorkView { reader, ..self }
                    } else {
                        WorkView { reader, held: self.held + self.chunk(line, terminated), ..self }
                    },
                    StepView::Line(Err(LineFault::InvalidData)) => if self.strict {
                        WorkView { reader, phase: Phase::Over, ..self }
                    } else {
                        WorkView { reader, ..self }
                    },
                    StepView::Line(Err(_)) => WorkView { reader, phase: Phase::Over, ..self },
                    StepView::Done => WorkView {
                        reader,
                        phase: Phase::Over,
                        held: if self.stream {
                            self.held
                        } else {
                            Seq::empty()
                        },
                        ..self
                    },
                }
            },
            Phase::Whole => self,
            Phase::Loaded => WorkView {
                phase: if self.stream {
                    Phase::Closing
                } else {
                    Phase::Over
                },
                held: Seq::empty(),
                ..self
            },
            Phase::Closing => WorkView { phase: Phase::Over, ..self },
            Phase::Failed => WorkView { phase: Phase::Over, fault: None, ..self },
            Phase::Over => self,
        }
    }

    /// The input has been read to its end: in line mode the source has reported
    /// the end; in continuous mode the whole input has been fed.
    pub open spec fn input_ended(self) -> bool {
        match self.phase {
            Phase::Lines => self.reader.unwrap().end,
            Phase::Whole => false,
            _ => true,
        }
    }

    /// The run after a read brought `outcome`. In line mode the line reader
    /// takes it. In continuous mode it is the whole input: its output is held,
    /// or the run has failed, where the read failed or the input is no valid
    /// text.
    pub open spec fn fed(self, outcome: ReadView) -> WorkView {
        match self.phase {
            Phase::Lines => WorkView { reader: Some(self.reader.unwrap().fed(outcome)), ..self },
            Phase::Whole => match outcome {
                Ok(bytes) => if valid_utf8(bytes) {
                    WorkView { phase: Phase::Loaded, held: self.held + self.whole(bytes), ..self }
                } else {
                    WorkView { phase: Phase::Failed, fault: Some(LineFault::InvalidData), ..self }
                },
                Err(message) => WorkView {
                    phase: Phase::Failed,
                    fault: Some(LineFault::Io(message)),
                    ..self
                },
            },
            _ => self,
        }
    }
}

/// The run that the options ask for, before anything is read. The output is
/// streamed unless it goes to the file that the input is read from. A line that
/// is no valid text ends a run that holds its output back; a run that streams
/// reports the line and goes on.
pub open spec fn initial_work(
    opts: InitialFlagOptions,
    matcher: MatcherView,
    template: Seq<Instruction>,
) -> WorkView {
    let stream = !opts.output.rewrites_input(opts.input == crate::cli::Input::Stdin);
    WorkView {
        matcher,
        template,
        nice: opts.nice,
        stream,
        strict: !stream,
        term: match opts.matching {
            Matching::Continuous => Seq::empty(),
            Matching::LineByLine(eol) => eol.bytes(),
        },
        phase: match opts.matching {
            Matching::Continuous => Phase::Whole,
            Matching::LineByLine(_) => Phase::Lines,
        },
        reader: match opts.matching {
            Matching::Continuous => None,
            Matching::LineByLine(eol) => Some(
                ReaderView {
                    buffer: Seq::empty(),
                    queue: Seq::empty(),
                    eol: eol.bytes(),
                    end: false,
                    cursor: 0,
                },
            ),
        },
        held: Seq::empty(),
        fault: None,
    }
}

/// A run that holds its output back writes nothing before the input has been
/// read to its end: it never asks for a write while it reads, and asks for the
/// rewrite only when the source has reported the end of the input and every
/// line has gone through, or, in continuous mode, when the whole input has
/// been read. It stays a run that holds its output back.
pub proof fn lemma_rewrite_waits_for_end_of_input(work: WorkView, outcome: ReadView)
    requires
        work.well_formed(),
        !work.stream,
    ensures
        !(work.action() is Write),
        !(work.action() is Finish),
        work.action() is Rewrite ==> work.phase == Phase::Loaded || (work.phase == Phase::Lines && {
            let reader = work.reader.unwrap();
            reader.end && reader.queue.len() == 0 && reader.buffer.len() == 0
        }),
        work.action() is Rewrite ==> work.advanced().phase == Phase::Over,
        !work.advanced().stream,
        !work.fed(outcome).stream,
{
}

/// How the input is cut into reads makes no difference to the output: a run in
/// line mode that is fed some bytes owes, from then on, what it would have owed
/// with those bytes still to come. At the end of the input it owes what was to
/// come with nothing more to read.
pub proof fn lemma_feed_keeps_output(work: WorkView, bytes: Seq<u8>, rest: Seq<u8>)
    requires
        work.well_formed(),
        work.phase == Phase::Lines,
        !work.reader.unwrap().end,
    ensures
        bytes.len() > 0 ==> work.fed(Ok(bytes)).output_to_come(rest) == work.output_to_come(
            bytes + rest,
        ),
        bytes.len() == 0 ==> work.fed(Ok(bytes)).output_to_come(rest) == work.output_to_come(
            Seq::empty(),
        ),
        bytes.len() == 0 ==> work.fed(Ok(bytes)).reader.unwrap().end,
{
    let reader = work.reader.unwrap();
    let later = work.fed(Ok(bytes));
    if bytes.len() > 0 {
        lemma_feed_keeps_lines(reader, bytes, rest);
        lemma_lines_output_depends_on_settings(work, later, reader.lines_to_come(bytes + rest));
    } else {
        assert(bytes =~= Seq::<u8>::empty());
        lemma_end_keeps_lines(reader, rest, Ok(Seq::empty()));
        lemma_lines_output_depends_on_settings(work, later, reader.lines_to_come(Seq::empty()));
    }
}

/// A run in line mode pays what it owes, and nothing else. What it asks to be
/// written is the next of the output to come; what it holds back stays owed;
/// a line that is reported and left out owes nothing. When it asks for the
/// flush, all has been written; when it asks for the rewrite, it hands over
/// all that it owes. It asks for a read only while the input goes on.
pub proof fn lemma_action_pays_output(work: WorkView, rest: Seq<u8>)
    requires
        work.well_formed(),
        work.phase == Phase::Lines,
    ensures
        match work.action() {
            ActionView::Write(bytes) => work.output_to_come(rest) == bytes
                + work.advanced().output_to_come(rest),
            ActionView::Continue => work.advanced().output_to_come(rest) == work.output_to_come(
                rest,
            ),
            ActionView::Report(_) => work.advanced().output_to_come(rest) == work.output_to_come(
                rest,
            ),
            ActionView::Read(_) => work.advanced() == work && !work.reader.unwrap().end,
            ActionView::Finish => work.output_to_come(rest) == Seq::<u8>::empty(),
            ActionView::Rewrite(bytes) => work.output_to_come(rest) == bytes,
            ActionView::Fail(_) => true,
            ActionView::ReadAll => false,
            ActionView::Done => false,
        },
        work.advanced().well_formed(),
{
    let reader = work.reader.unwrap();
    let lines = reader.lines_to_come(rest);
    lemma_delivery_takes_first_line(reader, rest);
    match reader.step() {
        StepView::Line(line) => {
            assert(work.lines_output(lines) == work.lines_output(seq![line] + lines.drop_first()))
                by {
                assert(lines =~= seq![line] + lines.drop_first());
            }
            let later = work.advanced();
            assert(later.lines_output(lines.drop_first()) == work.lines_output(
                lines.drop_first(),
            )) by {
                lemma_lines_output_depends_on_settings(work, later, lines.drop_first());
            }
            match line {
                Ok((text, terminated)) => {
                    if work.stream {
                        assert(work.output_to_come(rest) =~= work.chunk(text, terminated)
                            + later.output_to_come(rest));
                    } else {
                        assert(later.output_to_come(rest) =~= work.output_to_come(rest));
                    }
                },
                Err(_) => {
                    assert(later.output_to_come(rest) =~= work.output_to_come(rest));
                },
            }
        },
        StepView::Done => {
            assert(work.lines_output(lines) =~= Seq::<u8>::empty());
            assert(work.output_to_come(rest) =~= work.held);
        },
        StepView::Read(_) => {},
    }
}

/// What lines write depends on the pattern, the template, the delimiter and
/// nice mode alone.
proof fn lemma_lines_output_depends_on_settings(
    first: WorkView,
    second: WorkView,
    lines: Seq<LineView>,
)
    requires
        first.matcher == second.matcher,
        first.template == second.template,
        first.term == second.term,
        first.nice == second.nice,
    ensures
        first.lines_output(lines) == second.lines_output(lines),
    decreases lines.len(),
{
    if lines.len() > 0 {
        lemma_lines_output_depends_on_settings(first, second, lines.drop_first());
    }
}

/// The input is read once: a run that has been fed the end of its input, or,
/// in continuous mode, its whole input, asks for no more reads, whatever is
/// done to it afterwards.
pub proof fn lemma_input_is_read_once(work: WorkView, outcome: ReadView)
    requires
        work.well_formed(),
        work.input_ended(),
    ensures
        !(work.action() is Read),
        !(work.action() is ReadAll),
        work.advanced().input_ended(),
        work.fed(outcome).input_ended(),
{
    if work.phase == Phase::Lines {
        lemma_delivery_takes_first_line(work.reader.unwrap(), Seq::empty());
    }
}

/// A run: the state of the engine between two things that its caller does.
pub struct Work<'a> {
    regex: &'a Matcher,
    caps: &'a [CapGroup<'a>],
    nice: bool,
    stream: bool,
    strict: bool,
    term: &'static [u8],
    phase: Phase,
    reader: Option<BufferedReader>,
    held: Vec<u8>,
    fault: Option<LineError>,
}

impl<'a> View for Work<'a> {
    type V = WorkView;

    closed spec fn view(&self) -> WorkView {
        WorkView {
            matcher: self.regex@,
            template: instructions(self.caps@),
            nice: self.nice,
            stream: self.stream,
            strict: self.strict,
            term: self.term@,
            phase: self.phase,
            reader: match self.reader {
                Some(reader) => Some(reader@),
                None => None,
            },
            held: self.held@,
            fault: match self.fault {
                Some(error) => Some(fault_view(error)),
                None => None,
            },
        }
    }
}

/// Sets up the run that the options ask for, under a compiled pattern and a
/// compiled template: picks line mode or continuous mode, and streaming or
/// holding back.
pub fn do_work<'a>(opts: &InitialFlagOptions, regex: &'a Matcher, caps: &'a [CapGroup<'a>]) -> (work:
    Work<'a>)
    ensures
        work@ == initial_work(*opts, regex@, instructions(caps@)),
        work@.well_formed(),
{
    let input_is_stdin = opts.input.is_stdin();
    let stream = opts.output.open_for_stream(input_is_stdin).is_some();
    let empty: &'static [u8] = &[];
    assert(empty@ =~= Seq::<u8>::empty());
    match opts.matching.build_input_stream() {
        Some((reader, term)) => Work {
            regex,
            caps,
            nice: opts.nice,
            stream,
            strict: !stream,
            term,
            phase: Phase::Lines,
            reader: Some(reader),
            held: Vec::new(),
            fault: None,
        },
        None => Work {
            regex,
            caps,
            nice: opts.nice,
            stream,
            strict: !stream,
            term: empty,
            phase: Phase::Whole,
            reader: None,
            held: Vec::new(),
            fault: None,
        },
    }
}

impl<'a> Work<'a> {
    /// Says whether a line that is no valid text ends the run, or is reported
    /// and left out.
    pub fn set_strict(self, strict: bool) -> (work: Self)
        requires
            self@.well_formed(),
        ensures
            work@.well_formed(),
            work@ == (WorkView { strict, ..self@ }),
    {
        let mut work = self;
        work.strict = strict;
        work
    }

    /// Takes what a read brought.
    pub fn feed(&mut self, outcome: Result<Vec<u8>, String>)
        requires
            old(self)@.well_formed(),
        ensures
            final(self)@.well_formed(),
            final(self)@ == old(self)@.fed(read_view(outcome)),
    {
        match self.phase {
            Phase::Lines => {
                let mut reader = self.reader.take();
                match reader {
                    Some(mut lines) => {
                        lines.feed(outcome);
                        self.reader = Some(lines);
                    },
                    None => {},
                }
            },
            Phase::Whole => {
                match outcome {
                    Ok(bytes) => {
                        match from_utf8(bytes.as_slice()) {
                            Some(text) => {
                                proof {
                                    encode_utf8_decode_utf8(text@);
                                }
                                let regex = self.regex;
                                let caps = self.caps;
                                transform_text(regex, caps, text, self.nice, &mut self.held);
                                self.phase = Phase::Loaded;
                            },
                            None => {
                                self.fault = Some(LineError::InvalidData);
                                self.phase = Phase::Failed;
                            },
                        }
                    },
                    Err(message) => {
                        self.fault = Some(LineError::Io(message));
                        self.phase = Phase::Failed;
                    },
                }
            },
            _ => {},
        }
    }

    /// Says what the caller is to do next.
    pub fn next(&mut self) -> (action: Action)
        requires
            old(self)@.well_formed(),
        ensures
            final(self)@.well_formed(),
            action@ == old(self)@.action(),
            final(self)@ == old(self)@.advanced(),
    {
        match self.phase {
            Phase::Lines => {
                let mut reader = self.reader.take();
                let step = match reader {
                    Some(mut lines) => {
                        let step = lines.next();
                        self.reader = Some(lines);
                        step
                    },
                    None => Step::Done,
                };
                match step {
                    Step::Read(byte) => Action::Read(byte),
                    Step::Line(Ok((line, terminated))) => {
                        proof {
                            encode_utf8_decode_utf8(line@);
                        }
                        let regex = self.regex;
                        let caps = self.caps;
                        if self.stream {
                            let mut chunk: Vec<u8> = Vec::new();
                            transform_line(
                                regex,
                                caps,
                                line.as_str(),
                                terminated,
                                self.term,
                                self.nice,
                                &mut chunk,
                            );
                            assert(chunk@ =~= old(self)@.chunk(encode_utf8(line@), terminated));
                            Action::Write(chunk)
                        } else {
                            transform_line(
                                regex,
                                caps,
                                line.as_str(),
                                terminated,
                                self.term,
                                self.nice,
                                &mut self.held,
                            );
                            Action::Continue
                        }
                    },
                    Step::Line(Err(LineError::InvalidData)) => {
                        if self.strict {
                            self.phase = Phase::Over;
                            Action::Fail(LineError::InvalidData)
                        } else {
                            Action::Report(LineError::InvalidData)
                        }
                    },
                    Step::Line(Err(error)) => {
                        self.phase = Phase::Over;
                        Action::Fail(error)
                    },
                    Step::Done => {
                        self.phase = Phase::Over;
                        if self.stream {
                            Action::Finish
                        } else {
                            let mut all: Vec<u8> = Vec::new();
                            core::mem::swap(&mut self.held, &mut all);
                            Action::Rewrite(all)
                        }
                    },
                }
            },
            Phase::Whole => Action::ReadAll,
            Phase::Loaded => {
                let mut all: Vec<u8> = Vec::new();
                core::mem::swap(&mut self.held, &mut all);
                if self.stream {
                    self.phase = Phase::Closing;
                    Action::Write(all)
                } else {
                    self.phase = Phase::Over;
                    Action::Rewrite(all)
                }
            },
            Phase::Closing => {
                self.phase = Phase::Over;
                Action::Finish
            },
            Phase::Failed => {
                self.phase = Phase::Over;
                match self.fault.take() {
                    Some(error) => Action::Fail(error),
                    None => Action::Done,
                }
            },
            Phase::Over => Action::Done,
        }
    }
}

} // verus!
