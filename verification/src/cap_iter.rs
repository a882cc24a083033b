//! The segments of a text under a list of matches: each match in its place, and,
//! in nice mode, the text between the matches.

use crate::cap_groups::{instructions, render, CapGroup};
use crate::grammar::Instruction;
use crate::pattern::{Captures, CapturesView, Matches};
use crate::text::{lemma_encode_concat, slice_str, sliceable};
use std::collections::VecDeque;
use vstd::prelude::*;
use vstd::string::StringExecFns;
use vstd::string::StringSliceAdditionalSpecFns;
use vstd::utf8::*;

verus! {

/// One segment of a text, in specifications.
pub enum MatchSegment {
    /// Text that no match covers, to be copied as it stands.
    CopyText(Seq<u8>),
    /// The groups of one match.
    MatchedGroups(CapturesView),
}

/// The text from `from` up to `to` as a segment, where there is any and it can
/// be cut out of the buffer.
pub open spec fn copy_text(buffer: Seq<u8>, from: int, to: int) -> Seq<MatchSegment> {
    if from != to && sliceable(buffer, from, to) {
        seq![MatchSegment::CopyText(buffer.subrange(from, to))]
    } else {
        Seq::empty()
    }
}

/// The text before a match that starts at `to`, where nice mode asks for it.
pub open spec fn gap(buffer: Seq<u8>, from: int, to: int, nice: bool) -> Seq<MatchSegment> {
    if nice {
        copy_text(buffer, from, to)
    } else {
        Seq::empty()
    }
}

/// The segments of a buffer from offset `old_start` on, under the matches that
/// are still to come: each match, with the text before it in nice mode, and in
/// nice mode the text behind the last match.
pub open spec fn segments_from(
    buffer: Seq<u8>,
    matches: Seq<CapturesView>,
    old_start: int,
    nice: bool,
) -> Seq<MatchSegment>
    decreases matches.len(),
{
    if matches.len() == 0 {
        gap(buffer, old_start, buffer.len() as int, nice)
    } else {
        match matches[0].span(0) {
            Some((start, end)) => gap(buffer, old_start, start as int, nice)
                + seq![MatchSegment::MatchedGroups(matches[0])] + segments_from(
                buffer,
                matches.drop_first(),
                end as int,
                nice,
            ),
            None => seq![MatchSegment::MatchedGroups(matches[0])] + segments_from(
                buffer,
                matches.drop_first(),
                old_start,
                nice,
            ),
        }
    }
}

/// The part of the buffer that a segment stands for: the text it copies, or the
/// text of the whole match.
pub open spec fn covered(segment: MatchSegment) -> Seq<u8> {
    match segment {
        MatchSegment::CopyText(text) => text,
        MatchSegment::MatchedGroups(caps) => match caps.group(0) {
            Some(text) => text,
            None => Seq::empty(),
        },
    }
}

/// The parts of the buffer that a run of segments stands for, one after the
/// other.
pub open spec fn all_covered(segments: Seq<MatchSegment>) -> Seq<u8>
    decreases segments.len(),
{
    if segments.len() == 0 {
        Seq::empty()
    } else {
        covered(segments[0]) + all_covered(segments.drop_first())
    }
}

/// What a segment writes under a template: the text it copies, or what the
/// template writes for the groups of the match.
pub open spec fn segment_output(segment: MatchSegment, template: Seq<Instruction>) -> Seq<u8> {
    match segment {
        MatchSegment::CopyText(text) => text,
        MatchSegment::MatchedGroups(caps) => render(template, caps),
    }
}

/// What a run of segments writes under a template.
pub open spec fn segments_output(segments: Seq<MatchSegment>, template: Seq<Instruction>) -> Seq<
    u8,
>
    decreases segments.len(),
{
    if segments.len() == 0 {
        Seq::empty()
    } else {
        segment_output(segments[0], template) + segments_output(segments.drop_first(), template)
    }
}

/// The matches lie in the buffer from left to right, from `from` on, without
/// overlap, each between two starts of characters.
pub open spec fn matches_in_order(buffer: Seq<u8>, matches: Seq<CapturesView>, from: int) -> bool
    decreases matches.len(),
{
    if matches.len() == 0 {
        true
    } else {
        &&& matches[0].haystack == buffer
        &&& matches[0].span(0) matches Some((start, end))
        &&& from <= start
        &&& sliceable(buffer, start as int, end as int)
        &&& matches_in_order(buffer, matches.drop_first(), end as int)
    }
}

/// Without nice mode only the matches come: the segments are the matches, one
/// for one.
pub proof fn lemma_without_nice_only_matches(
    buffer: Seq<u8>,
    matches: Seq<CapturesView>,
    from: int,
)
    ensures
        segments_from(buffer, matches, from, false) == Seq::new(
            matches.len(),
            |i: int| MatchSegment::MatchedGroups(matches[i]),
        ),
    decreases matches.len(),
{
    let segments = segments_from(buffer, matches, from, false);
    let wanted = Seq::new(matches.len(), |i: int| MatchSegment::MatchedGroups(matches[i]));
    if matches.len() > 0 {
        let rest = matches.drop_first();
        let next = match matches[0].span(0) {
            Some((_, end)) => end as int,
            None => from,
        };
        lemma_without_nice_only_matches(buffer, rest, next);
        assert(segments =~= seq![MatchSegment::MatchedGroups(matches[0])] + segments_from(
            buffer,
            rest,
            next,
            false,
        ));
        assert(segments =~= wanted);
    } else {
        assert(segments =~= wanted);
    }
}

/// The parts that two runs of segments stand for, one after the other, are what
/// the two runs together stand for.
pub proof fn lemma_all_covered_concat(a: Seq<MatchSegment>, b: Seq<MatchSegment>)
    ensures
        all_covered(a + b) == all_covered(a) + all_covered(b),
    decreases a.len(),
{
    if a.len() == 0 {
        assert(a + b =~= b);
        assert(all_covered(a) + all_covered(b) =~= all_covered(b));
    } else {
        lemma_all_covered_concat(a.drop_first(), b);
        assert((a + b).drop_first() =~= a.drop_first() + b);
        assert(all_covered(a + b) =~= all_covered(a) + all_covered(b));
    }
}

/// A single segment stands for its own part of the buffer, and writes its own
/// output.
pub proof fn lemma_single_segment(segment: MatchSegment, template: Seq<Instruction>)
    ensures
        all_covered(seq![segment]) == covered(segment),
        segments_output(seq![segment], template) == segment_output(segment, template),
{
    let single = seq![segment];
    let none = Seq::<MatchSegment>::empty();
    assert(single.drop_first() =~= none);
    assert(all_covered(none) =~= Seq::<u8>::empty());
    assert(segments_output(none, template) =~= Seq::<u8>::empty());
    assert(all_covered(single) =~= covered(single[0]) + all_covered(single.drop_first()));
    assert(segments_output(single, template) =~= segment_output(single[0], template)
        + segments_output(single.drop_first(), template));
}

/// The unmatched text between two starts of characters stands for itself.
proof fn lemma_copy_text_covers(buffer: Seq<u8>, from: int, to: int)
    requires
        sliceable(buffer, from, to),
    ensures
        all_covered(copy_text(buffer, from, to)) == buffer.subrange(from, to),
{
    if from != to {
        lemma_single_segment(
            MatchSegment::CopyText(buffer.subrange(from, to)),
            Seq::<Instruction>::empty(),
        );
    } else {
        assert(buffer.subrange(from, to) =~= Seq::<u8>::empty());
    }
}

/// In nice mode nothing of the buffer is lost: the segments of a text under
/// matches that lie in it from left to right stand for the whole text.
pub proof fn lemma_nice_covers_buffer(buffer: Seq<u8>, matches: Seq<CapturesView>, from: int)
    requires
        valid_utf8(buffer),
        0 <= from <= buffer.len(),
        is_char_boundary(buffer, from),
        matches_in_order(buffer, matches, from),
    ensures
        all_covered(segments_from(buffer, matches, from, true)) == buffer.subrange(
            from,
            buffer.len() as int,
        ),
    decreases matches.len(),
{
    is_char_boundary_start_end_of_seq(buffer);
    if matches.len() == 0 {
        lemma_copy_text_covers(buffer, from, buffer.len() as int);
    } else {
        let (start, end) = matches[0].span(0).unwrap();
        let before = copy_text(buffer, from, start as int);
        let matched = seq![MatchSegment::MatchedGroups(matches[0])];
        let rest = segments_from(buffer, matches.drop_first(), end as int, true);
        lemma_nice_covers_buffer(buffer, matches.drop_first(), end as int);
        lemma_copy_text_covers(buffer, from, start as int);
        lemma_single_segment(matched[0], Seq::<Instruction>::empty());
        lemma_all_covered_concat(before, matched);
        lemma_all_covered_concat(before + matched, rest);
        assert(buffer.subrange(from, start as int) + buffer.subrange(start as int, end as int)
            + buffer.subrange(end as int, buffer.len() as int) =~= buffer.subrange(
            from,
            buffer.len() as int,
        ));
    }
}

/// Nice mode is the identity where nothing matches: the segments of a text
/// without any match stand for the text, and write it out unchanged whatever
/// the template.
pub proof fn lemma_nice_identity(buffer: Seq<u8>, template: Seq<Instruction>)
    requires
        valid_utf8(buffer),
    ensures
        all_covered(segments_from(buffer, Seq::empty(), 0, true)) == buffer,
        segments_output(segments_from(buffer, Seq::empty(), 0, true), template) == buffer,
{
    is_char_boundary_start_end_of_seq(buffer);
    lemma_copy_text_covers(buffer, 0, buffer.len() as int);
    assert(buffer.subrange(0, buffer.len() as int) =~= buffer);
    if buffer.len() != 0 {
        lemma_single_segment(MatchSegment::CopyText(buffer), template);
    } else {
        assert(segments_output(Seq::<MatchSegment>::empty(), template) =~= buffer);
    }
}

/// One segment of a text: text to copy, or the groups of a match.
#[derive(Debug)]
pub enum CapOut<'a> {
    CopyText(&'a str),
    Group(Captures<'a>),
}

impl<'a> View for CapOut<'a> {
    type V = MatchSegment;

    open spec fn view(&self) -> MatchSegment {
        match *self {
            CapOut::CopyText(text) => MatchSegment::CopyText(text.spec_bytes()),
            CapOut::Group(caps) => MatchSegment::MatchedGroups(caps@),
        }
    }
}

/// The segments that a run of outputs stands for.
pub open spec fn outs_view(outs: Seq<CapOut<'_>>) -> Seq<MatchSegment> {
    Seq::new(outs.len(), |i: int| outs[i]@)
}

impl<'a> CapOut<'a> {
    /// Appends to `buffer` what this segment writes under the template `arg`.
    pub fn output<'b>(&self, arg: &[CapGroup<'b>], buffer: &mut String)
        ensures
            encode_utf8(final(buffer)@) == encode_utf8(old(buffer)@) + segment_output(
                self@,
                instructions(arg@),
            ),
    {
        match self {
            CapOut::CopyText(s) => {
                proof {
                    lemma_encode_concat(buffer@, s@);
                }
                buffer.append(s);
            },
            CapOut::Group(caps) => CapGroup::output(arg, caps, buffer),
        }
    }

    /// Appends to a sink of bytes what this segment writes under the template
    /// `arg`: the same bytes that `output` appends to a string.
    pub fn stream_output<'b>(&self, arg: &[CapGroup<'b>], output: &mut Vec<u8>)
        ensures
            final(output)@ == old(output)@ + segment_output(self@, instructions(arg@)),
    {
        match self {
            CapOut::CopyText(s) => output.extend_from_slice(s.as_bytes()),
            CapOut::Group(caps) => CapGroup::stream_output(arg, caps, output),
        }
    }
}

/// A pull-based producer of the segments of a buffer: each call of `next` hands
/// out one segment, from left to right.
pub struct CapIter<'a> {
    buffer: &'a str,
    caps: Matches<'a>,
    caps_done: bool,
    old_start: usize,
    nice: bool,
    queue: VecDeque<CapOut<'a>>,
}

impl<'a> CapIter<'a> {
    /// The segments that are still to come.
    pub closed spec fn upcoming(&self) -> Seq<MatchSegment> {
        if self.caps_done {
            outs_view(self.queue@)
        } else {
            outs_view(self.queue@) + segments_from(
                self.buffer.spec_bytes(),
                self.caps@.captures(),
                self.old_start as int,
                self.nice,
            )
        }
    }

    /// A producer over `buffer` under the matches `caps`, which are taken from
    /// left to right, one when the one before has been handed out.
    pub fn new(buffer: &'a str, caps: Matches<'a>, nice: bool) -> (it: Self)
        ensures
            it.upcoming() == segments_from(buffer.spec_bytes(), caps@.captures(), 0, nice),
    {
        let it = CapIter {
            buffer,
            nice,
            caps,
            caps_done: false,
            old_start: 0,
            queue: VecDeque::with_capacity(2),
        };
        assert(outs_view(it.queue@) =~= Seq::<MatchSegment>::empty());
        assert(it.upcoming() =~= segments_from(buffer.spec_bytes(), caps@.captures(), 0, nice));
        it
    }

    /// Queues the text from the last match up to `to`, where nice mode asks for
    /// it and there is any.
    fn queue_gap(&mut self, to: usize)
        ensures
            outs_view(final(self).queue@) == outs_view(old(self).queue@) + gap(
                old(self).buffer.spec_bytes(),
                old(self).old_start as int,
                to as int,
                old(self).nice,
            ),
            final(self).buffer == old(self).buffer,
            final(self).caps == old(self).caps,
            final(self).caps_done == old(self).caps_done,
            final(self).old_start == old(self).old_start,
            final(self).nice == old(self).nice,
    {
        let ghost before = outs_view(self.queue@);
        if self.old_start != to && self.nice {
            match slice_str(self.buffer, self.old_start, to) {
                Some(text) => {
                    self.queue.push_back(CapOut::CopyText(text));
                    assert(outs_view(self.queue@) =~= before.push(
                        MatchSegment::CopyText(text.spec_bytes()),
                    ));
                },
                None => {},
            }
        }
        assert(outs_view(self.queue@) =~= before + gap(
            self.buffer.spec_bytes(),
            self.old_start as int,
            to as int,
            self.nice,
        ));
    }

    /// Takes the next match, if there is one, and queues what it brings: the
    /// text before it in nice mode, and the match. After the last match it
    /// queues, in nice mode, the text that is left.
    fn advance_one_capture(&mut self)
        ensures
            final(self).upcoming() == old(self).upcoming(),
            final(self).caps_done || final(self).queue@.len() > 0,
    {
        if self.caps_done {
            return ;
        }
        let ghost before = outs_view(self.queue@);
        let ghost matches = self.caps@.captures();
        let ghost bytes = self.buffer.spec_bytes();
        let ghost from = self.old_start as int;
        let cap = match self.caps.next() {
            None => {
                let total: usize = self.buffer.as_bytes().len();
                self.queue_gap(total);
                self.caps_done = true;
                return ;
            },
            Some(cap) => cap,
        };
        assert(self.caps@.captures() =~= matches.drop_first());
        assert(matches[0] == cap@);
        match cap.whole() {
            Some((start, end)) => {
                self.queue_gap(start);
                self.old_start = end;
            },
            None => {},
        }
        let ghost queued = outs_view(self.queue@);
        self.queue.push_back(CapOut::Group(cap));
        assert(outs_view(self.queue@) =~= queued.push(MatchSegment::MatchedGroups(cap@)));
        assert(self.upcoming() =~= before + segments_from(bytes, matches, from, self.nice));
    }

    /// Hands out the next segment, or `None` once there is none left.
    pub fn next(&mut self) -> (item: Option<CapOut<'a>>)
        ensures
            match item {
                Some(out) => {
                    &&& old(self).upcoming().len() > 0
                    &&& out@ == old(self).upcoming()[0]
                    &&& final(self).upcoming() == old(self).upcoming().drop_first()
                },
                None => old(self).upcoming().len() == 0 && final(self).upcoming().len() == 0,
            },
    {
        if self.queue.len() == 0 && !self.caps_done {
            self.advance_one_capture();
        }
        let ghost queued = outs_view(self.queue@);
        let item = self.queue.pop_front();
        proof {
            if item is Some {
                assert(outs_view(self.queue@) =~= queued.drop_first());
                assert(self.upcoming() =~= old(self).upcoming().drop_first());
            }
        }
        item
    }

    /// All the segments that are still to come, in order.
    pub fn collect(self) -> (items: Vec<CapOut<'a>>)
        ensures
            outs_view(items@) == self.upcoming(),
    {
        let mut it = self;
        let mut items: Vec<CapOut<'a>> = Vec::new();
        assert(outs_view(items@) =~= Seq::<MatchSegment>::empty());
        loop
            invariant
                outs_view(items@) + it.upcoming() == self.upcoming(),
            decreases it.upcoming().len(),
        {
            let ghost before = it.upcoming();
            let ghost collected = outs_view(items@);
            match it.next() {
                None => {
                    assert(collected + before =~= collected);
                    return items;
                },
                Some(out) => {
                    items.push(out);
                    assert(outs_view(items@) =~= collected.push(before[0]));
                    assert(collected.push(before[0]) + before.drop_first() =~= collected + before);
                },
            }
        }
    }
}

} // verus!
