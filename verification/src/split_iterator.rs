//! Splitting a byte sequence on an exact, possibly multi-byte, delimiter.
//!
//! A segment is a pair `(content, terminated)`: `terminated` tells that the
//! delimiter followed the content. Only the last segment of a haystack can be
//! unterminated; it is the part that may still be an incomplete record.

use vstd::prelude::*;
use vstd::slice::slice_subrange;

verus! {

/// A segment in specifications: its content, and whether the delimiter followed it.
pub type Segment = (Seq<u8>, bool);

/// The delimiter occurs in `hay` at offset `i`.
pub open spec fn occurs_at(hay: Seq<u8>, needle: Seq<u8>, i: int) -> bool {
    &&& 0 <= i
    &&& i + needle.len() <= hay.len()
    &&& hay.subrange(i, i + needle.len()) == needle
}

/// The offset of the leftmost occurrence of `needle` in `hay` at or after `from`.
pub open spec fn find_from(hay: Seq<u8>, needle: Seq<u8>, from: int) -> Option<int>
    decreases hay.len() - from,
{
    if from < 0 || from + needle.len() > hay.len() || from >= hay.len() {
        None
    } else if occurs_at(hay, needle, from) {
        Some(from)
    } else {
        find_from(hay, needle, from + 1)
    }
}

/// What `find_from` finds is an occurrence, and the leftmost one; where it finds
/// nothing, there is none.
pub proof fn lemma_find_from(hay: Seq<u8>, needle: Seq<u8>, from: int)
    requires
        0 <= from,
        needle.len() > 0,
    ensures
        match find_from(hay, needle, from) {
            Some(p) => from <= p && occurs_at(hay, needle, p) && forall|j: int|
                from <= j < p ==> !occurs_at(hay, needle, j),
            None => forall|j: int| from <= j ==> !occurs_at(hay, needle, j),
        },
    decreases hay.len() - from,
{
    if from + needle.len() > hay.len() || from >= hay.len() {
    } else if occurs_at(hay, needle, from) {
    } else {
        lemma_find_from(hay, needle, from + 1);
    }
}

/// The content of the first segment of a nonempty haystack.
pub open spec fn first_segment(hay: Seq<u8>, needle: Seq<u8>) -> Segment {
    match find_from(hay, needle, 0) {
        Some(p) => (hay.subrange(0, p), true),
        None => (hay, false),
    }
}

/// What is left of a nonempty haystack once its first segment, and the delimiter
/// behind it, are taken away.
pub open spec fn after_first_segment(hay: Seq<u8>, needle: Seq<u8>) -> Seq<u8> {
    match find_from(hay, needle, 0) {
        Some(p) => hay.subrange(p + needle.len(), hay.len() as int),
        None => Seq::empty(),
    }
}

/// The segments of `hay`, in order. An empty haystack has none, and neither has
/// any haystack under an empty delimiter.
pub open spec fn split_segments(hay: Seq<u8>, needle: Seq<u8>) -> Seq<Segment>
    decreases hay.len(),
{
    if needle.len() == 0 || hay.len() == 0 {
        Seq::empty()
    } else {
        proof {
            lemma_find_from(hay, needle, 0);
        }
        seq![first_segment(hay, needle)] + split_segments(after_first_segment(hay, needle), needle)
    }
}

/// The bytes that a segment stands for: its content, and the delimiter if it was
/// terminated.
pub open spec fn segment_bytes(segment: Segment, needle: Seq<u8>) -> Seq<u8> {
    if segment.1 {
        segment.0 + needle
    } else {
        segment.0
    }
}

/// The bytes that a run of segments stands for.
pub open spec fn rejoin(segments: Seq<Segment>, needle: Seq<u8>) -> Seq<u8>
    decreases segments.len(),
{
    if segments.len() == 0 {
        Seq::empty()
    } else {
        segment_bytes(segments[0], needle) + rejoin(segments.drop_first(), needle)
    }
}

/// Splitting loses nothing: the segments of a haystack, each followed by the
/// delimiter where it was terminated, give the haystack back.
pub proof fn lemma_split_round_trip(hay: Seq<u8>, needle: Seq<u8>)
    requires
        needle.len() > 0,
    ensures
        rejoin(split_segments(hay, needle), needle) == hay,
    decreases hay.len(),
{
    if hay.len() == 0 {
        assert(rejoin(split_segments(hay, needle), needle) =~= hay);
    } else {
        lemma_find_from(hay, needle, 0);
        let first = first_segment(hay, needle);
        let rest = after_first_segment(hay, needle);
        let segments = split_segments(hay, needle);
        lemma_split_round_trip(rest, needle);
        assert(segments.drop_first() =~= split_segments(rest, needle));
        assert(segments[0] == first);
        assert(segment_bytes(first, needle) + rest =~= hay);
    }
}

/// Every segment but the last was terminated, no content holds the delimiter,
/// and a nonempty haystack has at least one segment.
pub proof fn lemma_split_segments_shape(hay: Seq<u8>, needle: Seq<u8>)
    requires
        needle.len() > 0,
    ensures
        forall|i: int|
            0 <= i < split_segments(hay, needle).len() - 1 ==> (#[trigger] split_segments(
                hay,
                needle,
            )[i]).1,
        forall|i: int|
            0 <= i < split_segments(hay, needle).len() ==> find_from(
                (#[trigger] split_segments(hay, needle)[i]).0,
                needle,
                0,
            ) is None,
        hay.len() > 0 ==> split_segments(hay, needle).len() > 0,
    decreases hay.len(),
{
    if hay.len() > 0 {
        lemma_find_from(hay, needle, 0);
        let first = first_segment(hay, needle);
        let rest = after_first_segment(hay, needle);
        let segments = split_segments(hay, needle);
        lemma_split_segments_shape(rest, needle);
        assert(segments.drop_first() =~= split_segments(rest, needle));
        assert(find_from(first.0, needle, 0) is None) by {
            lemma_find_from(first.0, needle, 0);
            if let Some(q) = find_from(first.0, needle, 0) {
                assert(hay.subrange(q, q + needle.len()) =~= first.0.subrange(
                    q,
                    q + needle.len(),
                ));
                assert(occurs_at(hay, needle, q));
            }
        }
        assert forall|i: int| 0 <= i < segments.len() - 1 implies (#[trigger] segments[i]).1 by {
            if i > 0 {
                assert(segments[i] == segments.drop_first()[i - 1]);
            } else {
                assert(rest.len() > 0);
            }
        }
        assert forall|i: int| 0 <= i < segments.len() implies find_from(
            (#[trigger] segments[i]).0,
            needle,
            0,
        ) is None by {
            if i > 0 {
                assert(segments[i] == segments.drop_first()[i - 1]);
            }
        }
    }
}

/// The segments that a vector of borrowed segments stands for.
pub open spec fn segments_view(items: Seq<(&[u8], bool)>) -> Seq<Segment> {
    Seq::new(items.len(), |i: int| (items[i].0@, items[i].1))
}

/// Whether `needle` stands in `hay` at offset `at`.
fn starts_at(hay: &[u8], needle: &[u8], at: usize) -> (found: bool)
    requires
        at + needle@.len() <= hay@.len(),
    ensures
        found == occurs_at(hay@, needle@, at as int),
{
    let width: usize = needle.len();
    let total: usize = hay.len();
    let mut k: usize = 0;
    while k < width
        invariant
            width == needle@.len(),
            total == hay@.len(),
            k <= needle@.len(),
            at + needle@.len() <= hay@.len() <= usize::MAX,
            forall|j: int| 0 <= j < k ==> hay@[at + j] == needle@[j],
        decreases needle@.len() - k,
    {
        if hay[at + k] != needle[k] {
            assert(hay@.subrange(at as int, at + needle@.len())[k as int] != needle@[k as int]);
            return false;
        }
        k += 1;
    }
    assert(hay@.subrange(at as int, at + needle@.len()) =~= needle@);
    true
}

/// The offset of the leftmost occurrence of `needle` in `hay`.
pub fn find_first(hay: &[u8], needle: &[u8]) -> (found: Option<usize>)
    ensures
        match found {
            Some(p) => find_from(hay@, needle@, 0) == Some(p as int),
            None => find_from(hay@, needle@, 0) is None,
        },
{
    if hay.len() < needle.len() || hay.len() == 0 {
        return None;
    }
    let last: usize = hay.len() - needle.len();
    let mut at: usize = 0;
    while at <= last && at < hay.len()
        invariant
            last + needle@.len() == hay@.len() <= usize::MAX,
            at <= last + 1,
            find_from(hay@, needle@, 0) == find_from(hay@, needle@, at as int),
        decreases last + 1 - at,
    {
        if starts_at(hay, needle, at) {
            return Some(at);
        }
        at += 1;
    }
    None
}

/// A restartable splitter over a borrowed haystack: each call of `next` hands
/// out the first segment of what is left.
pub struct SplitIterator<'a> {
    hayheap: &'a [u8],
    needle: &'a [u8],
}

impl<'a> SplitIterator<'a> {
    /// The bytes that have not been handed out yet.
    pub closed spec fn remaining(&self) -> Seq<u8> {
        self.hayheap@
    }

    /// The delimiter.
    pub closed spec fn delimiter(&self) -> Seq<u8> {
        self.needle@
    }

    /// The segments that are still to come.
    pub open spec fn segments(&self) -> Seq<Segment> {
        split_segments(self.remaining(), self.delimiter())
    }

    /// A splitter over `hayheap`, with `needle` as the delimiter.
    pub fn new(hayheap: &'a [u8], needle: &'a [u8]) -> (it: Self)
        ensures
            it.remaining() == hayheap@,
            it.delimiter() == needle@,
    {
        Self { hayheap, needle }
    }

    /// Hands out the next segment, or `None` once nothing is left (at once, where
    /// the delimiter is empty).
    pub fn next(&mut self) -> (item: Option<(&'a [u8], bool)>)
        ensures
            final(self).delimiter() == old(self).delimiter(),
            old(self).segments().len() == 0 ==> item is None && final(self).remaining() == old(
                self,
            ).remaining(),
            old(self).segments().len() > 0 ==> {
                &&& item matches Some(segment)
                &&& (segment.0@, segment.1) == first_segment(
                    old(self).remaining(),
                    old(self).delimiter(),
                )
                &&& (segment.0@, segment.1) == old(self).segments()[0]
                &&& final(self).remaining() == after_first_segment(
                    old(self).remaining(),
                    old(self).delimiter(),
                )
                &&& final(self).segments() == old(self).segments().drop_first()
            },
    {
        if self.needle.len() == 0 || self.hayheap.len() == 0 {
            return None;
        }
        let haystack = self.hayheap;
        let total: usize = haystack.len();
        proof {
            lemma_find_from(haystack@, self.needle@, 0);
            assert(old(self).segments().drop_first() =~= split_segments(
                after_first_segment(haystack@, self.needle@),
                self.needle@,
            ));
        }
        match find_first(haystack, self.needle) {
            None => {
                self.hayheap = slice_subrange(haystack, total, total);
                assert(self.hayheap@ =~= Seq::<u8>::empty());
                Some((haystack, false))
            },
            Some(pos) => {
                let before = slice_subrange(haystack, 0, pos);
                self.hayheap = slice_subrange(haystack, pos + self.needle.len(), total);
                Some((before, true))
            },
        }
    }

    /// All the segments that are still to come, in order.
    pub fn collect(self) -> (items: Vec<(&'a [u8], bool)>)
        ensures
            segments_view(items@) == self.segments(),
    {
        let mut it = self;
        let mut items: Vec<(&'a [u8], bool)> = Vec::new();
        assert(segments_view(items@) =~= Seq::<Segment>::empty());
        loop
            invariant
                it.delimiter() == self.delimiter(),
                segments_view(items@) + it.segments() == self.segments(),
            decreases it.segments().len(),
        {
            let ghost before = it.segments();
            let ghost collected = segments_view(items@);
            match it.next() {
                None => {
                    assert(segments_view(items@) + before =~= segments_view(items@));
                    return items;
                },
                Some(segment) => {
                    items.push(segment);
                    assert(segments_view(items@) =~= collected.push(before[0]));
                    assert(collected.push(before[0]) + before.drop_first() =~= collected + before);
                },
            }
        }
    }
}

/// Parts a haystack into its complete lines and what is left over.
///
/// The first component holds the terminated segments, where there is any; the
/// second the unterminated remainder, where the haystack does not end in the
/// delimiter.
pub fn split_iter_wrapper<'a>(arg: &'a [u8], needle: &'a [u8]) -> (parts: (
    Option<Vec<(&'a [u8], bool)>>,
    Option<&'a [u8]>,
))
    ensures
        parts.0 matches Some(lines) ==> segments_view(lines@) == complete_lines(arg@, needle@),
        parts.0 is Some <==> complete_lines(arg@, needle@).len() > 0,
        parts.1 matches Some(rest) ==> Some(rest@) == remainder(arg@, needle@),
        parts.1 is Some <==> remainder(arg@, needle@) is Some,
{
    let mut items = SplitIterator::new(arg, needle).collect();
    let ghost all = items@;
    assert(segments_view(all) == split_segments(arg@, needle@));
    match items.pop() {
        None => (None, None),
        Some((last, terminated_by_eol)) => {
            assert(segments_view(all).last() == (last@, terminated_by_eol));
            assert(segments_view(items@) =~= segments_view(all).drop_last());
            if !terminated_by_eol {
                if items.len() == 0 {
                    (None, Some(last))
                } else {
                    (Some(items), Some(last))
                }
            } else {
                items.push((last, terminated_by_eol));
                assert(items@ =~= all);
                (Some(items), None)
            }
        },
    }
}

/// The terminated segments of a haystack.
pub open spec fn complete_lines(hay: Seq<u8>, needle: Seq<u8>) -> Seq<Segment> {
    let all = split_segments(hay, needle);
    if all.len() > 0 && !all.last().1 {
        all.drop_last()
    } else {
        all
    }
}

/// The content of the unterminated last segment of a haystack, where it has one.
pub open spec fn remainder(hay: Seq<u8>, needle: Seq<u8>) -> Option<Seq<u8>> {
    let all = split_segments(hay, needle);
    if all.len() > 0 && !all.last().1 {
        Some(all.last().0)
    } else {
        None
    }
}

/// The bytes that stay behind once the complete lines of a haystack are taken
/// away: the content of its unterminated last segment, or nothing.
pub open spec fn leftover(hay: Seq<u8>, needle: Seq<u8>) -> Seq<u8> {
    match remainder(hay, needle) {
        Some(rest) => rest,
        None => Seq::empty(),
    }
}

/// The unterminated segment that the leftover of a haystack makes, where there
/// is any leftover.
pub open spec fn tail_segment(hay: Seq<u8>, needle: Seq<u8>) -> Seq<Segment> {
    if leftover(hay, needle).len() > 0 {
        seq![(leftover(hay, needle), false)]
    } else {
        Seq::empty()
    }
}

/// An occurrence that has none before it is what `find_from` finds.
pub proof fn lemma_find_from_is_leftmost(hay: Seq<u8>, needle: Seq<u8>, from: int, p: int)
    requires
        0 <= from <= p,
        needle.len() > 0,
        occurs_at(hay, needle, p),
        forall|j: int| from <= j < p ==> !occurs_at(hay, needle, j),
    ensures
        find_from(hay, needle, from) == Some(p),
    decreases p - from,
{
    if from < p {
        lemma_find_from_is_leftmost(hay, needle, from + 1, p);
    }
}

/// The complete lines of a haystack that starts with a terminated segment are
/// that segment and the complete lines of what follows it; the leftover is the
/// leftover of what follows it.
proof fn lemma_complete_lines_step(hay: Seq<u8>, needle: Seq<u8>)
    requires
        needle.len() > 0,
        hay.len() > 0,
        find_from(hay, needle, 0) is Some,
    ensures
        complete_lines(hay, needle) == seq![first_segment(hay, needle)] + complete_lines(
            after_first_segment(hay, needle),
            needle,
        ),
        leftover(hay, needle) == leftover(after_first_segment(hay, needle), needle),
{
    let first = first_segment(hay, needle);
    let rest = split_segments(after_first_segment(hay, needle), needle);
    let all = split_segments(hay, needle);
    assert(all =~= seq![first] + rest);
    if rest.len() > 0 {
        assert(all.last() == rest.last());
        if !rest.last().1 {
            assert(all.drop_last() =~= seq![first] + rest.drop_last());
        }
    }
}

/// The segments of a haystack are its complete lines and, behind them, its
/// leftover as an unterminated segment.
pub proof fn lemma_split_parts(hay: Seq<u8>, needle: Seq<u8>)
    requires
        needle.len() > 0,
    ensures
        split_segments(hay, needle) == complete_lines(hay, needle) + tail_segment(hay, needle),
    decreases hay.len(),
{
    let all = split_segments(hay, needle);
    if hay.len() == 0 {
        assert(all =~= complete_lines(hay, needle) + tail_segment(hay, needle));
    } else {
        lemma_find_from(hay, needle, 0);
        match find_from(hay, needle, 0) {
            None => {
                assert(split_segments(after_first_segment(hay, needle), needle) =~= Seq::<
                    Segment,
                >::empty());
                assert(all =~= seq![(hay, false)]);
                assert(all.drop_last() =~= Seq::<Segment>::empty());
                assert(all =~= complete_lines(hay, needle) + tail_segment(hay, needle));
            },
            Some(p) => {
                let rest = after_first_segment(hay, needle);
                lemma_split_parts(rest, needle);
                lemma_complete_lines_step(hay, needle);
                assert(all =~= seq![first_segment(hay, needle)] + split_segments(rest, needle));
                assert(all =~= complete_lines(hay, needle) + tail_segment(hay, needle));
            },
        }
    }
}

/// Splitting can be resumed: the segments of a haystack that grew at its end are
/// the complete lines it had before, and the segments of its leftover with what
/// was added. So a reader may split what it has, keep the leftover, and split
/// again when more has come.
pub proof fn lemma_split_resumes(hay: Seq<u8>, more: Seq<u8>, needle: Seq<u8>)
    requires
        needle.len() > 0,
    ensures
        split_segments(hay + more, needle) == complete_lines(hay, needle) + split_segments(
            leftover(hay, needle) + more,
            needle,
        ),
    decreases hay.len(),
{
    if hay.len() == 0 {
        assert(hay + more =~= more);
        assert(leftover(hay, needle) + more =~= more);
        assert(complete_lines(hay, needle) + split_segments(more, needle) =~= split_segments(
            more,
            needle,
        ));
    } else {
        lemma_find_from(hay, needle, 0);
        match find_from(hay, needle, 0) {
            None => {
                assert(split_segments(after_first_segment(hay, needle), needle) =~= Seq::<
                    Segment,
                >::empty());
                let all = split_segments(hay, needle);
                assert(all =~= seq![(hay, false)]);
                assert(all.drop_last() =~= Seq::<Segment>::empty());
                assert(complete_lines(hay, needle) + split_segments(hay + more, needle)
                    =~= split_segments(hay + more, needle));
            },
            Some(p) => {
                let longer = hay + more;
                let rest = after_first_segment(hay, needle);
                assert(occurs_at(longer, needle, p)) by {
                    assert(longer.subrange(p, p + needle.len()) =~= hay.subrange(
                        p,
                        p + needle.len(),
                    ));
                }
                assert forall|j: int| 0 <= j < p implies !occurs_at(longer, needle, j) by {
                    if occurs_at(longer, needle, j) {
                        assert(occurs_at(hay, needle, p));
                        assert(longer.subrange(j, j + needle.len()) =~= hay.subrange(
                            j,
                            j + needle.len(),
                        ));
                        assert(occurs_at(hay, needle, j));
                    }
                }
                lemma_find_from_is_leftmost(longer, needle, 0, p);
                assert(first_segment(longer, needle) == first_segment(hay, needle)) by {
                    assert(longer.subrange(0, p) =~= hay.subrange(0, p));
                }
                assert(after_first_segment(longer, needle) =~= rest + more);
                lemma_split_resumes(rest, more, needle);
                lemma_complete_lines_step(hay, needle);
                assert(split_segments(longer, needle) =~= seq![first_segment(hay, needle)]
                    + split_segments(rest + more, needle));
                assert(split_segments(longer, needle) =~= complete_lines(hay, needle)
                    + split_segments(leftover(hay, needle) + more, needle));
            },
        }
    }
}

} // verus!
