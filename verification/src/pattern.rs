//! The pattern capability: a compiled regular expression, and what one match of
//! it captured, held as plain offsets into the text that was searched.

use crate::text::{bytes_eq, slice_str, sliceable};
use std::collections::VecDeque;
use vstd::prelude::*;
use vstd::string::StringSliceAdditionalSpecFns;
use vstd::utf8::encode_utf8;

verus! {

/// `regex::Regex`, a compiled pattern of the pattern engine; nothing is known
/// of what it holds.
#[verifier::external_type_specification]
#[verifier::external_body]
pub struct ExRegex(regex::Regex);

/// The switches of the pattern language that a pattern is compiled under.
#[derive(Clone, Copy, Debug, PartialEq, Eq)]
pub struct PatternFlags {
    pub case_insensitive: bool,
    pub multi_line: bool,
    pub dot_matches_new_line: bool,
    pub swap_greed: bool,
    pub ignore_whitespace: bool,
    pub unicode: bool,
}

impl PatternFlags {
    /// The switches of a pattern that is compiled as it stands: none but the
    /// reading of the text as Unicode.
    pub fn plain() -> (flags: PatternFlags)
        ensures
            flags == (PatternFlags {
                case_insensitive: false,
                multi_line: false,
                dot_matches_new_line: false,
                swap_greed: false,
                ignore_whitespace: false,
                unicode: true,
            }),
    {
        PatternFlags {
            case_insensitive: false,
            multi_line: false,
            dot_matches_new_line: false,
            swap_greed: false,
            ignore_whitespace: false,
            unicode: true,
        }
    }
}

/// The byte offsets of one capture group in the text: its start and its end.
pub type Span = (usize, usize);

/// What the first match of a pattern in a text captured: for each group of the
/// pattern, in order, its span where it took part in the match; or nothing where
/// the pattern matches nowhere.
pub uninterp spec fn regex_captures(
    pattern: Seq<char>,
    flags: PatternFlags,
    haystack: Seq<char>,
) -> Option<Seq<Option<Span>>>;

/// What each of the successive matches of a pattern in a text captured, from
/// left to right.
pub uninterp spec fn regex_captures_iter(
    pattern: Seq<char>,
    flags: PatternFlags,
    haystack: Seq<char>,
) -> Seq<Seq<Option<Span>>>;

/// Whether a pattern matches anywhere in a text.
pub uninterp spec fn regex_is_match(
    pattern: Seq<char>,
    flags: PatternFlags,
    haystack: Seq<char>,
) -> bool;

/// `regex::CaptureMatches`, a search for the successive matches of a pattern
/// in a text; nothing is known of what it holds.
#[verifier::external_type_specification]
#[verifier::external_body]
pub struct ExCaptureMatches<'r, 'h>(regex::CaptureMatches<'r, 'h>);

/// The spans of the matches that a search has not brought yet, from left to
/// right.
pub uninterp spec fn matches_left(search: regex::CaptureMatches<'_, '_>) -> Seq<Seq<Option<Span>>>;

/// The name of each group of a pattern, in the order of the groups, where the
/// group has a name.
pub uninterp spec fn regex_capture_names(pattern: Seq<char>, flags: PatternFlags) -> Seq<
    Option<Seq<char>>,
>;

/// A character that the pattern language gives a meaning of its own.
pub open spec fn is_meta_character(c: char) -> bool {
    c == '\\' || c == '.' || c == '+' || c == '*' || c == '?' || c == '(' || c == ')' || c == '|'
        || c == '[' || c == ']' || c == '{' || c == '}' || c == '^' || c == '$' || c == '#' || c
        == '&' || c == '-' || c == '~'
}

/// A text with a backslash put before each of its meta characters: the pattern
/// that matches the text itself.
pub open spec fn escaped(text: Seq<char>) -> Seq<char>
    decreases text.len(),
{
    if text.len() == 0 {
        Seq::empty()
    } else if is_meta_character(text.last()) {
        escaped(text.drop_last()).push('\\').push(text.last())
    } else {
        escaped(text.drop_last()).push(text.last())
    }
}

/// The index of the first group at or after `from` that goes by the name `label`.
pub open spec fn find_name(names: Seq<Option<Seq<u8>>>, label: Seq<u8>, from: int) -> Option<int>
    decreases names.len() - from,
{
    if from < 0 || from >= names.len() {
        None
    } else if names[from] == Some(label) {
        Some(from)
    } else {
        find_name(names, label, from + 1)
    }
}

/// What `find_name` finds is a group of that name, and the first one; where it
/// finds nothing, there is none.
pub proof fn lemma_find_name(names: Seq<Option<Seq<u8>>>, label: Seq<u8>, from: int)
    requires
        0 <= from,
    ensures
        match find_name(names, label, from) {
            Some(i) => from <= i < names.len() && names[i] == Some(label) && forall|j: int|
                from <= j < i ==> names[j] != Some(label),
            None => forall|j: int| from <= j < names.len() ==> names[j] != Some(label),
        },
    decreases names.len() - from,
{
    if from < names.len() && names[from] != Some(label) {
        lemma_find_name(names, label, from + 1);
    }
}

/// The groups of one match, in specifications: the bytes of the text that was
/// searched, the name of each group of the pattern, and the span of each group
/// that took part in the match.
pub struct CapturesView {
    pub haystack: Seq<u8>,
    pub names: Seq<Option<Seq<u8>>>,
    pub spans: Seq<Option<Span>>,
}

impl CapturesView {
    /// The span of group `i`, where there is such a group and it took part.
    pub open spec fn span(self, i: int) -> Option<Span> {
        if 0 <= i < self.spans.len() {
            self.spans[i]
        } else {
            None
        }
    }

    /// The text of group `i`: the bytes of its span, where there is such a group,
    /// it took part, and its span can be cut out of the text.
    pub open spec fn group(self, i: int) -> Option<Seq<u8>> {
        match self.span(i) {
            Some((start, end)) => if sliceable(self.haystack, start as int, end as int) {
                Some(self.haystack.subrange(start as int, end as int))
            } else {
                None
            },
            None => None,
        }
    }

    /// The text of the group called `label`.
    pub open spec fn named(self, label: Seq<u8>) -> Option<Seq<u8>> {
        match find_name(self.names, label, 0) {
            Some(i) => self.group(i),
            None => None,
        }
    }
}

/// The names of the groups of a pattern, as bytes.
pub open spec fn names_view(names: Seq<Option<String>>) -> Seq<Option<Seq<u8>>> {
    Seq::new(
        names.len(),
        |i: int|
            match names[i] {
                Some(name) => Some(encode_utf8(name@)),
                None => None,
            },
    )
}

/// The groups of one match: the text that was searched, the names of the
/// pattern's groups, and the span of each group that took part in the match.
/// Group 0 stands for the whole match.
#[derive(Debug)]
pub struct Captures<'h> {
    pub haystack: &'h str,
    pub names: &'h [Option<String>],
    pub spans: Vec<Option<Span>>,
}

impl<'h> View for Captures<'h> {
    type V = CapturesView;

    open spec fn view(&self) -> CapturesView {
        CapturesView {
            haystack: self.haystack.spec_bytes(),
            names: names_view(self.names@),
            spans: self.spans@,
        }
    }
}

impl<'h> Captures<'h> {
    /// The span of the whole match.
    pub fn whole(&self) -> (span: Option<Span>)
        ensures
            span == self@.span(0),
    {
        if self.spans.len() > 0 {
            self.spans[0]
        } else {
            None
        }
    }

    /// The text of group `i`, or `None` where the match has no such text.
    pub fn get(&self, i: usize) -> (text: Option<&'h str>)
        ensures
            match text {
                Some(s) => self@.group(i as int) == Some(s.spec_bytes()),
                None => self@.group(i as int) is None,
            },
    {
        if i >= self.spans.len() {
            return None;
        }
        match self.spans[i] {
            Some((start, end)) => slice_str(self.haystack, start, end),
            None => None,
        }
    }

    /// The text of the group called `label`, or `None` where the pattern has no
    /// group of that name or the match has no text for it.
    pub fn name(&self, label: &str) -> (text: Option<&'h str>)
        ensures
            match text {
                Some(s) => self@.named(label.spec_bytes()) == Some(s.spec_bytes()),
                None => self@.named(label.spec_bytes()) is None,
            },
    {
        let total: usize = self.names.len();
        let mut i: usize = 0;
        while i < total
            invariant
                total == self.names@.len(),
                i <= total,
                find_name(self@.names, label.spec_bytes(), 0) == find_name(
                    self@.names,
                    label.spec_bytes(),
                    i as int,
                ),
            decreases total - i,
        {
            match &self.names[i] {
                Some(name) => {
                    if bytes_eq(name.as_str().as_bytes(), label.as_bytes()) {
                        return self.get(i);
                    }
                },
                None => {},
            }
            i += 1;
        }
        None
    }
}

/// The names of the groups of a pattern, as bytes.
pub open spec fn names_bytes(names: Seq<Option<Seq<char>>>) -> Seq<Option<Seq<u8>>> {
    Seq::new(
        names.len(),
        |i: int|
            match names[i] {
                Some(name) => Some(encode_utf8(name)),
                None => None,
            },
    )
}

/// The names that a vector of names holds.
pub open spec fn names_chars(names: Seq<Option<String>>) -> Seq<Option<Seq<char>>> {
    Seq::new(
        names.len(),
        |i: int|
            match names[i] {
                Some(name) => Some(name@),
                None => None,
            },
    )
}

/// The spans that a vector of matches holds.
pub open spec fn spans_view(matches: Seq<Vec<Option<Span>>>) -> Seq<Seq<Option<Span>>> {
    Seq::new(matches.len(), |i: int| matches[i]@)
}

/// What a vector of captures holds.
pub open spec fn captures_view(all: Seq<Captures<'_>>) -> Seq<CapturesView> {
    Seq::new(all.len(), |i: int| all[i]@)
}

/// A pattern as the pattern engine compiled it, with what it was compiled
/// from. Only `compile` makes one, so the three belong together.
struct Compiled {
    pattern: String,
    flags: PatternFlags,
    regex: regex::Regex,
}

/// `regex::RegexBuilder`: compiles a pattern under the given switches, and
/// keeps the pattern and the switches with what was compiled. Nothing is
/// claimed of which patterns compile; a failure comes back as the text that
/// the error shows.
#[verifier::external_body]
fn compile(pattern: &str, flags: PatternFlags) -> (built: Result<Compiled, String>)
    ensures
        built matches Ok(compiled) ==> compiled.pattern@ == pattern@ && compiled.flags == flags,
{
    regex::RegexBuilder::new(pattern)
        .case_insensitive(flags.case_insensitive)
        .multi_line(flags.multi_line)
        .dot_matches_new_line(flags.dot_matches_new_line)
        .swap_greed(flags.swap_greed)
        .ignore_whitespace(flags.ignore_whitespace)
        .unicode(flags.unicode)
        .build()
        .map(|regex| Compiled { pattern: pattern.to_string(), flags, regex })
        .map_err(|e| format!("{:?}", e))
}

/// `regex::Regex::capture_names`: the name of each group of the pattern, in the
/// order of the groups. The result is a function of the pattern and its
/// switches alone; it goes by the name `regex_capture_names`.
#[verifier::external_body]
fn capture_names(compiled: &Compiled) -> (names: Vec<Option<String>>)
    ensures
        names_chars(names@) == regex_capture_names(compiled.pattern@, compiled.flags),
{
    compiled.regex.capture_names().map(|name| name.map(|n| n.to_string())).collect()
}

/// `regex::Regex::is_match`: whether the pattern matches anywhere in the text.
/// The result is a function of the pattern, its switches and the text alone;
/// it goes by the name `regex_is_match`.
#[verifier::external_body]
fn has_match(compiled: &Compiled, haystack: &str) -> (found: bool)
    ensures
        found == regex_is_match(compiled.pattern@, compiled.flags, haystack@),
{
    compiled.regex.is_match(haystack)
}

/// `regex::Regex::captures`: the spans of the groups of the first match. The
/// result is a function of the pattern, its switches and the text alone; it
/// goes by the name `regex_captures`.
#[verifier::external_body]
fn first_match(compiled: &Compiled, haystack: &str) -> (spans: Option<Vec<Option<Span>>>)
    ensures
        match spans {
            Some(v) => regex_captures(compiled.pattern@, compiled.flags, haystack@) == Some(v@),
            None => regex_captures(compiled.pattern@, compiled.flags, haystack@) is None,
        },
{
    compiled.regex.captures(haystack).map(
        |c| c.iter().map(|m| m.map(|m| (m.start(), m.end()))).collect(),
    )
}

/// `regex::Regex::captures_iter`: the search for the successive matches of the
/// pattern in the text. The spans of the matches that it will bring are a
/// function of the pattern, its switches and the text alone; they go by the
/// name `regex_captures_iter`.
#[verifier::external_body]
fn start_matches<'a>(compiled: &'a Compiled, haystack: &'a str) -> (search: regex::CaptureMatches<
    'a,
    'a,
>)
    ensures
        matches_left(search) == regex_captures_iter(compiled.pattern@, compiled.flags, haystack@),
{
    compiled.regex.captures_iter(haystack)
}

/// `Iterator::next` of `regex::CaptureMatches`: the spans of the groups of the
/// next match, which is the first of the matches that were left; or nothing
/// where none was left.
#[verifier::external_body]
fn next_match(search: &mut regex::CaptureMatches<'_, '_>) -> (spans: Option<Vec<Option<Span>>>)
    ensures
        match spans {
            Some(v) => {
                &&& matches_left(*old(search)).len() > 0
                &&& v@ == matches_left(*old(search))[0]
                &&& matches_left(*final(search)) == matches_left(*old(search)).drop_first()
            },
            None => matches_left(*old(search)).len() == 0 && matches_left(*final(search))
                == matches_left(*old(search)),
        },
{
    search.next().map(|c| c.iter().map(|m| m.map(|m| (m.start(), m.end()))).collect())
}

/// `regex::escape`: the text with a backslash before each meta character.
#[verifier::external_body]
pub(crate) fn escape(text: &str) -> (pattern: String)
    ensures
        pattern@ == escaped(text@),
{
    regex::escape(text)
}

/// A compiled pattern, in specifications: what it was compiled from.
pub struct MatcherView {
    pub pattern: Seq<char>,
    pub flags: PatternFlags,
}

impl MatcherView {
    /// The names of the groups of this pattern.
    pub open spec fn names(self) -> Seq<Option<Seq<u8>>> {
        names_bytes(regex_capture_names(self.pattern, self.flags))
    }

    /// The groups of a match of this pattern in `haystack` that has the given
    /// spans.
    pub open spec fn groups_of(self, haystack: Seq<char>, spans: Seq<Option<Span>>) -> CapturesView {
        CapturesView { haystack: encode_utf8(haystack), names: self.names(), spans }
    }

    /// Whether this pattern matches anywhere in `haystack`.
    pub open spec fn is_match(self, haystack: Seq<char>) -> bool {
        regex_is_match(self.pattern, self.flags, haystack)
    }

    /// The groups of the first match of this pattern in `haystack`.
    pub open spec fn first_captures(self, haystack: Seq<char>) -> Option<CapturesView> {
        match regex_captures(self.pattern, self.flags, haystack) {
            Some(spans) => Some(self.groups_of(haystack, spans)),
            None => None,
        }
    }

    /// The groups of each successive match of this pattern in `haystack`.
    pub open spec fn all_captures(self, haystack: Seq<char>) -> Seq<CapturesView> {
        let found = regex_captures_iter(self.pattern, self.flags, haystack);
        Seq::new(found.len(), |i: int| self.groups_of(haystack, found[i]))
    }
}

/// A compiled pattern, with the names of its groups at hand.
pub struct Matcher {
    compiled: Compiled,
    names: Vec<Option<String>>,
}

impl View for Matcher {
    type V = MatcherView;

    closed spec fn view(&self) -> MatcherView {
        MatcherView { pattern: self.compiled.pattern@, flags: self.compiled.flags }
    }
}

impl Matcher {
    /// The names at hand are the names of the pattern's groups.
    #[verifier::type_invariant]
    spec fn names_are_at_hand(&self) -> bool {
        names_view(self.names@) == self@.names()
    }

    /// Compiles `pattern` under `flags`. Whether a pattern compiles is for the
    /// pattern engine to say; its complaint is handed on as the error.
    pub fn new(pattern: &str, flags: PatternFlags) -> (built: Result<Matcher, String>)
        ensures
            built matches Ok(m) ==> m@ == (MatcherView { pattern: pattern@, flags }),
    {
        match compile(pattern, flags) {
            Ok(compiled) => {
                let names = capture_names(&compiled);
                assert(names_view(names@) =~= names_bytes(names_chars(names@)));
                Ok(Matcher { compiled, names })
            },
            Err(complaint) => Err(complaint),
        }
    }

    /// The groups of the first match of the pattern in `haystack`.
    pub fn captures<'h>(&'h self, haystack: &'h str) -> (caps: Option<Captures<'h>>)
        ensures
            match caps {
                Some(c) => self@.first_captures(haystack@) == Some(c@),
                None => self@.first_captures(haystack@) is None,
            },
    {
        proof {
            use_type_invariant(self);
        }
        match first_match(&self.compiled, haystack) {
            Some(spans) => Some(Captures { haystack, names: self.names.as_slice(), spans }),
            None => None,
        }
    }

    /// Whether the pattern matches anywhere in `haystack`.
    pub fn is_match(&self, haystack: &str) -> (found: bool)
        ensures
            found == self@.is_match(haystack@),
    {
        has_match(&self.compiled, haystack)
    }

    /// The successive matches of the pattern in `haystack`, from left to right.
    /// They are searched for one by one, as they are asked for.
    pub fn captures_iter<'a>(&'a self, haystack: &'a str) -> (matches: Matches<'a>)
        ensures
            matches@.captures() == self@.all_captures(haystack@),
    {
        proof {
            use_type_invariant(self);
        }
        let search = start_matches(&self.compiled, haystack);
        let matches = Matches {
            haystack,
            names: self.names.as_slice(),
            found: VecDeque::new(),
            search: Some(search),
        };
        assert(matches@.spans =~= matches_left(search));
        assert(matches@.captures() =~= self@.all_captures(haystack@));
        matches
    }
}

/// The matches of a pattern in a text that are still to come, in
/// specifications: the bytes of the text, the names of the pattern's groups,
/// and the spans of each match.
pub struct MatchesView {
    pub haystack: Seq<u8>,
    pub names: Seq<Option<Seq<u8>>>,
    pub spans: Seq<Seq<Option<Span>>>,
}

impl MatchesView {
    /// The groups of each match that is still to come.
    pub open spec fn captures(self) -> Seq<CapturesView> {
        Seq::new(
            self.spans.len(),
            |i: int| CapturesView { haystack: self.haystack, names: self.names, spans: self.spans[i] },
        )
    }
}

/// The matches of a pattern in a text, handed out from left to right. Matches
/// that were found before come first; the others are searched for one by one,
/// as they are asked for.
pub struct Matches<'a> {
    haystack: &'a str,
    names: &'a [Option<String>],
    found: VecDeque<Vec<Option<Span>>>,
    search: Option<regex::CaptureMatches<'a, 'a>>,
}

impl<'a> View for Matches<'a> {
    type V = MatchesView;

    closed spec fn view(&self) -> MatchesView {
        MatchesView {
            haystack: self.haystack.spec_bytes(),
            names: names_view(self.names@),
            spans: match self.search {
                Some(search) => spans_view(self.found@) + matches_left(search),
                None => spans_view(self.found@),
            },
        }
    }
}

impl<'a> Matches<'a> {
    /// Matches that were found before: their spans in `haystack`, from left to
    /// right, and the names of the pattern's groups.
    pub fn found(haystack: &'a str, names: &'a [Option<String>], spans: Vec<Vec<Option<Span>>>) -> (matches:
        Matches<'a>)
        ensures
            matches@ == (MatchesView {
                haystack: haystack.spec_bytes(),
                names: names_view(names@),
                spans: spans_view(spans@),
            }),
    {
        let mut rest = spans;
        let mut found: VecDeque<Vec<Option<Span>>> = VecDeque::new();
        while rest.len() > 0
            invariant
                rest@ + found@ == spans@,
            decreases rest@.len(),
        {
            let ghost shorter = rest@.drop_last();
            let ghost behind = found@;
            match rest.pop() {
                Some(last) => {
                    found.push_front(last);
                    assert(rest@ + found@ =~= shorter.push(last) + behind);
                },
                None => {},
            }
        }
        assert(found@ =~= spans@);
        Matches { haystack, names, found, search: None }
    }

    /// Hands out the next match, or `None` where there is none left.
    pub fn next(&mut self) -> (caps: Option<Captures<'a>>)
        ensures
            final(self)@.haystack == old(self)@.haystack,
            final(self)@.names == old(self)@.names,
            match caps {
                Some(c) => {
                    &&& old(self)@.spans.len() > 0
                    &&& c@ == old(self)@.captures()[0]
                    &&& final(self)@.spans == old(self)@.spans.drop_first()
                },
                None => old(self)@.spans.len() == 0 && final(self)@.spans == old(self)@.spans,
            },
    {
        let ghost before = spans_view(self.found@);
        match self.found.pop_front() {
            Some(spans) => {
                assert(spans_view(self.found@) =~= before.drop_first());
                assert(self@.spans =~= old(self)@.spans.drop_first());
                return Some(Captures { haystack: self.haystack, names: self.names, spans });
            },
            None => {},
        }
        assert(before =~= Seq::<Seq<Option<Span>>>::empty());
        match self.search.take() {
            Some(mut search) => {
                let ghost left = matches_left(search);
                assert(old(self)@.spans =~= left);
                let next = next_match(&mut search);
                self.search = Some(search);
                assert(self@.spans =~= matches_left(search));
                match next {
                    Some(spans) => Some(
                        Captures { haystack: self.haystack, names: self.names, spans },
                    ),
                    None => None,
                }
            },
            None => None,
        }
    }

    /// All the matches that are still to come, from left to right.
    pub fn collect(self) -> (all: Vec<Captures<'a>>)
        ensures
            captures_view(all@) == self@.captures(),
    {
        let mut matches = self;
        let mut all: Vec<Captures<'a>> = Vec::new();
        assert(captures_view(all@) =~= Seq::<CapturesView>::empty());
        loop
            invariant
                matches@.haystack == self@.haystack,
                matches@.names == self@.names,
                captures_view(all@) + matches@.captures() == self@.captures(),
            decreases matches@.spans.len(),
        {
            let ghost before = matches@.captures();
            let ghost collected = captures_view(all@);
            match matches.next() {
                None => {
                    assert(collected + before =~= collected);
                    return all;
                },
                Some(caps) => {
                    all.push(caps);
                    assert(captures_view(all@) =~= collected.push(before[0]));
                    assert(matches@.captures() =~= before.drop_first());
                    assert(collected.push(before[0]) + before.drop_first() =~= collected + before);
                },
            }
        }
    }
}

} // verus!
