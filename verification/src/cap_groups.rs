//! Compiling a format string into a reusable list of instructions, and applying
//! the list to the groups of one match.

use crate::grammar::{
    byte_in_class, compile, compile_from, copied, find_special, group_token_at,
    lemma_group_token_at,
    lemma_next_group_token, lemma_next_special, lemma_reference_at, lemma_run_end,
    literal_instructions, next_group_token, parse_decimal, reference_at, scan_run,
    written, ByteClass, Instruction, DIGIT_ZERO, GREATER_THAN, LESS_THAN, PERCENT,
};
use crate::pattern::{lemma_find_name, Captures, CapturesView};
use crate::text::{
    lemma_boundary_after_ascii, lemma_boundary_at_ascii, lemma_encode_concat,
    lemma_encode_injective, slice_str,
};
use vstd::prelude::*;
use vstd::string::StringExecFns;
use vstd::string::StringSliceAdditionalSpecFns;
use vstd::utf8::*;

verus! {

/// One instruction of a compiled template. The texts are parts of the format
/// string that the template was compiled from.
#[derive(Clone, PartialEq, Eq, PartialOrd, Ord, Hash, Debug)]
pub enum CapGroup<'a> {
    MultiDigit(usize),
    SingleDigit(usize),
    Labelled(&'a str),
    Escape(&'a str),
    CopyFromInput(&'a str),
    SingleChar(char),
}

impl<'a> View for CapGroup<'a> {
    type V = Instruction;

    open spec fn view(&self) -> Instruction {
        match *self {
            CapGroup::MultiDigit(n) => Instruction::MultiDigit(n),
            CapGroup::SingleDigit(n) => Instruction::SingleDigit(n),
            CapGroup::Labelled(name) => Instruction::Labelled(name.spec_bytes()),
            CapGroup::Escape(text) => Instruction::Escape(text.spec_bytes()),
            CapGroup::CopyFromInput(text) => Instruction::CopyFromInput(text.spec_bytes()),
            CapGroup::SingleChar(c) => Instruction::SingleChar(c),
        }
    }
}

/// The instructions that a list of groups stands for.
pub open spec fn instructions(groups: Seq<CapGroup<'_>>) -> Seq<Instruction> {
    Seq::new(groups.len(), |i: int| groups[i]@)
}

/// What one instruction writes for the groups of a match. A reference to a
/// group that the match does not have writes nothing.
pub open spec fn piece(instruction: Instruction, caps: CapturesView) -> Seq<u8> {
    match instruction {
        Instruction::MultiDigit(n) => match caps.group(n as int) {
            Some(text) => text,
            None => Seq::empty(),
        },
        Instruction::SingleDigit(n) => match caps.group(n as int) {
            Some(text) => text,
            None => Seq::empty(),
        },
        Instruction::Labelled(name) => match caps.named(name) {
            Some(text) => text,
            None => Seq::empty(),
        },
        Instruction::Escape(text) => text,
        Instruction::CopyFromInput(text) => text,
        Instruction::SingleChar(c) => encode_utf8(seq![c]),
    }
}

/// What a template writes for the groups of a match: the pieces of its
/// instructions, in order.
pub open spec fn render(template: Seq<Instruction>, caps: CapturesView) -> Seq<u8>
    decreases template.len(),
{
    if template.len() == 0 {
        Seq::empty()
    } else {
        render(template.drop_last(), caps) + piece(template.last(), caps)
    }
}

/// Applying a template is a function of the template and the groups: two
/// applications to the same groups, behind the same text, give the same text.
pub proof fn lemma_output_is_deterministic(
    template: Seq<Instruction>,
    caps: CapturesView,
    before: Seq<char>,
    first: Seq<char>,
    second: Seq<char>,
)
    requires
        encode_utf8(first) == encode_utf8(before) + render(template, caps),
        encode_utf8(second) == encode_utf8(before) + render(template, caps),
    ensures
        first == second,
{
    lemma_encode_injective(first, second);
}

/// A reference to a group that the match does not have writes nothing,
/// whatever else the match holds: a number beyond the groups of the pattern, a
/// group that took no part in the match, a name that no group goes by.
pub proof fn lemma_missing_group_writes_nothing(caps: CapturesView, n: usize, name: Seq<u8>)
    ensures
        n >= caps.spans.len() || caps.spans[n as int] is None ==> {
            &&& piece(Instruction::MultiDigit(n), caps) == Seq::<u8>::empty()
            &&& piece(Instruction::SingleDigit(n), caps) == Seq::<u8>::empty()
        },
        (forall|i: int| 0 <= i < caps.names.len() ==> caps.names[i] != Some(name)) ==> piece(
            Instruction::Labelled(name),
            caps,
        ) == Seq::<u8>::empty(),
        (forall|i: int|
            0 <= i < caps.names.len() && caps.names[i] == Some(name) ==> caps.span(i) is None)
            ==> piece(Instruction::Labelled(name), caps) == Seq::<u8>::empty(),
{
    lemma_find_name(caps.names, name, 0);
}

/// A template without any group reference writes the same for every match.
pub proof fn lemma_literal_template_ignores_groups(
    template: Seq<Instruction>,
    first: CapturesView,
    second: CapturesView,
)
    requires
        forall|i: int|
            0 <= i < template.len() ==> (#[trigger] template[i]) is Escape || template[i] is CopyFromInput
                || template[i] is SingleChar,
    ensures
        render(template, first) == render(template, second),
    decreases template.len(),
{
    if template.len() > 0 {
        lemma_literal_template_ignores_groups(template.drop_last(), first, second);
    }
}

/// `String::push`: appends one character.
#[verifier::external_body]
fn push_char(buffer: &mut String, c: char)
    ensures
        final(buffer)@ == old(buffer)@.push(c),
{
    buffer.push(c)
}

/// Appends a text to a buffer; stated over bytes.
fn push_text(buffer: &mut String, text: &str)
    ensures
        encode_utf8(final(buffer)@) == encode_utf8(old(buffer)@) + text.spec_bytes(),
{
    proof {
        lemma_encode_concat(buffer@, text@);
    }
    buffer.append(text);
}

/// Pushing a group onto a list pushes its instruction onto the instructions.
proof fn lemma_instructions_push(groups: Seq<CapGroup<'_>>, group: CapGroup<'_>)
    ensures
        instructions(groups.push(group)) == instructions(groups).push(group@),
{
    assert(instructions(groups.push(group)) =~= instructions(groups).push(group@));
}

impl<'a> CapGroup<'a> {
    /// Reads the group reference that starts at `q`, behind the `%`: the group it
    /// stands for and the offset where it ends.
    fn reference(arg: &'a str, q: usize) -> (found: Option<(CapGroup<'a>, usize)>)
        ensures
            match found {
                Some((group, end)) => reference_at(arg.spec_bytes(), q as int) == Some(
                    (group@, end as int),
                ),
                None => reference_at(arg.spec_bytes(), q as int) is None,
            },
    {
        let t = arg.as_bytes();
        let total: usize = t.len();
        if q >= total {
            return None;
        }
        let first: u8 = t[q];
        if byte_in_class(ByteClass::Digit, first) {
            return Some((CapGroup::SingleDigit((first - DIGIT_ZERO) as usize), q + 1));
        }
        if first != LESS_THAN || total - q < 2 {
            return None;
        }
        let second: u8 = t[q + 1];
        if byte_in_class(ByteClass::Lowercase, second) {
            let end: usize = scan_run(t, q + 1, ByteClass::Alphanumeric);
            if end - (q + 1) >= 2 && end < total && t[end] == GREATER_THAN {
                proof {
                    encode_utf8_valid_utf8(arg@);
                    lemma_boundary_at_ascii(t@, q + 1);
                    lemma_boundary_at_ascii(t@, end as int);
                }
                match slice_str(arg, q + 1, end) {
                    Some(name) => Some((CapGroup::Labelled(name), end + 1)),
                    None => None,
                }
            } else {
                None
            }
        } else if byte_in_class(ByteClass::Digit, second) {
            let end: usize = scan_run(t, q + 1, ByteClass::Digit);
            if end - (q + 1) >= 2 && end < total && t[end] == GREATER_THAN {
                proof {
                    lemma_run_end(t@, q + 1, ByteClass::Digit);
                }
                Some((CapGroup::MultiDigit(parse_decimal(t, q + 1, end)), end + 1))
            } else {
                None
            }
        } else {
            None
        }
    }

    /// Reads the group token that starts at `at`, if there is one: the group it
    /// stands for and the offset where it ends.
    pub fn build(arg: &'a str, at: usize) -> (found: Option<(CapGroup<'a>, usize)>)
        ensures
            match found {
                Some((group, end)) => group_token_at(arg.spec_bytes(), at as int) == Some(
                    (group@, end as int),
                ),
                None => group_token_at(arg.spec_bytes(), at as int) is None,
            },
    {
        let t = arg.as_bytes();
        let total: usize = t.len();
        if at >= total || t[at] != PERCENT {
            return None;
        }
        if total - at >= 2 && t[at + 1] == PERCENT {
            match Self::reference(arg, at + 2) {
                Some((_, end)) => {
                    proof {
                        encode_utf8_valid_utf8(arg@);
                        lemma_reference_at(t@, at + 2);
                        lemma_boundary_at_ascii(t@, at + 1);
                        lemma_boundary_after_ascii(t@, end - 1);
                    }
                    match slice_str(arg, at + 1, end) {
                        Some(text) => Some((CapGroup::Escape(text), end)),
                        None => None,
                    }
                },
                None => None,
            }
        } else {
            Self::reference(arg, at + 1)
        }
    }

    /// Finds the leftmost group token at or after `from`: where it starts, the
    /// group it stands for, and where it ends.
    pub fn find_group(arg: &'a str, from: usize) -> (found: Option<(usize, CapGroup<'a>, usize)>)
        ensures
            match found {
                Some((start, group, end)) => next_group_token(arg.spec_bytes(), from as int)
                    == Some((start as int, group@, end as int)),
                None => next_group_token(arg.spec_bytes(), from as int) is None,
            },
    {
        let total: usize = arg.as_bytes().len();
        let mut at: usize = from;
        while at < total
            invariant
                total == arg.spec_bytes().len(),
                from <= at,
                next_group_token(arg.spec_bytes(), from as int) == next_group_token(
                    arg.spec_bytes(),
                    at as int,
                ),
            decreases total - at,
        {
            match Self::build(arg, at) {
                Some((group, end)) => {
                    return Some((at, group, end));
                },
                None => {},
            }
            at += 1;
        }
        None
    }

    /// The second pass: appends the instructions of a stretch of text that holds
    /// no group token, reading it for character escapes.
    pub fn build_spec_groups(arg: &'a str, list: &mut Vec<CapGroup<'a>>)
        ensures
            instructions(final(list)@) == instructions(old(list)@) + literal_instructions(
                arg.spec_bytes(),
                0,
            ),
    {
        let t = arg.as_bytes();
        let total: usize = t.len();
        let mut old_start: usize = 0;
        proof {
            encode_utf8_valid_utf8(arg@);
            is_char_boundary_start_end_of_seq(t@);
        }
        loop
            invariant
                t@ == arg.spec_bytes(),
                total == t@.len(),
                valid_utf8(t@),
                old_start <= total,
                is_char_boundary(t@, old_start as int),
                is_char_boundary(t@, total as int),
                instructions(list@) + literal_instructions(t@, old_start as int)
                    == instructions(old(list)@) + literal_instructions(t@, 0),
            decreases total - old_start,
        {
            let ghost before = instructions(list@);
            proof {
                lemma_next_special(t@, old_start as int);
            }
            match find_special(t, old_start) {
                None => {
                    if old_start < total {
                        match slice_str(arg, old_start, total) {
                            Some(text) => {
                                proof {
                                    lemma_instructions_push(
                                        list@,
                                        CapGroup::CopyFromInput(text),
                                    );
                                }
                                list.push(CapGroup::CopyFromInput(text));
                            },
                            None => {},
                        }
                    }
                    assert(instructions(list@) =~= before + literal_instructions(
                        t@,
                        old_start as int,
                    ));
                    return ;
                },
                Some((start, c, end)) => {
                    proof {
                        crate::grammar::lemma_special_at(t@, start as int);
                        lemma_boundary_at_ascii(t@, start as int);
                        lemma_boundary_after_ascii(t@, end - 1);
                    }
                    if start != old_start {
                        match slice_str(arg, old_start, start) {
                            Some(text) => {
                                proof {
                                    lemma_instructions_push(
                                        list@,
                                        CapGroup::CopyFromInput(text),
                                    );
                                }
                                list.push(CapGroup::CopyFromInput(text));
                            },
                            None => {},
                        }
                    }
                    assert(instructions(list@) =~= before + copied(
                        t@,
                        old_start as int,
                        start as int,
                    ));
                    match c {
                        Some(c) => {
                            proof {
                                lemma_instructions_push(list@, CapGroup::SingleChar(c));
                            }
                            list.push(CapGroup::SingleChar(c));
                        },
                        None => {},
                    }
                    assert(instructions(list@) =~= before + copied(
                        t@,
                        old_start as int,
                        start as int,
                    ) + written(c));
                    assert(before + literal_instructions(t@, old_start as int) =~= before + copied(
                        t@,
                        old_start as int,
                        start as int,
                    ) + written(c) + literal_instructions(t@, end as int));
                    old_start = end;
                },
            }
        }
    }

    /// Compiles a format string: the first pass finds the group tokens, and the
    /// text between them goes through the second pass.
    pub fn build_groups(arg: &'a str) -> (list: Vec<CapGroup<'a>>)
        ensures
            instructions(list@) == compile(arg.spec_bytes()),
    {
        let t = arg.as_bytes();
        let total: usize = t.len();
        let mut list: Vec<CapGroup<'a>> = Vec::with_capacity(1);
        let mut old_start: usize = 0;
        proof {
            encode_utf8_valid_utf8(arg@);
            is_char_boundary_start_end_of_seq(t@);
            assert(instructions(list@) + compile_from(t@, 0) =~= compile(t@));
        }
        loop
            invariant
                t@ == arg.spec_bytes(),
                total == t@.len(),
                valid_utf8(t@),
                old_start <= total,
                is_char_boundary(t@, old_start as int),
                is_char_boundary(t@, total as int),
                instructions(list@) + compile_from(t@, old_start as int) == compile(t@),
            decreases total - old_start,
        {
            let ghost before = instructions(list@);
            proof {
                lemma_next_group_token(t@, old_start as int);
            }
            match Self::find_group(arg, old_start) {
                None => {
                    if old_start < total {
                        match slice_str(arg, old_start, total) {
                            Some(text) => Self::build_spec_groups(text, &mut list),
                            None => {},
                        }
                    } else {
                        assert(t@.subrange(old_start as int, total as int).len() == 0);
                    }
                    assert(instructions(list@) =~= before + compile_from(
                        t@,
                        old_start as int,
                    ));
                    return list;
                },
                Some((start, group, end)) => {
                    proof {
                        lemma_group_token_at(t@, start as int);
                        lemma_boundary_at_ascii(t@, start as int);
                        lemma_boundary_after_ascii(t@, end - 1);
                    }
                    if start != old_start {
                        match slice_str(arg, old_start, start) {
                            Some(text) => Self::build_spec_groups(text, &mut list),
                            None => {},
                        }
                    } else {
                        assert(t@.subrange(old_start as int, start as int).len() == 0);
                    }
                    let ghost literal = literal_instructions(
                        t@.subrange(old_start as int, start as int),
                        0,
                    );
                    assert(instructions(list@) =~= before + literal);
                    proof {
                        lemma_instructions_push(list@, group);
                    }
                    list.push(group);
                    assert(before + compile_from(t@, old_start as int) =~= before + literal
                        + seq![group@] + compile_from(t@, end as int));
                    assert(instructions(list@) =~= before + literal + seq![group@]);
                    old_start = end;
                },
            }
        }
    }

    /// Applies a template to the groups of one match: appends to `buffer` what
    /// each instruction writes, in order.
    pub fn output(groups: &[CapGroup<'a>], caps: &Captures<'_>, buffer: &mut String)
        ensures
            encode_utf8(final(buffer)@) == encode_utf8(old(buffer)@) + render(
                instructions(groups@),
                caps@,
            ),
    {
        let total: usize = groups.len();
        let mut i: usize = 0;
        assert(instructions(groups@).take(0) =~= Seq::<Instruction>::empty());
        assert(encode_utf8(buffer@) + Seq::<u8>::empty() =~= encode_utf8(buffer@));
        while i < total
            invariant
                total == groups@.len(),
                i <= total,
                encode_utf8(buffer@) == encode_utf8(old(buffer)@) + render(
                    instructions(groups@).take(i as int),
                    caps@,
                ),
            decreases total - i,
        {
            let ghost before = encode_utf8(buffer@);
            let ghost done = instructions(groups@).take(i as int);
            let ghost longer = instructions(groups@).take(i + 1);
            proof {
                assert(longer.drop_last() =~= done);
                assert(longer.last() == groups@[i as int]@);
            }
            match &groups[i] {
                CapGroup::MultiDigit(x) => {
                    match caps.get(*x) {
                        Some(text) => push_text(buffer, text),
                        None => {},
                    }
                },
                CapGroup::SingleDigit(x) => {
                    match caps.get(*x) {
                        Some(text) => push_text(buffer, text),
                        None => {},
                    }
                },
                CapGroup::Labelled(label) => {
                    match caps.name(label) {
                        Some(text) => push_text(buffer, text),
                        None => {},
                    }
                },
                CapGroup::Escape(text) => push_text(buffer, text),
                CapGroup::CopyFromInput(text) => push_text(buffer, text),
                CapGroup::SingleChar(c) => {
                    proof {
                        lemma_encode_concat(buffer@, seq![*c]);
                        assert(buffer@.push(*c) =~= buffer@ + seq![*c]);
                    }
                    push_char(buffer, *c);
                },
            }
            assert(encode_utf8(buffer@) =~= before + piece(groups@[i as int]@, caps@));
            assert(encode_utf8(old(buffer)@) + render(done, caps@) + piece(
                groups@[i as int]@,
                caps@,
            ) =~= encode_utf8(old(buffer)@) + render(longer, caps@));
            i += 1;
        }
        assert(instructions(groups@).take(total as int) =~= instructions(groups@));
    }

    /// Applies a template to the groups of one match and appends the bytes to a
    /// sink: the same bytes that `output` appends to a string.
    pub fn stream_output(groups: &[CapGroup<'a>], caps: &Captures<'_>, output: &mut Vec<u8>)
        ensures
            final(output)@ == old(output)@ + render(instructions(groups@), caps@),
    {
        let mut text = String::new();
        assert(encode_utf8(text@) =~= Seq::<u8>::empty());
        Self::output(groups, caps, &mut text);
        assert(encode_utf8(text@) =~= render(instructions(groups@), caps@));
        output.extend_from_slice(text.as_str().as_bytes());
    }
}

} // verus!
