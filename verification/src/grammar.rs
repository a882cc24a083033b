//! The template mini-language, as a grammar over the bytes of a format string.
//!
//! A format string is read in two passes. The first finds the group references
//! (`%1`, `%<12>`, `%<name>`, and their escaped forms behind `%%`); the second
//! reads the text between them for character escapes (`\t`, `\u{2764}`, ...).
//! Every byte that the grammar looks for is ASCII, so a reference or an escape
//! always starts and ends where a character starts.

use vstd::prelude::*;
use vstd::utf8::is_scalar;

verus! {

/// `%`, which starts a group token.
pub const PERCENT: u8 = 0x25;

/// `<`, which opens a name or a number of several digits.
pub const LESS_THAN: u8 = 0x3C;

/// `>`, which closes a name or a number of several digits.
pub const GREATER_THAN: u8 = 0x3E;

/// `\`, which starts a character escape.
pub const BACKSLASH: u8 = 0x5C;

/// `{`, which opens the number of a Unicode escape.
pub const OPEN_BRACE: u8 = 0x7B;

/// `}`, which closes the number of a Unicode escape.
pub const CLOSE_BRACE: u8 = 0x7D;

/// `0`, the first of the decimal digits.
pub const DIGIT_ZERO: u8 = 0x30;

/// `t`, the escape of the tab.
pub const LETTER_T: u8 = 0x74;

/// `n`, the escape of the line feed.
pub const LETTER_N: u8 = 0x6E;

/// `r`, the escape of the carriage return.
pub const LETTER_R: u8 = 0x72;

/// `v`, the escape of the vertical tab.
pub const LETTER_V: u8 = 0x76;

/// `u`, which starts a Unicode escape.
pub const LETTER_U: u8 = 0x75;

/// `x`, which starts a Unicode escape.
pub const LETTER_X: u8 = 0x78;

/// `U`, which starts a Unicode escape.
pub const CAPITAL_U: u8 = 0x55;

/// One step of a compiled template, over bytes.
pub enum Instruction {
    /// The text of a numbered group, written as `%<N>` with two digits or more.
    MultiDigit(usize),
    /// The text of a numbered group, written as `%N` with one digit.
    SingleDigit(usize),
    /// The text of a named group.
    Labelled(Seq<u8>),
    /// A reference that was escaped with `%%`: its text, from the second `%` on.
    Escape(Seq<u8>),
    /// Text of the format string, copied as it stands.
    CopyFromInput(Seq<u8>),
    /// One character, written as an escape.
    SingleChar(char),
}

/// The classes of bytes that the grammar reads runs of.
#[derive(Clone, Copy, PartialEq, Eq, Debug)]
pub enum ByteClass {
    Digit,
    Lowercase,
    Alphanumeric,
    Hex,
}

/// A decimal digit, `0` to `9`.
pub open spec fn is_digit(b: u8) -> bool {
    DIGIT_ZERO <= b <= 0x39
}

/// A lowercase letter, `a` to `z`.
pub open spec fn is_lowercase(b: u8) -> bool {
    0x61 <= b <= 0x7A
}

/// An uppercase letter, `A` to `Z`.
pub open spec fn is_uppercase(b: u8) -> bool {
    0x41 <= b <= 0x5A
}

/// A hexadecimal digit, in either case.
pub open spec fn is_hex(b: u8) -> bool {
    is_digit(b) || 0x61 <= b <= 0x66 || 0x41 <= b <= 0x46
}

/// The byte is of the class.
pub open spec fn in_class(class: ByteClass, b: u8) -> bool {
    match class {
        ByteClass::Digit => is_digit(b),
        ByteClass::Lowercase => is_lowercase(b),
        ByteClass::Alphanumeric => is_digit(b) || is_lowercase(b) || is_uppercase(b),
        ByteClass::Hex => is_hex(b),
    }
}

/// The end of the longest run of bytes of a class that starts at `from`.
pub open spec fn run_end(t: Seq<u8>, from: int, class: ByteClass) -> int
    decreases t.len() - from,
{
    if 0 <= from < t.len() && in_class(class, t[from]) {
        run_end(t, from + 1, class)
    } else {
        from
    }
}

/// The number that a run of decimal digits writes.
pub open spec fn decimal_value(digits: Seq<u8>) -> nat
    decreases digits.len(),
{
    if digits.len() == 0 {
        0
    } else {
        decimal_value(digits.drop_last()) * 10 + (digits.last() - DIGIT_ZERO) as nat
    }
}

/// The number that one hexadecimal digit writes.
pub open spec fn hex_digit_value(b: u8) -> nat {
    if is_digit(b) {
        (b - DIGIT_ZERO) as nat
    } else if 0x61 <= b <= 0x66 {
        (b - 0x61 + 10) as nat
    } else {
        (b - 0x41 + 10) as nat
    }
}

/// The number that a run of hexadecimal digits writes.
pub open spec fn hex_value(digits: Seq<u8>) -> nat
    decreases digits.len(),
{
    if digits.len() == 0 {
        0
    } else {
        hex_value(digits.drop_last()) * 16 + hex_digit_value(digits.last())
    }
}

/// A group number as the template keeps it. A number beyond `usize` names no
/// group of any match; it is kept as `usize::MAX`, which names none either.
pub open spec fn group_number(value: nat) -> usize {
    if value <= usize::MAX {
        value as usize
    } else {
        usize::MAX
    }
}

/// The character with the given number, where the number is a Unicode scalar.
pub open spec fn scalar_char(value: nat) -> Option<char> {
    if value <= u32::MAX && is_scalar(value as u32) {
        Some((value as u32) as char)
    } else {
        None
    }
}

/// The group reference that starts at `q`, behind the `%`: the instruction it
/// stands for and the offset where it ends.
pub open spec fn reference_at(t: Seq<u8>, q: int) -> Option<(Instruction, int)> {
    if q < 0 || q >= t.len() {
        None
    } else if is_digit(t[q]) {
        Some((Instruction::SingleDigit((t[q] - DIGIT_ZERO) as usize), q + 1))
    } else if t[q] == LESS_THAN && q + 1 < t.len() && is_lowercase(t[q + 1]) {
        let end = run_end(t, q + 1, ByteClass::Alphanumeric);
        if end - (q + 1) >= 2 && end < t.len() && t[end] == GREATER_THAN {
            Some((Instruction::Labelled(t.subrange(q + 1, end)), end + 1))
        } else {
            None
        }
    } else if t[q] == LESS_THAN && q + 1 < t.len() && is_digit(t[q + 1]) {
        let end = run_end(t, q + 1, ByteClass::Digit);
        if end - (q + 1) >= 2 && end < t.len() && t[end] == GREATER_THAN {
            Some(
                (
                    Instruction::MultiDigit(group_number(decimal_value(t.subrange(q + 1, end)))),
                    end + 1,
                ),
            )
        } else {
            None
        }
    } else {
        None
    }
}

/// The group token that starts at `p`: a `%`, or `%%` for an escaped token, and
/// a reference behind it.
pub open spec fn group_token_at(t: Seq<u8>, p: int) -> Option<(Instruction, int)> {
    if p < 0 || p >= t.len() || t[p] != PERCENT {
        None
    } else if p + 1 < t.len() && t[p + 1] == PERCENT {
        match reference_at(t, p + 2) {
            Some((_, end)) => Some((Instruction::Escape(t.subrange(p + 1, end)), end)),
            None => None,
        }
    } else {
        reference_at(t, p + 1)
    }
}

/// The leftmost group token at or after `from`: where it starts, what it stands
/// for, and where it ends.
pub open spec fn next_group_token(t: Seq<u8>, from: int) -> Option<(int, Instruction, int)>
    decreases t.len() - from,
{
    if from < 0 || from >= t.len() {
        None
    } else {
        match group_token_at(t, from) {
            Some((instruction, end)) => Some((from, instruction, end)),
            None => next_group_token(t, from + 1),
        }
    }
}

/// The character escape that starts at `p`: the character it writes, if its
/// number is a Unicode scalar, and the offset where it ends.
pub open spec fn special_at(t: Seq<u8>, p: int) -> Option<(Option<char>, int)> {
    if p < 0 || p + 1 >= t.len() || t[p] != BACKSLASH {
        None
    } else if t[p + 1] == LETTER_T {
        Some((Some('\t'), p + 2))
    } else if t[p + 1] == LETTER_N {
        Some((Some('\n'), p + 2))
    } else if t[p + 1] == LETTER_R {
        Some((Some('\r'), p + 2))
    } else if t[p + 1] == LETTER_V {
        Some((Some('\u{0B}'), p + 2))
    } else if t[p + 1] == BACKSLASH {
        Some((Some('\\'), p + 2))
    } else if (t[p + 1] == LETTER_U || t[p + 1] == LETTER_X || t[p + 1] == CAPITAL_U) && p + 2
        < t.len() && t[p + 2] == OPEN_BRACE {
        let end = run_end(t, p + 3, ByteClass::Hex);
        if 1 <= end - (p + 3) <= 8 && end < t.len() && t[end] == CLOSE_BRACE {
            Some((scalar_char(hex_value(t.subrange(p + 3, end))), end + 1))
        } else {
            None
        }
    } else {
        None
    }
}

/// The leftmost character escape at or after `from`.
pub open spec fn next_special(t: Seq<u8>, from: int) -> Option<(int, Option<char>, int)>
    decreases t.len() - from,
{
    if from < 0 || from >= t.len() {
        None
    } else {
        match special_at(t, from) {
            Some((c, end)) => Some((from, c, end)),
            None => next_special(t, from + 1),
        }
    }
}

/// The text from `from` up to `to` as an instruction, where there is any.
pub open spec fn copied(t: Seq<u8>, from: int, to: int) -> Seq<Instruction> {
    if from < to {
        seq![Instruction::CopyFromInput(t.subrange(from, to))]
    } else {
        Seq::empty()
    }
}

/// What an escape contributes: its character, or nothing where its number is no
/// Unicode scalar.
pub open spec fn written(c: Option<char>) -> Seq<Instruction> {
    match c {
        Some(c) => seq![Instruction::SingleChar(c)],
        None => Seq::empty(),
    }
}

/// The second pass: the instructions of a stretch of text without group tokens,
/// from offset `from` on.
pub open spec fn literal_instructions(t: Seq<u8>, from: int) -> Seq<Instruction>
    decreases t.len() - from,
{
    if from < 0 || from >= t.len() {
        Seq::empty()
    } else {
        proof {
            lemma_next_special(t, from);
        }
        match next_special(t, from) {
            Some((p, c, end)) => copied(t, from, p) + written(c) + literal_instructions(t, end),
            None => copied(t, from, t.len() as int),
        }
    }
}

/// The first pass: the instructions of a format string from offset `from` on.
pub open spec fn compile_from(t: Seq<u8>, from: int) -> Seq<Instruction>
    decreases t.len() - from,
{
    if from < 0 || from > t.len() {
        Seq::empty()
    } else {
        proof {
            lemma_next_group_token(t, from);
        }
        match next_group_token(t, from) {
            Some((p, instruction, end)) => literal_instructions(t.subrange(from, p), 0)
                + seq![instruction] + compile_from(t, end),
            None => literal_instructions(t.subrange(from, t.len() as int), 0),
        }
    }
}

/// The instructions that a format string compiles to.
pub open spec fn compile(t: Seq<u8>) -> Seq<Instruction> {
    compile_from(t, 0)
}

/// A run ends at or after its start, within the text, on a byte that is not of
/// the class; all bytes of the run are.
pub proof fn lemma_run_end(t: Seq<u8>, from: int, class: ByteClass)
    requires
        0 <= from <= t.len(),
    ensures
        from <= run_end(t, from, class) <= t.len(),
        forall|i: int| from <= i < run_end(t, from, class) ==> in_class(class, #[trigger] t[i]),
        run_end(t, from, class) < t.len() ==> !in_class(class, t[run_end(t, from, class)]),
    decreases t.len() - from,
{
    if from < t.len() && in_class(class, t[from]) {
        lemma_run_end(t, from + 1, class);
    }
}

/// A reference lies within the text and ends behind an ASCII byte.
pub proof fn lemma_reference_at(t: Seq<u8>, q: int)
    ensures
        reference_at(t, q) matches Some((_, end)) ==> 0 <= q < end <= t.len() && t[end - 1] < 0x80,
{
    if 0 <= q < t.len() {
        lemma_run_end(t, q + 1, ByteClass::Alphanumeric);
        lemma_run_end(t, q + 1, ByteClass::Digit);
    }
}

/// A group token starts on a `%`, lies within the text and ends behind an ASCII
/// byte.
pub proof fn lemma_group_token_at(t: Seq<u8>, p: int)
    ensures
        group_token_at(t, p) matches Some((_, end)) ==> 0 <= p < end <= t.len() && t[p] == PERCENT
            && t[end - 1] < 0x80,
{
    lemma_reference_at(t, p + 1);
    lemma_reference_at(t, p + 2);
}

/// The leftmost group token is a group token, and there is none before it.
pub proof fn lemma_next_group_token(t: Seq<u8>, from: int)
    requires
        0 <= from,
    ensures
        match next_group_token(t, from) {
            Some((p, instruction, end)) => {
                &&& from <= p < end <= t.len()
                &&& group_token_at(t, p) == Some((instruction, end))
                &&& forall|i: int| from <= i < p ==> group_token_at(t, i) is None
            },
            None => forall|i: int| from <= i ==> group_token_at(t, i) is None,
        },
    decreases t.len() - from,
{
    if from < t.len() {
        lemma_group_token_at(t, from);
        if group_token_at(t, from) is None {
            lemma_next_group_token(t, from + 1);
        }
    }
}

/// A character escape starts on a backslash, lies within the text and ends
/// behind an ASCII byte.
pub proof fn lemma_special_at(t: Seq<u8>, p: int)
    ensures
        special_at(t, p) matches Some((_, end)) ==> 0 <= p && p + 2 <= end <= t.len() && t[p]
            == BACKSLASH && t[end - 1] < 0x80,
{
    if 0 <= p && p + 3 <= t.len() {
        lemma_run_end(t, p + 3, ByteClass::Hex);
    }
}

/// The leftmost character escape is a character escape, and there is none
/// before it.
pub proof fn lemma_next_special(t: Seq<u8>, from: int)
    requires
        0 <= from,
    ensures
        match next_special(t, from) {
            Some((p, c, end)) => {
                &&& from <= p < end <= t.len()
                &&& special_at(t, p) == Some((c, end))
                &&& forall|i: int| from <= i < p ==> special_at(t, i) is None
            },
            None => forall|i: int| from <= i ==> special_at(t, i) is None,
        },
    decreases t.len() - from,
{
    if from < t.len() {
        lemma_special_at(t, from);
        if special_at(t, from) is None {
            lemma_next_special(t, from + 1);
        }
    }
}

/// Whether a byte is of a class.
pub(crate) fn byte_in_class(class: ByteClass, b: u8) -> (yes: bool)
    ensures
        yes == in_class(class, b),
{
    let digit = DIGIT_ZERO <= b && b <= 0x39;
    let lowercase = 0x61 <= b && b <= 0x7A;
    let uppercase = 0x41 <= b && b <= 0x5A;
    match class {
        ByteClass::Digit => digit,
        ByteClass::Lowercase => lowercase,
        ByteClass::Alphanumeric => digit || lowercase || uppercase,
        ByteClass::Hex => digit || (0x61 <= b && b <= 0x66) || (0x41 <= b && b <= 0x46),
    }
}

/// The end of the longest run of bytes of a class that starts at `from`.
pub(crate) fn scan_run(t: &[u8], from: usize, class: ByteClass) -> (end: usize)
    requires
        from <= t@.len(),
    ensures
        end == run_end(t@, from as int, class),
        from <= end <= t@.len(),
{
    let total: usize = t.len();
    let mut at: usize = from;
    while at < total
        invariant
            total == t@.len(),
            from <= at <= total,
            run_end(t@, from as int, class) == run_end(t@, at as int, class),
        decreases total - at,
    {
        if !byte_in_class(class, t[at]) {
            return at;
        }
        at += 1;
    }
    at
}

/// The group number that the decimal digits from `from` up to `to` write.
pub(crate) fn parse_decimal(t: &[u8], from: usize, to: usize) -> (number: usize)
    requires
        from <= to <= t@.len(),
        forall|i: int| from <= i < to ==> is_digit(#[trigger] t@[i]),
    ensures
        number == group_number(decimal_value(t@.subrange(from as int, to as int))),
{
    let mut number: usize = 0;
    let mut at: usize = from;
    assert(decimal_value(t@.subrange(from as int, from as int)) == 0);
    while at < to
        invariant
            from <= at <= to <= t@.len(),
            forall|i: int| from <= i < to ==> is_digit(#[trigger] t@[i]),
            number == group_number(decimal_value(t@.subrange(from as int, at as int))),
        decreases to - at,
    {
        let digit: usize = (t[at] - DIGIT_ZERO) as usize;
        proof {
            let longer = t@.subrange(from as int, at + 1);
            assert(longer.drop_last() =~= t@.subrange(from as int, at as int));
            assert(longer.last() == t@[at as int]);
        }
        number = match number.checked_mul(10) {
            Some(tens) => match tens.checked_add(digit) {
                Some(sum) => sum,
                None => usize::MAX,
            },
            None => usize::MAX,
        };
        at += 1;
    }
    number
}

/// The largest number that `count` hexadecimal digits can write, and one more.
pub open spec fn hex_limit(count: int) -> int {
    if count <= 0 {
        1
    } else if count == 1 {
        0x10
    } else if count == 2 {
        0x100
    } else if count == 3 {
        0x1000
    } else if count == 4 {
        0x1_0000
    } else if count == 5 {
        0x10_0000
    } else if count == 6 {
        0x100_0000
    } else if count == 7 {
        0x1000_0000
    } else {
        0x1_0000_0000
    }
}

/// The number that one hexadecimal digit writes.
pub(crate) fn hex_digit(b: u8) -> (value: u64)
    requires
        is_hex(b),
    ensures
        value == hex_digit_value(b),
        value < 16,
{
    if DIGIT_ZERO <= b && b <= 0x39 {
        (b - DIGIT_ZERO) as u64
    } else if 0x61 <= b && b <= 0x66 {
        (b - 0x61 + 10) as u64
    } else {
        (b - 0x41 + 10) as u64
    }
}

/// The number that the hexadecimal digits from `from` up to `to` write.
pub(crate) fn parse_hex(t: &[u8], from: usize, to: usize) -> (number: u32)
    requires
        from <= to <= t@.len(),
        to - from <= 8,
        forall|i: int| from <= i < to ==> is_hex(#[trigger] t@[i]),
    ensures
        number == hex_value(t@.subrange(from as int, to as int)),
{
    let mut number: u64 = 0;
    let mut at: usize = from;
    assert(hex_value(t@.subrange(from as int, from as int)) == 0);
    while at < to
        invariant
            from <= at <= to <= t@.len(),
            to - from <= 8,
            forall|i: int| from <= i < to ==> is_hex(#[trigger] t@[i]),
            number == hex_value(t@.subrange(from as int, at as int)),
            number < hex_limit(at - from),
        decreases to - at,
    {
        let digit: u64 = hex_digit(t[at]);
        proof {
            let longer = t@.subrange(from as int, at + 1);
            assert(longer.drop_last() =~= t@.subrange(from as int, at as int));
            assert(longer.last() == t@[at as int]);
        }
        number = number * 16 + digit;
        at += 1;
    }
    number as u32
}

/// `char::from_u32`: the character with the given number, where the number is a
/// Unicode scalar, and nothing where it is not.
#[verifier::external_body]
pub(crate) fn char_from_u32(value: u32) -> (c: Option<char>)
    ensures
        c == scalar_char(value as nat),
{
    char::from_u32(value)
}

/// Reads the character escape that starts at `at`, if there is one: the decoded
/// character, or nothing where the escape names no Unicode scalar, and the
/// offset where the escape ends.
pub fn read_special(t: &[u8], at: usize) -> (found: Option<(Option<char>, usize)>)
    ensures
        match found {
            Some((c, end)) => special_at(t@, at as int) == Some((c, end as int)),
            None => special_at(t@, at as int) is None,
        },
{
    let total: usize = t.len();
    if at >= total || total - at < 2 || t[at] != BACKSLASH {
        return None;
    }
    let kind: u8 = t[at + 1];
    if kind == LETTER_T {
        Some((Some('\t'), at + 2))
    } else if kind == LETTER_N {
        Some((Some('\n'), at + 2))
    } else if kind == LETTER_R {
        Some((Some('\r'), at + 2))
    } else if kind == LETTER_V {
        Some((Some('\u{0B}'), at + 2))
    } else if kind == BACKSLASH {
        Some((Some('\\'), at + 2))
    } else if (kind == LETTER_U || kind == LETTER_X || kind == CAPITAL_U) && total - at > 2
        && t[at + 2] == OPEN_BRACE {
        let end: usize = scan_run(t, at + 3, ByteClass::Hex);
        proof {
            lemma_run_end(t@, at + 3, ByteClass::Hex);
        }
        if 1 <= end - (at + 3) && end - (at + 3) <= 8 && end < total && t[end] == CLOSE_BRACE {
            let value: u32 = parse_hex(t, at + 3, end);
            Some((char_from_u32(value), end + 1))
        } else {
            None
        }
    } else {
        None
    }
}

/// Finds the leftmost character escape at or after `from`: where it starts, the
/// character it writes, and where it ends.
pub fn find_special(t: &[u8], from: usize) -> (found: Option<(usize, Option<char>, usize)>)
    ensures
        match found {
            Some((p, c, end)) => next_special(t@, from as int) == Some((p as int, c, end as int)),
            None => next_special(t@, from as int) is None,
        },
{
    let total: usize = t.len();
    let mut at: usize = from;
    while at < total
        invariant
            total == t@.len(),
            from <= at,
            next_special(t@, from as int) == next_special(t@, at as int),
        decreases total - at,
    {
        match read_special(t, at) {
            Some((c, end)) => {
                return Some((at, c, end));
            },
            None => {},
        }
        at += 1;
    }
    None
}

} // verus!
