//! The options of a run: where the input comes from, where the output goes,
//! how the input is matched, and the switches of the pattern.

use crate::buffered_reader::{BufferedReader, ReaderView};
use crate::cap_groups::{instructions, CapGroup};
use crate::grammar::{compile, Instruction};
use crate::pattern::{
    escape, escaped, Captures, CapturesView, Matcher, MatcherView, PatternFlags,
};
use vstd::prelude::*;
use vstd::string::StringSliceAdditionalSpecFns;
use vstd::utf8::encode_utf8;

verus! {

/// The flag word of a run: an input mode, any number of switches, a matching
/// mode and an output mode.
pub const INITIAL_FLAG_MATCH: &'static str =
    r#"^(?P<LeadingHypen>-)?((?P<stdin>i)|(?P<file>f))((?P<LiteralMatch>F)|(?P<nice>n)|(?P<CaseInSensitive>S)|(?P<IgnoreWhiteSpace>x)|(?P<SwapGreedy>G)|(?P<DotMatchesNewLine>s)|(?P<Ascii>a))*((?P<Continuous>c)|(?P<LineByLine>l((?P<WindowsEoL>w)|(?P<MacEoL>m)|(?P<UnixEoL>u)|(?P<IBM>i)|(?P<QNX>q)|(?P<Acorn>a))?))?(?P<output>(?P<stdout>o)|(?P<stderr>e)|(?P<writeback>f)|(?P<redirect>r))?$"#;

/// The words that ask for the help text.
pub const HELP: &'static str = r#"^-?-[hH]([eE][lL][pP])?$"#;

/// The words that ask for the version.
pub const VERSION: &'static str = r#"^-?-[vV](ersion)?$"#;

/// What is wrong with the configuration of a run. It shows before anything is
/// read.
#[derive(Debug, Clone, PartialEq, Eq)]
pub enum ConfigurationError {
    /// The pattern does not compile; the text is the complaint of the pattern
    /// engine.
    InvalidPattern(String),
    /// The line delimiter is empty.
    EmptyDelimiter,
}

/// What is left to do once the arguments have been dealt with.
#[derive(PartialEq, Eq, Debug, Clone, Copy)]
pub enum WorkTodo {
    PrintHelp,
    PrintVersion,
    Nothing,
}

/// Where the input comes from.
#[derive(PartialEq, Eq, PartialOrd, Ord, Debug, Clone, Copy)]
pub enum Input {
    Stdin,
    File,
}

/// Where the output goes.
#[derive(PartialEq, Eq, PartialOrd, Ord, Debug, Clone, Copy)]
pub enum Output {
    Stdout,
    Stderr,
    SameFile,
    DifferentFile,
}

/// The line delimiters that line mode knows.
#[derive(PartialEq, Eq, PartialOrd, Ord, Debug, Clone, Copy)]
pub enum Eol {
    Windows,
    Mac,
    Unix,
    Ibm,
    Qnx,
    Acorn,
}

/// How the input is matched: as one text, or line by line.
#[derive(PartialEq, Eq, PartialOrd, Ord, Debug, Clone, Copy)]
pub enum Matching {
    Continuous,
    LineByLine(Eol),
}

/// An opened output, as far as the library needs to know it.
#[derive(PartialEq, Eq, Debug, Clone, Copy)]
pub enum Sink {
    Stdout,
    Stderr,
    /// A file: the index of its path among the file arguments.
    File(usize),
}

/// What is owed to a sink when the output is complete.
#[derive(PartialEq, Eq, Debug, Clone, Copy)]
pub struct Closing {
    /// A line feed is written behind the output.
    pub trailing_newline: bool,
    /// The data is synced to the device, beyond the flush.
    pub sync: bool,
}

/// The group called `label` took part in the match.
pub open spec fn took_part(cap: CapturesView, label: &str) -> bool {
    cap.named(label.spec_bytes()) is Some
}

/// Whether the group called `label` took part in the match.
fn group_matched(cap: &Captures<'_>, label: &str) -> (found: bool)
    ensures
        found == took_part(cap@, label),
{
    cap.name(label).is_some()
}

impl Input {
    /// The input mode that a match of the flag word asks for.
    pub open spec fn of(cap: CapturesView) -> Input {
        if took_part(cap, "stdin") {
            Input::Stdin
        } else {
            Input::File
        }
    }

    /// Whether the input is standard input.
    pub fn is_stdin(&self) -> (yes: bool)
        ensures
            yes == (*self == Input::Stdin),
    {
        match self {
            Input::Stdin => true,
            Input::File => false,
        }
    }

    /// The input mode that a match of the flag word asks for.
    pub fn new(cap: &Captures<'_>) -> (input: Self)
        ensures
            input == Input::of(cap@),
    {
        if group_matched(cap, "stdin") {
            Input::Stdin
        } else {
            Input::File
        }
    }
}

impl Sink {
    /// What is owed to the sink when the output is complete: standard output
    /// gets a line feed and a flush, standard error a flush, and a file is
    /// flushed and synced.
    pub fn closing(&self) -> (closing: Closing)
        ensures
            closing.trailing_newline == (*self == Sink::Stdout),
            closing.sync == (*self is File),
    {
        match self {
            Sink::Stdout => Closing { trailing_newline: true, sync: false },
            Sink::Stderr => Closing { trailing_newline: false, sync: false },
            Sink::File(_) => Closing { trailing_newline: false, sync: true },
        }
    }
}

impl Output {
    /// The output mode that a match of the flag word asks for.
    pub open spec fn of(cap: CapturesView) -> Output {
        if !took_part(cap, "output") {
            Output::Stdout
        } else if took_part(cap, "stdout") {
            Output::Stdout
        } else if took_part(cap, "stderr") {
            Output::Stderr
        } else if took_part(cap, "writeback") {
            Output::SameFile
        } else if took_part(cap, "redirect") {
            Output::DifferentFile
        } else {
            Output::Stdout
        }
    }

    /// The sink of this output mode. The file arguments hold the input file
    /// first, where the input is a file, and then the output file, where it is
    /// another one.
    pub open spec fn sink(self, input_is_stdin: bool) -> Sink {
        match self {
            Output::Stdout => Sink::Stdout,
            Output::Stderr => Sink::Stderr,
            Output::SameFile => Sink::File(0),
            Output::DifferentFile => if input_is_stdin {
                Sink::File(0)
            } else {
                Sink::File(1)
            },
        }
    }

    /// The output is the very file that the input is read from.
    pub open spec fn rewrites_input(self, input_is_stdin: bool) -> bool {
        self == Output::SameFile && !input_is_stdin
    }

    /// The sink that the whole output is written to once it is complete.
    pub fn open_output(&self, input_is_stdin: bool) -> (sink: Sink)
        ensures
            sink == self.sink(input_is_stdin),
    {
        match self {
            Output::Stdout => Sink::Stdout,
            Output::Stderr => Sink::Stderr,
            Output::SameFile => Sink::File(0),
            Output::DifferentFile => {
                if input_is_stdin {
                    Sink::File(0)
                } else {
                    Sink::File(1)
                }
            },
        }
    }

    /// The sink that output is streamed to while the input is read, or `None`
    /// where the output is the file that is being read: then the output has to
    /// be held back until the input has been read to its end.
    pub fn open_for_stream(&self, input_is_stdin: bool) -> (sink: Option<Sink>)
        ensures
            sink == if self.rewrites_input(input_is_stdin) {
                None
            } else {
                Some(self.sink(input_is_stdin))
            },
    {
        match self {
            Output::SameFile => {
                if input_is_stdin {
                    Some(Sink::File(0))
                } else {
                    None
                }
            },
            _ => Some(self.open_output(input_is_stdin)),
        }
    }

    /// The output mode that a match of the flag word asks for.
    pub fn new(cap: &Captures<'_>) -> (output: Self)
        ensures
            output == Output::of(cap@),
    {
        if !group_matched(cap, "output") {
            Output::Stdout
        } else if group_matched(cap, "stdout") {
            Output::Stdout
        } else if group_matched(cap, "stderr") {
            Output::Stderr
        } else if group_matched(cap, "writeback") {
            Output::SameFile
        } else if group_matched(cap, "redirect") {
            Output::DifferentFile
        } else {
            Output::Stdout
        }
    }
}

impl Eol {
    /// The bytes of the delimiter.
    pub open spec fn bytes(self) -> Seq<u8> {
        match self {
            Eol::Windows => seq![0x0Du8, 0x0Au8],
            Eol::Mac => seq![0x0Du8],
            Eol::Unix => seq![0x0Au8],
            Eol::Ibm => seq![0x15u8],
            Eol::Qnx => seq![0x1Eu8],
            Eol::Acorn => seq![0x0Au8, 0x0Du8],
        }
    }

    /// The delimiter that a match of the flag word asks for.
    pub open spec fn of(cap: CapturesView) -> Eol {
        if took_part(cap, "WindowsEoL") {
            Eol::Windows
        } else if took_part(cap, "MacEoL") {
            Eol::Mac
        } else if took_part(cap, "UnixEoL") {
            Eol::Unix
        } else if took_part(cap, "IBM") {
            Eol::Ibm
        } else if took_part(cap, "QNX") {
            Eol::Qnx
        } else if took_part(cap, "Acorn") {
            Eol::Acorn
        } else {
            Eol::Unix
        }
    }

    /// The bytes of the delimiter.
    pub fn get_eol_bytes(&self) -> (term: &'static [u8])
        ensures
            term@ == self.bytes(),
            term@.len() > 0,
    {
        let term: &'static [u8] = match self {
            Eol::Windows => &[0x0D, 0x0A],
            Eol::Mac => &[0x0D],
            Eol::Unix => &[0x0A],
            Eol::Ibm => &[0x15],
            Eol::Qnx => &[0x1E],
            Eol::Acorn => &[0x0A, 0x0D],
        };
        assert(term@ =~= self.bytes());
        term
    }

    /// The delimiter that a match of the flag word asks for.
    pub fn new(cap: &Captures<'_>) -> (eol: Self)
        ensures
            eol == Eol::of(cap@),
    {
        if group_matched(cap, "WindowsEoL") {
            Eol::Windows
        } else if group_matched(cap, "MacEoL") {
            Eol::Mac
        } else if group_matched(cap, "UnixEoL") {
            Eol::Unix
        } else if group_matched(cap, "IBM") {
            Eol::Ibm
        } else if group_matched(cap, "QNX") {
            Eol::Qnx
        } else if group_matched(cap, "Acorn") {
            Eol::Acorn
        } else {
            Eol::Unix
        }
    }
}

impl Matching {
    /// The matching mode that a match of the flag word asks for.
    pub open spec fn of(cap: CapturesView) -> Matching {
        if took_part(cap, "Continuous") {
            Matching::Continuous
        } else if took_part(cap, "LineByLine") {
            Matching::LineByLine(Eol::of(cap))
        } else {
            Matching::LineByLine(Eol::Unix)
        }
    }

    /// The line reader of line mode, with its delimiter; `None` in continuous
    /// mode, which reads the input as one text.
    pub fn build_input_stream(&self) -> (stream: Option<(BufferedReader, &'static [u8])>)
        ensures
            match *self {
                Matching::Continuous => stream is None,
                Matching::LineByLine(eol) => {
                    &&& stream matches Some((reader, term))
                    &&& term@ == eol.bytes()
                    &&& reader@.well_formed()
                    &&& reader@ == (ReaderView {
                        buffer: Seq::empty(),
                        queue: Seq::empty(),
                        eol: eol.bytes(),
                        end: false,
                        cursor: 0,
                    })
                },
            },
    {
        match self {
            Matching::Continuous => None,
            Matching::LineByLine(eol) => {
                let term = eol.get_eol_bytes();
                Some((BufferedReader::new(term), term))
            },
        }
    }

    /// Whether the pattern sees more than one line at a time.
    pub fn is_multi_line(&self) -> (yes: bool)
        ensures
            yes == (*self == Matching::Continuous),
    {
        match self {
            Matching::Continuous => true,
            Matching::LineByLine(_) => false,
        }
    }

    /// The matching mode that a match of the flag word asks for.
    pub fn new(cap: &Captures<'_>) -> (matching: Self)
        ensures
            matching == Matching::of(cap@),
    {
        if group_matched(cap, "Continuous") {
            Matching::Continuous
        } else if group_matched(cap, "LineByLine") {
            Matching::LineByLine(Eol::new(cap))
        } else {
            Matching::LineByLine(Eol::Unix)
        }
    }
}

/// The options of a run.
#[derive(PartialEq, Eq, PartialOrd, Ord, Debug, Clone)]
pub struct InitialFlagOptions {
    pub input: Input,
    pub output: Output,
    pub matching: Matching,
    pub literal_match: bool,
    pub nice: bool,
    pub case_in_sensitive: bool,
    pub ignore_whitespace: bool,
    pub swap_greedy: bool,
    pub dot_matches_newline: bool,
    pub ascii_only: bool,
}

impl InitialFlagOptions {
    /// The options that a match of the flag word asks for.
    pub open spec fn of(cap: CapturesView) -> InitialFlagOptions {
        InitialFlagOptions {
            input: Input::of(cap),
            output: Output::of(cap),
            matching: Matching::of(cap),
            literal_match: took_part(cap, "LiteralMatch"),
            nice: took_part(cap, "nice"),
            case_in_sensitive: took_part(cap, "CaseInSensitive"),
            ignore_whitespace: took_part(cap, "IgnoreWhiteSpace"),
            swap_greedy: took_part(cap, "SwapGreedy"),
            dot_matches_newline: took_part(cap, "DotMatchesNewLine"),
            ascii_only: took_part(cap, "Ascii"),
        }
    }

    /// The number of file arguments that the options ask for.
    pub open spec fn files_needed(self) -> int {
        match (self.input, self.output) {
            (Input::Stdin, Output::SameFile) => 1,
            (Input::Stdin, Output::DifferentFile) => 1,
            (Input::File, Output::DifferentFile) => 2,
            (Input::File, _) => 1,
            _ => 0,
        }
    }

    /// The pattern that is compiled for the pattern argument `arg`: the
    /// argument itself, or, for a literal match, the pattern that matches the
    /// argument as it stands.
    pub open spec fn pattern_for(self, arg: Seq<char>) -> Seq<char> {
        if self.literal_match {
            escaped(arg)
        } else {
            arg
        }
    }

    /// The switches that the pattern is compiled under. A literal match uses
    /// none of them. The dot matches a line feed only in continuous mode.
    pub open spec fn pattern_flags(self) -> PatternFlags {
        if self.literal_match {
            PatternFlags {
                case_insensitive: false,
                multi_line: false,
                dot_matches_new_line: false,
                swap_greed: false,
                ignore_whitespace: false,
                unicode: true,
            }
        } else {
            PatternFlags {
                case_insensitive: self.case_in_sensitive,
                multi_line: self.matching == Matching::Continuous,
                dot_matches_new_line: self.matching == Matching::Continuous
                    && self.dot_matches_newline,
                swap_greed: self.swap_greedy,
                ignore_whitespace: self.ignore_whitespace,
                unicode: !self.ascii_only,
            }
        }
    }

    /// The number of file arguments that the options ask for.
    pub fn additional_args_needed(&self) -> (count: usize)
        ensures
            count == self.files_needed(),
    {
        match (&self.input, &self.output) {
            (Input::Stdin, Output::SameFile) => 1,
            (Input::Stdin, Output::DifferentFile) => 1,
            (Input::File, Output::DifferentFile) => 2,
            (Input::File, _) => 1,
            _ => 0,
        }
    }

    /// Compiles the pattern argument under these options. Whether a pattern
    /// compiles is for the pattern engine to say; its complaint is the error.
    pub fn build_regex(&self, arg: &str) -> (built: Result<Matcher, ConfigurationError>)
        ensures
            match built {
                Ok(m) => m@ == (MatcherView {
                    pattern: self.pattern_for(arg@),
                    flags: self.pattern_flags(),
                }),
                Err(error) => error is InvalidPattern,
            },
    {
        let built = if self.literal_match {
            let pattern = escape(arg);
            Matcher::new(pattern.as_str(), PatternFlags::plain())
        } else {
            Matcher::new(
                arg,
                PatternFlags {
                    case_insensitive: self.case_in_sensitive,
                    multi_line: self.matching.is_multi_line(),
                    dot_matches_new_line: self.matching.is_multi_line()
                        && self.dot_matches_newline,
                    swap_greed: self.swap_greedy,
                    ignore_whitespace: self.ignore_whitespace,
                    unicode: !self.ascii_only,
                },
            )
        };
        match built {
            Ok(regex) => Ok(regex),
            Err(complaint) => Err(ConfigurationError::InvalidPattern(complaint)),
        }
    }

    /// The options that a match of the flag word asks for.
    pub fn new(cap: &Captures<'_>) -> (opts: Self)
        ensures
            opts == InitialFlagOptions::of(cap@),
    {
        Self {
            input: Input::new(cap),
            output: Output::new(cap),
            matching: Matching::new(cap),
            literal_match: group_matched(cap, "LiteralMatch"),
            nice: group_matched(cap, "nice"),
            case_in_sensitive: group_matched(cap, "CaseInSensitive"),
            ignore_whitespace: group_matched(cap, "IgnoreWhiteSpace"),
            swap_greedy: group_matched(cap, "SwapGreedy"),
            dot_matches_newline: group_matched(cap, "DotMatchesNewLine"),
            ascii_only: group_matched(cap, "Ascii"),
        }
    }

    /// The options of a run without any flag: from standard input to standard
    /// output, line by line.
    pub fn default() -> (opts: Self)
        ensures
            opts == (InitialFlagOptions {
                input: Input::Stdin,
                output: Output::Stdout,
                matching: Matching::LineByLine(Eol::Unix),
                literal_match: false,
                nice: false,
                case_in_sensitive: false,
                ignore_whitespace: false,
                swap_greedy: false,
                dot_matches_newline: false,
                ascii_only: false,
            }),
    {
        Self {
            input: Input::Stdin,
            output: Output::Stdout,
            matching: Matching::LineByLine(Eol::Unix),
            literal_match: false,
            nice: false,
            case_in_sensitive: false,
            ignore_whitespace: false,
            swap_greedy: false,
            dot_matches_newline: false,
            ascii_only: false,
        }
    }

    /// These options, with the input mode set as given.
    pub fn set_input(self, input: Input) -> (opts: Self)
        ensures
            opts == (InitialFlagOptions { input, ..self }),
    {
        let mut opts = self;
        opts.input = input;
        opts
    }

    /// These options, with the output mode set as given.
    pub fn set_output(self, output: Output) -> (opts: Self)
        ensures
            opts == (InitialFlagOptions { output, ..self }),
    {
        let mut opts = self;
        opts.output = output;
        opts
    }

    /// These options, with the matching mode set as given.
    pub fn set_matching(self, matching: Matching) -> (opts: Self)
        ensures
            opts == (InitialFlagOptions { matching, ..self }),
    {
        let mut opts = self;
        opts.matching = matching;
        opts
    }

    /// These options, with the literal match set as given.
    pub fn set_literal_match(self, literal_match: bool) -> (opts: Self)
        ensures
            opts == (InitialFlagOptions { literal_match, ..self }),
    {
        let mut opts = self;
        opts.literal_match = literal_match;
        opts
    }

    /// These options, with the nice mode set as given.
    pub fn set_nice(self, nice: bool) -> (opts: Self)
        ensures
            opts == (InitialFlagOptions { nice, ..self }),
    {
        let mut opts = self;
        opts.nice = nice;
        opts
    }

    /// These options, with the disregard of case set as given.
    pub fn set_case_in_sensitive(self, case_in_sensitive: bool) -> (opts: Self)
        ensures
            opts == (InitialFlagOptions { case_in_sensitive, ..self }),
    {
        let mut opts = self;
        opts.case_in_sensitive = case_in_sensitive;
        opts
    }

    /// These options, with the disregard of white space in the pattern set as given.
    pub fn set_ignore_whitespace(self, ignore_whitespace: bool) -> (opts: Self)
        ensures
            opts == (InitialFlagOptions { ignore_whitespace, ..self }),
    {
        let mut opts = self;
        opts.ignore_whitespace = ignore_whitespace;
        opts
    }

    /// These options, with the swap of greedy and lazy set as given.
    pub fn set_swap_greedy(self, swap_greedy: bool) -> (opts: Self)
        ensures
            opts == (InitialFlagOptions { swap_greedy, ..self }),
    {
        let mut opts = self;
        opts.swap_greedy = swap_greedy;
        opts
    }

    /// These options, with the dot that matches a line feed set as given.
    pub fn set_dot_matches_newline(self, dot_matches_newline: bool) -> (opts: Self)
        ensures
            opts == (InitialFlagOptions { dot_matches_newline, ..self }),
    {
        let mut opts = self;
        opts.dot_matches_newline = dot_matches_newline;
        opts
    }

    /// These options, with the restriction to ASCII set as given.
    pub fn set_ascii_only(self, ascii_only: bool) -> (opts: Self)
        ensures
            opts == (InitialFlagOptions { ascii_only, ..self }),
    {
        let mut opts = self;
        opts.ascii_only = ascii_only;
        opts
    }
}

/// Why the arguments of a run cannot be followed.
#[derive(Debug, Clone, PartialEq, Eq)]
pub enum ArgsError {
    /// There is no argument at all.
    NoArguments,
    /// The first argument is no flag word and asks for neither help nor version.
    NotUnderstood,
    /// The pattern is missing.
    MissingRegex,
    /// The pattern cannot be used.
    BadRegex(ConfigurationError),
    /// The format string is missing.
    MissingFormat,
    /// The one file that the options ask for is missing.
    MissingFile,
    /// Both files that the options ask for are missing.
    MissingFiles,
    /// Of the two files that the options ask for, the output file is missing.
    MissingOutputFile,
}

/// All that a run needs: its options, the compiled pattern and template, and
/// its file arguments.
pub struct Job<'a> {
    pub opts: InitialFlagOptions,
    pub regex: Matcher,
    pub caps: Vec<CapGroup<'a>>,
    pub files: Vec<String>,
}

/// What the arguments ask for.
pub enum Request<'a> {
    PrintHelp,
    PrintVersion,
    Run(Job<'a>),
}

/// A grammar of words: a pattern, compiled as it stands.
pub open spec fn grammar(pattern: &str) -> MatcherView {
    MatcherView {
        pattern: pattern@,
        flags: PatternFlags {
            case_insensitive: false,
            multi_line: false,
            dot_matches_new_line: false,
            swap_greed: false,
            ignore_whitespace: false,
            unicode: true,
        },
    }
}

/// The options that a word asks for, where it is a flag word.
pub open spec fn flags_of(word: Seq<char>) -> Option<InitialFlagOptions> {
    match grammar(INITIAL_FLAG_MATCH).first_captures(word) {
        Some(found) => Some(InitialFlagOptions::of(found)),
        None => None,
    }
}

/// The template that the format argument stands for: compiled, or, for a
/// literal match, the argument as it stands.
pub open spec fn template_for(opts: InitialFlagOptions, format: Seq<char>) -> Seq<Instruction> {
    if opts.literal_match {
        seq![Instruction::CopyFromInput(encode_utf8(format))]
    } else {
        compile(encode_utf8(format))
    }
}

/// The grammars of the first argument, compiled: the words that ask for help,
/// the words that ask for the version, and the flag words.
pub struct FlagWords {
    help: Matcher,
    version: Matcher,
    flags: Matcher,
}

/// The grammars of the first argument, in specifications: what each of them
/// was compiled from.
pub struct FlagWordsView {
    pub help: MatcherView,
    pub version: MatcherView,
    pub flags: MatcherView,
}

impl View for FlagWords {
    type V = FlagWordsView;

    closed spec fn view(&self) -> FlagWordsView {
        FlagWordsView { help: self.help@, version: self.version@, flags: self.flags@ }
    }
}

impl FlagWords {
    /// The grammars as they are compiled: each from its pattern, as it stands.
    pub open spec fn grammars() -> FlagWordsView {
        FlagWordsView {
            help: grammar(HELP),
            version: grammar(VERSION),
            flags: grammar(INITIAL_FLAG_MATCH),
        }
    }

    /// Each grammar was compiled from its pattern, as it stands.
    #[verifier::type_invariant]
    spec fn compiled_from_the_grammars(&self) -> bool {
        self@ == FlagWords::grammars()
    }

    /// Compiles the grammars: the words that ask for help, the words that ask
    /// for the version and the flag words, each from its pattern, as it
    /// stands. Whether they compile is for the pattern engine to say; the
    /// error is its complaint about the first that does not.
    pub fn new() -> (compiled: Result<FlagWords, String>)
        ensures
            compiled matches Ok(words) ==> words@ == FlagWords::grammars(),
    {
        let help = match Matcher::new(HELP, PatternFlags::plain()) {
            Ok(help) => help,
            Err(complaint) => {
                return Err(complaint);
            },
        };
        let version = match Matcher::new(VERSION, PatternFlags::plain()) {
            Ok(version) => version,
            Err(complaint) => {
                return Err(complaint);
            },
        };
        match Matcher::new(INITIAL_FLAG_MATCH, PatternFlags::plain()) {
            Ok(flags) => Ok(FlagWords { help, version, flags }),
            Err(complaint) => Err(complaint),
        }
    }

    /// Whether a word asks for help.
    pub fn is_help(&self, word: &str) -> (yes: bool)
        ensures
            yes == grammar(HELP).is_match(word@),
    {
        proof {
            use_type_invariant(self);
        }
        self.help.is_match(word)
    }

    /// Whether a word asks for the version.
    pub fn is_version(&self, word: &str) -> (yes: bool)
        ensures
            yes == grammar(VERSION).is_match(word@),
    {
        proof {
            use_type_invariant(self);
        }
        self.version.is_match(word)
    }

    /// Reads a flag word: the options that it asks for, or `None` where the
    /// word is no flag word.
    pub fn read_flags(&self, word: &str) -> (opts: Option<InitialFlagOptions>)
        ensures
            opts == flags_of(word@),
    {
        proof {
            use_type_invariant(self);
        }
        match self.flags.captures(word) {
            Some(found) => Some(InitialFlagOptions::new(&found)),
            None => None,
        }
    }
}

/// The file arguments of a run: as many of the arguments from the fifth on as
/// the options ask for.
fn file_arguments(opts: &InitialFlagOptions, args: &[String]) -> (files: Result<
    Vec<String>,
    ArgsError,
>)
    requires
        args@.len() >= 4,
    ensures
        match files {
            Ok(files) => args@.len() >= 4 + opts.files_needed() && files@ == args@.subrange(
                4,
                4 + opts.files_needed(),
            ),
            Err(ArgsError::MissingFile) => opts.files_needed() == 1 && args@.len() == 4,
            Err(ArgsError::MissingFiles) => opts.files_needed() == 2 && args@.len() == 4,
            Err(ArgsError::MissingOutputFile) => opts.files_needed() == 2 && args@.len() == 5,
            Err(_) => false,
        },
{
    let needed: usize = opts.additional_args_needed();
    let mut files: Vec<String> = Vec::new();
    if needed == 0 {
        assert(files@ =~= args@.subrange(4, 4));
        return Ok(files);
    }
    if args.len() < 5 {
        if needed == 1 {
            return Err(ArgsError::MissingFile);
        }
        return Err(ArgsError::MissingFiles);
    }
    files.push(args[4].clone());
    if needed == 1 {
        assert(files@ =~= args@.subrange(4, 5));
        return Ok(files);
    }
    if args.len() < 6 {
        return Err(ArgsError::MissingOutputFile);
    }
    files.push(args[5].clone());
    assert(files@ =~= args@.subrange(4, 6));
    Ok(files)
}

/// Reads the arguments of a run, the name of the program first: a word that
/// asks for help or for the version, or a flag word, a pattern, a format string
/// and the files that the flag word asks for.
pub fn from_args<'a>(words: &FlagWords, args: &'a [String]) -> (request: Result<
    Request<'a>,
    ArgsError,
>)
    ensures
        match request {
            Ok(Request::PrintHelp) => args@.len() >= 2 && grammar(HELP).is_match(args@[1]@),
            Ok(Request::PrintVersion) => args@.len() >= 2 && !grammar(HELP).is_match(args@[1]@)
                && grammar(VERSION).is_match(args@[1]@),
            Ok(Request::Run(job)) => {
                &&& args@.len() >= 4 + job.opts.files_needed()
                &&& !grammar(HELP).is_match(args@[1]@)
                &&& !grammar(VERSION).is_match(args@[1]@)
                &&& flags_of(args@[1]@) == Some(job.opts)
                &&& job.regex@ == (MatcherView {
                    pattern: job.opts.pattern_for(args@[2]@),
                    flags: job.opts.pattern_flags(),
                })
                &&& instructions(job.caps@) == template_for(job.opts, args@[3]@)
                &&& job.files@ == args@.subrange(4, 4 + job.opts.files_needed())
            },
            Err(ArgsError::NoArguments) => args@.len() <= 1,
            Err(ArgsError::NotUnderstood) => args@.len() >= 2 && !grammar(HELP).is_match(
                args@[1]@,
            ) && !grammar(VERSION).is_match(args@[1]@) && flags_of(args@[1]@) is None,
            Err(ArgsError::MissingRegex) => args@.len() == 2 && flags_of(args@[1]@) is Some,
            Err(ArgsError::BadRegex(error)) => args@.len() >= 3 && flags_of(args@[1]@) is Some
                && error is InvalidPattern,
            Err(ArgsError::MissingFormat) => args@.len() == 3 && flags_of(args@[1]@) is Some,
            Err(ArgsError::MissingFile) => args@.len() == 4 && flags_of(args@[1]@) is Some
                && flags_of(args@[1]@).unwrap().files_needed() == 1,
            Err(ArgsError::MissingFiles) => args@.len() == 4 && flags_of(args@[1]@) is Some
                && flags_of(args@[1]@).unwrap().files_needed() == 2,
            Err(ArgsError::MissingOutputFile) => args@.len() == 5 && flags_of(args@[1]@) is Some
                && flags_of(args@[1]@).unwrap().files_needed() == 2,
        },
        args@.len() <= 1 ==> request matches Err(ArgsError::NoArguments),
        args@.len() >= 2 && grammar(HELP).is_match(args@[1]@) ==> request matches Ok(
            Request::PrintHelp,
        ),
        args@.len() == 2 ==> !(request matches Ok(Request::Run(_))),
{
    if args.len() <= 1 {
        return Err(ArgsError::NoArguments);
    }
    let word = args[1].as_str();
    if words.is_help(word) {
        return Ok(Request::PrintHelp);
    }
    if words.is_version(word) {
        return Ok(Request::PrintVersion);
    }
    let opts = match words.read_flags(word) {
        Some(opts) => opts,
        None => {
            return Err(ArgsError::NotUnderstood);
        },
    };
    if args.len() < 3 {
        return Err(ArgsError::MissingRegex);
    }
    let regex = match opts.build_regex(args[2].as_str()) {
        Ok(regex) => regex,
        Err(error) => {
            return Err(ArgsError::BadRegex(error));
        },
    };
    if args.len() < 4 {
        return Err(ArgsError::MissingFormat);
    }
    let format = args[3].as_str();
    let caps = if opts.literal_match {
        let mut caps: Vec<CapGroup<'a>> = Vec::new();
        caps.push(CapGroup::CopyFromInput(format));
        assert(instructions(caps@) =~= template_for(opts, format@));
        caps
    } else {
        CapGroup::build_groups(format)
    };
    match file_arguments(&opts, args) {
        Ok(files) => Ok(Request::Run(Job { opts, regex, caps, files })),
        Err(missing) => Err(missing),
    }
}

} // verus!
