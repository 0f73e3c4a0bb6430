//! Run configuration: the byte-at-a-time flag parser, the flags record, and
//! the classifier that decides whether a query is safely treatable as a
//! literal string instead of a regular expression.

use vstd::prelude::*;

use crate::matcher::MatchOn;

verus! {

/// State of the flag parser.
#[derive(Clone, Copy, PartialEq, Eq, Structural, Debug)]
pub enum ConfigState {
    /// Inside a `-xyz` flag group.
    Flag,
    /// A lone `--` was seen: flag parsing is over.
    End,
    /// An unknown flag or malformed match-cap value was seen.
    Invalid,
    /// `-m` was seen and a `=` or space must follow.
    WantsMax,
    /// Reading the digits of the match cap; the payload records whether at
    /// least one digit has been read.
    Max(bool),
    /// Between arguments or before the first flag group.
    Space,
    /// `-h` was seen: the caller should print usage help and stop.
    Help,
}

/// The boolean switches of a run.
#[derive(Clone, Copy, PartialEq, Eq, Structural, Debug)]
pub struct Flags {
    pub case_insensitive: bool,
    pub show_lines: bool,
    pub invert: bool,
    pub string_search: bool,
    pub color: bool,
    pub no_unicode: bool,
    pub quiet: bool,
    pub multiple_files: bool,
    pub list: bool,
}

/// All switches off.
pub open spec fn flags_default() -> Flags {
    Flags {
        case_insensitive: false,
        show_lines: false,
        invert: false,
        string_search: false,
        color: false,
        no_unicode: false,
        quiet: false,
        multiple_files: false,
        list: false,
    }
}

impl Default for Flags {
    fn default() -> (r: Self)
        ensures
            r == flags_default(),
    {
        Flags {
            case_insensitive: false,
            show_lines: false,
            invert: false,
            string_search: false,
            color: false,
            no_unicode: false,
            quiet: false,
            multiple_files: false,
            list: false,
        }
    }
}

/// Byte-at-a-time parser for the flag arguments of a run.
#[derive(Clone, Copy, PartialEq, Eq, Structural, Debug)]
pub struct ConfigParser {
    pub state: ConfigState,
    pub flags: Flags,
    pub max: u32,
    pub match_on: MatchOn,
}

/// The parser before any input.
pub open spec fn initial_parser() -> ConfigParser {
    ConfigParser {
        state: ConfigState::Space,
        flags: flags_default(),
        max: 0,
        match_on: MatchOn::Anywhere,
    }
}

/// One step of the parser inside a flag group.
pub open spec fn parser_step_flag(p: ConfigParser, byte: u8) -> ConfigParser {
    if byte == 45 {  // '-'
        ConfigParser { state: ConfigState::End, ..p }
    } else if byte == 105 {  // 'i'
        ConfigParser { flags: Flags { case_insensitive: true, ..p.flags }, ..p }
    } else if byte == 110 {  // 'n'
        ConfigParser { flags: Flags { show_lines: true, ..p.flags }, ..p }
    } else if byte == 118 {  // 'v'
        ConfigParser { flags: Flags { invert: true, ..p.flags }, ..p }
    } else if byte == 70 {  // 'F'
        ConfigParser { flags: Flags { string_search: true, ..p.flags }, ..p }
    } else if byte == 99 {  // 'c'
        ConfigParser { flags: Flags { color: true, ..p.flags }, ..p }
    } else if byte == 85 {  // 'U'
        ConfigParser { flags: Flags { no_unicode: true, ..p.flags }, ..p }
    } else if byte == 113 {  // 'q'
        ConfigParser { flags: Flags { quiet: true, ..p.flags }, ..p }
    } else if byte == 108 {  // 'l'
        ConfigParser { flags: Flags { list: true, ..p.flags }, ..p }
    } else if byte == 119 {  // 'w'
        ConfigParser { match_on: MatchOn::Word, ..p }
    } else if byte == 120 {  // 'x'
        ConfigParser { match_on: MatchOn::Line, ..p }
    } else if byte == 109 {  // 'm'
        ConfigParser { state: ConfigState::WantsMax, ..p }
    } else if byte == 104 {  // 'h'
        ConfigParser { state: ConfigState::Help, ..p }
    } else if byte == 32 {  // ' '
        ConfigParser { state: ConfigState::Space, ..p }
    } else {
        ConfigParser { state: ConfigState::Invalid, ..p }
    }
}

/// One step of the parser while reading match-cap digits. A digit that would
/// overflow the cap makes the value malformed.
pub open spec fn parser_step_max(p: ConfigParser, found: bool, byte: u8) -> ConfigParser {
    if 48 <= byte && byte <= 57 {
        let d = (byte - 48) as u32;
        if p.max <= (u32::MAX - d) / 10 {
            ConfigParser { state: ConfigState::Max(true), max: (p.max * 10 + d) as u32, ..p }
        } else {
            ConfigParser { state: ConfigState::Invalid, ..p }
        }
    } else if byte == 32 {
        if found {
            ConfigParser { state: ConfigState::Space, ..p }
        } else {
            p
        }
    } else {
        ConfigParser { state: ConfigState::Invalid, ..p }
    }
}

/// The parser's transition function on one input byte.
pub open spec fn parser_step(p: ConfigParser, byte: u8) -> ConfigParser {
    match p.state {
        ConfigState::End => p,
        ConfigState::Invalid => p,
        ConfigState::Help => p,
        ConfigState::Flag => parser_step_flag(p, byte),
        ConfigState::WantsMax => if byte == 61 || byte == 32 {  // '=' or ' '
            ConfigParser { state: ConfigState::Max(false), max: 0, ..p }
        } else {
            ConfigParser { state: ConfigState::Invalid, ..p }
        },
        ConfigState::Max(found) => parser_step_max(p, found, byte),
        ConfigState::Space => if byte == 45 {  // '-'
            ConfigParser { state: ConfigState::Flag, ..p }
        } else if byte == 32 {  // ' '
            p
        } else {
            ConfigParser { state: ConfigState::End, ..p }
        },
    }
}

/// The parser state and outcome after feeding a whole argument: the scan
/// stops as soon as the `End` state is reached (the argument is no flag
/// group), and otherwise finishes with a closing space.
pub open spec fn run_model(p: ConfigParser, tape: Seq<u8>) -> (ConfigParser, bool)
    decreases tape.len(),
{
    if tape.len() == 0 {
        (parser_step(p, 32), true)
    } else {
        let p1 = parser_step(p, tape[0]);
        if p1.state is End {
            (p1, false)
        } else {
            run_model(p1, tape.drop_first())
        }
    }
}

impl ConfigParser {
    pub fn new() -> (r: Self)
        ensures
            r == initial_parser(),
    {
        Self {
            state: ConfigState::Space,
            flags: Flags::default(),
            max: 0,
            match_on: MatchOn::Anywhere,
        }
    }

    /// Feed one byte to the parser.
    #[verifier::rlimit(50)]
    pub fn tick(&mut self, byte: u8)
        ensures
            *final(self) == parser_step(*old(self), byte),
    {
        match self.state {
            ConfigState::End => (),
            ConfigState::Invalid => (),
            ConfigState::Help => (),
            ConfigState::Flag => {
                if byte == 45 {
                    self.state = ConfigState::End;
                } else if byte == 105 {
                    self.flags.case_insensitive = true;
                } else if byte == 110 {
                    self.flags.show_lines = true;
                } else if byte == 118 {
                    self.flags.invert = true;
                } else if byte == 70 {
                    self.flags.string_search = true;
                } else if byte == 99 {
                    self.flags.color = true;
                } else if byte == 85 {
                    self.flags.no_unicode = true;
                } else if byte == 113 {
                    self.flags.quiet = true;
                } else if byte == 108 {
                    self.flags.list = true;
                } else if byte == 119 {
                    self.match_on = MatchOn::Word;
                } else if byte == 120 {
                    self.match_on = MatchOn::Line;
                } else if byte == 109 {
                    self.state = ConfigState::WantsMax;
                } else if byte == 104 {
                    self.state = ConfigState::Help;
                } else if byte == 32 {
                    self.state = ConfigState::Space;
                } else {
                    self.state = ConfigState::Invalid;
                }
            },
            ConfigState::WantsMax => {
                if byte == 61 || byte == 32 {
                    self.state = ConfigState::Max(false);
                    self.max = 0;
                } else {
                    self.state = ConfigState::Invalid;
                }
            },
            ConfigState::Max(found) => {
                if 48 <= byte && byte <= 57 {
                    let d = (byte - 48) as u32;
                    if self.max <= (u32::MAX - d) / 10 {
                        self.state = ConfigState::Max(true);
                        self.max = self.max * 10 + d;
                    } else {
                        self.state = ConfigState::Invalid;
                    }
                } else if byte == 32 {
                    if found {
                        self.state = ConfigState::Space;
                    }
                } else {
                    self.state = ConfigState::Invalid;
                }
            },
            ConfigState::Space => {
                if byte == 45 {
                    self.state = ConfigState::Flag;
                } else if byte == 32 {
                } else {
                    self.state = ConfigState::End;
                }
            },
        }
    }

    /// Feed a whole argument to the parser. Returns `false` when the
    /// argument turned out not to be a flag group (the `End` state was
    /// reached), `true` when the whole argument was consumed as flags.
    pub fn run(&mut self, tape: &[u8]) -> (r: bool)
        ensures
            *final(self) == run_model(*old(self), tape@).0,
            r == run_model(*old(self), tape@).1,
    {
        let mut k: usize = 0;
        proof {
            assert(tape@.skip(0) =~= tape@);
        }
        while k < tape.len()
            invariant
                k <= tape@.len(),
                run_model(*old(self), tape@) == run_model(*self, tape@.skip(k as int)),
            decreases tape@.len() - k,
        {
            let ghost pre = *self;
            self.tick(tape[k]);
            proof {
                assert(tape@.skip(k as int).drop_first() =~= tape@.skip(k as int + 1));
            }
            if matches!(self.state, ConfigState::End) {
                return false;
            }
            k = k + 1;
        }
        self.tick(32);
        true
    }
}

/// The run configuration assembled from the command line: the query, the
/// byte paths of the files to scan, the match cap, the switches and the
/// literal match mode.
pub struct Config {
    pub query: String,
    pub filenames: Vec<Vec<u8>>,
    pub max: u32,
    pub flags: Flags,
    pub match_on: MatchOn,
}

/// A byte a query may contain and still be treated as plain text: ASCII
/// alphanumeric, space, or one of `; : ~ ! @ # % & - _ = ' " , < > /`.
pub open spec fn plain_byte(b: u8) -> bool {
    ||| 48 <= b && b <= 57
    ||| 65 <= b && b <= 90
    ||| 97 <= b && b <= 122
    ||| b == 32
    ||| b == 59  // ;
    ||| b == 58  // :
    ||| b == 126  // ~
    ||| b == 33  // !
    ||| b == 64  // @
    ||| b == 35  // #
    ||| b == 37  // %
    ||| b == 38  // &
    ||| b == 45  // -
    ||| b == 95  // _
    ||| b == 61  // =
    ||| b == 39  // '
    ||| b == 34  // "
    ||| b == 44  // ,
    ||| b == 60  // <
    ||| b == 62  // >
    ||| b == 47  // /
}

fn is_plain_byte(b: u8) -> (r: bool)
    ensures
        r == plain_byte(b),
{
    (48 <= b && b <= 57) || (65 <= b && b <= 90) || (97 <= b && b <= 122) || b == 32 || b == 59
        || b == 58 || b == 126 || b == 33 || b == 64 || b == 35 || b == 37 || b == 38 || b == 45
        || b == 95 || b == 61 || b == 39 || b == 34 || b == 44 || b == 60 || b == 62 || b == 47
}

/// True exactly when no byte of the query falls outside the safe
/// printable/alphanumeric set: such a query contains no regular-expression
/// metacharacter, so literal search and regex search agree on it.
pub fn classify_plain_text(query: &[u8]) -> (r: bool)
    ensures
        r == forall|i: int| 0 <= i < query@.len() ==> plain_byte(query@[i]),
{
    let mut i: usize = 0;
    while i < query.len()
        invariant
            i <= query@.len(),
            forall|j: int| 0 <= j < i ==> plain_byte(query@[j]),
        decreases query@.len() - i,
    {
        if !is_plain_byte(query[i]) {
            return false;
        }
        i = i + 1;
    }
    true
}

/// Automatic strategy selection: when the caller did not force literal
/// search and the query is plain text, literal search is chosen, because it
/// is cheaper and semantically identical for such queries.
pub fn auto_select(flags: Flags, query: &[u8]) -> (r: Flags)
    ensures
        r == (Flags {
            string_search: flags.string_search || (forall|i: int|
                0 <= i < query@.len() ==> plain_byte(query@[i])),
            ..flags
        }),
{
    let mut r = flags;
    if !r.string_search && classify_plain_text(query) {
        r.string_search = true;
    }
    r
}

} // verus!
