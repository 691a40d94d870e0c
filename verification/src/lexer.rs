//! Command-line arguments, split into options and values by `lexopt`.

use vstd::prelude::*;

use crate::text::opt_text;

verus! {

/// `lexopt::Parser`, the argument splitter. Opaque: see [`lexer_state`].
#[verifier::external_type_specification]
#[verifier::external_body]
pub struct ExParser(lexopt::Parser);

/// One argument as `lexopt` hands it out.
#[derive(Debug)]
pub enum Argument {
    /// A short option such as `-k`.
    Short(char),
    /// A long option such as `--key`, without its dashes.
    Long(String),
    /// A free-standing argument.
    Value(String),
}

/// What an [`Argument`] says.
pub enum Token {
    Short(char),
    Long(Seq<char>),
    Value(Seq<char>),
}

impl View for Argument {
    type V = Token;

    open spec fn view(&self) -> Token {
        match *self {
            Argument::Short(c) => Token::Short(c),
            Argument::Long(s) => Token::Long(s@),
            Argument::Value(s) => Token::Value(s@),
        }
    }
}

/// What is wrong with the shape of the arguments.
#[derive(Debug)]
#[allow(inconsistent_fields)]
pub enum LexError {
    /// An option that takes a value came last, without one.
    MissingValue { option: Option<String> },
    /// An option that takes no value was given one.
    UnexpectedValue { option: String, value: String },
    /// Any other complaint. Text arguments never cause one.
    Other { message: String },
}

/// What a [`LexError`] says.
#[allow(inconsistent_fields)]
pub enum LexFault {
    MissingValue { option: Option<Seq<char>> },
    UnexpectedValue { option: Seq<char>, value: Seq<char> },
    Other { message: Seq<char> },
}

impl View for LexError {
    type V = LexFault;

    open spec fn view(&self) -> LexFault {
        match *self {
            LexError::MissingValue { option } => LexFault::MissingValue {
                option: opt_text(option),
            },
            LexError::UnexpectedValue { option, value } => LexFault::UnexpectedValue {
                option: option@,
                value: value@,
            },
            LexError::Other { message } => LexFault::Other { message: message@ },
        }
    }
}

/// Where the splitter stands within an argument.
pub enum LexMode {
    /// Between two arguments.
    Idle,
    /// After `--option` of `--option=value`: the value.
    Pending(Seq<char>),
    /// Within `-abc`: the characters after the last option handed out.
    Cluster(Seq<char>),
    /// After `--`: only values follow.
    Finished,
}

/// What the splitter holds.
pub struct LexState {
    /// The arguments not yet looked at.
    pub rest: Seq<Seq<char>>,
    pub mode: LexMode,
    /// The last option handed out, with its dashes.
    pub last: Option<Seq<char>>,
}

/// What a `lexopt::Parser` holds, if its arguments are all Unicode text and it
/// reads `-o=value` as giving `-o` a value (as a new parser does).
pub uninterp spec fn lexer_state(p: lexopt::Parser) -> Option<LexState>;

/// The characters of each argument.
pub open spec fn texts(args: Seq<String>) -> Seq<Seq<char>> {
    args.map_values(|s: String| s@)
}

/// The state before the first argument.
pub open spec fn lex_start(args: Seq<Seq<char>>) -> LexState {
    LexState { rest: args, mode: LexMode::Idle, last: None }
}

/// `--` and more.
pub open spec fn is_long(arg: Seq<char>) -> bool {
    arg.len() > 2 && arg[0] == '-' && arg[1] == '-'
}

/// `-` and more, but not `--`.
pub open spec fn is_cluster(arg: Seq<char>) -> bool {
    arg.len() > 1 && arg[0] == '-' && arg[1] != '-'
}

/// The next argument, taken as a value whatever it looks like.
pub open spec fn lex_plain(s: LexState) -> (Option<Token>, LexState) {
    if s.rest.len() == 0 {
        (None, s)
    } else {
        (Some(Token::Value(s.rest[0])), LexState { rest: s.rest.drop_first(), ..s })
    }
}

/// The next argument, looked at from its start.
pub open spec fn lex_fresh(s: LexState) -> (Option<Token>, LexState) {
    if s.rest.len() == 0 {
        (None, LexState { mode: LexMode::Idle, ..s })
    } else {
        let arg = s.rest[0];
        let rest = s.rest.drop_first();
        if arg == seq!['-', '-'] {
            lex_plain(LexState { rest, mode: LexMode::Finished, ..s })
        } else if is_long(arg) {
            match arg.index_of_first('=') {
                Some(i) => (
                    Some(Token::Long(arg.subrange(2, i))),
                    LexState {
                        rest,
                        mode: LexMode::Pending(arg.skip(i + 1)),
                        last: Some(arg.take(i)),
                    },
                ),
                None => (
                    Some(Token::Long(arg.skip(2))),
                    LexState { rest, mode: LexMode::Idle, last: Some(arg) },
                ),
            }
        } else if is_cluster(arg) {
            (
                Some(Token::Short(arg[1])),
                LexState {
                    rest,
                    mode: LexMode::Cluster(arg.skip(2)),
                    last: Some(seq!['-', arg[1]]),
                },
            )
        } else {
            (Some(Token::Value(arg)), LexState { rest, mode: LexMode::Idle, ..s })
        }
    }
}

/// What comes next (nothing, at the end), and the state after it.
pub open spec fn lex_next(s: LexState) -> (Result<Option<Token>, LexFault>, LexState) {
    match s.mode {
        LexMode::Idle => (Ok(lex_fresh(s).0), lex_fresh(s).1),
        LexMode::Finished => (Ok(lex_plain(s).0), lex_plain(s).1),
        LexMode::Pending(v) => (
            Err(LexFault::UnexpectedValue { option: s.last->0, value: v }),
            LexState { mode: LexMode::Idle, ..s },
        ),
        LexMode::Cluster(c) => if c.len() == 0 {
            (Ok(lex_fresh(s).0), lex_fresh(s).1)
        } else if c[0] == '=' {
            (
                Err(LexFault::UnexpectedValue { option: s.last->0, value: c.skip(1) }),
                LexState { mode: LexMode::Idle, ..s },
            )
        } else {
            (
                Ok(Some(Token::Short(c[0]))),
                LexState {
                    mode: LexMode::Cluster(c.skip(1)),
                    last: Some(seq!['-', c[0]]),
                    ..s
                },
            )
        },
    }
}

/// The value of the option just handed out, and the state after it.
pub open spec fn lex_value(s: LexState) -> (Result<Seq<char>, LexFault>, LexState) {
    match s.mode {
        LexMode::Pending(v) => (Ok(v), LexState { mode: LexMode::Idle, ..s }),
        LexMode::Cluster(c) if c.len() > 0 => (
            Ok(if c[0] == '=' { c.skip(1) } else { c }),
            LexState { mode: LexMode::Idle, ..s },
        ),
        _ => {
            let mode = if s.mode is Finished { LexMode::Finished } else { LexMode::Idle };
            if s.rest.len() > 0 {
                (Ok(s.rest[0]), LexState { rest: s.rest.drop_first(), mode, ..s })
            } else {
                (Err(LexFault::MissingValue { option: s.last }), LexState { mode, ..s })
            }
        },
    }
}

/// What the next argument is, or what is wrong with it.
pub open spec fn next_view(r: Result<Option<Argument>, LexError>) -> Result<
    Option<Token>,
    LexFault,
> {
    match r {
        Ok(Some(a)) => Ok(Some(a@)),
        Ok(None) => Ok(None),
        Err(e) => Err(e@),
    }
}

/// What the value of an option is, or what is wrong with it.
pub open spec fn value_view(r: Result<String, LexError>) -> Result<Seq<char>, LexFault> {
    match r {
        Ok(s) => Ok(s@),
        Err(e) => Err(e@),
    }
}

/// `lexopt::Parser::from_args`: a parser that stands before the first of the
/// arguments.
#[verifier::external_body]
pub(crate) fn new_parser(args: Vec<String>) -> (p: lexopt::Parser)
    ensures
        lexer_state(p) == Some(lex_start(texts(args@))),
{
    lexopt::Parser::from_args(args)
}

/// `lexopt::Parser::next`: the next option or value. Says, for each shape of the
/// next argument, what comes out of it and what is left for later.
#[verifier::external_body]
pub(crate) fn next_argument(p: &mut lexopt::Parser) -> (r: Result<Option<Argument>, LexError>)
    requires
        lexer_state(*old(p)) is Some,
    ensures
        next_view(r) == lex_next(lexer_state(*old(p))->0).0,
        lexer_state(*final(p)) == Some(lex_next(lexer_state(*old(p))->0).1),
{
    match p.next() {
        Ok(None) => Ok(None),
        Ok(Some(lexopt::Arg::Short(c))) => Ok(Some(Argument::Short(c))),
        Ok(Some(lexopt::Arg::Long(s))) => Ok(Some(Argument::Long(s.to_string()))),
        Ok(Some(lexopt::Arg::Value(v))) => Ok(Some(Argument::Value(v.to_string_lossy().into()))),
        Err(lexopt::Error::UnexpectedValue { option, value }) => {
            Err(LexError::UnexpectedValue { option, value: value.to_string_lossy().into() })
        },
        Err(e) => Err(LexError::Other { message: e.to_string() }),
    }
}

/// `lexopt::Parser::value`: the value of the option that came last. Takes what
/// is left of the argument that held the option, else the whole next argument.
#[verifier::external_body]
pub(crate) fn option_value(p: &mut lexopt::Parser) -> (r: Result<String, LexError>)
    requires
        lexer_state(*old(p)) is Some,
    ensures
        value_view(r) == lex_value(lexer_state(*old(p))->0).0,
        lexer_state(*final(p)) == Some(lex_value(lexer_state(*old(p))->0).1),
{
    match p.value() {
        Ok(v) => Ok(v.to_string_lossy().into()),
        Err(lexopt::Error::MissingValue { option }) => Err(LexError::MissingValue { option }),
        Err(e) => Err(LexError::Other { message: e.to_string() }),
    }
}

} // verus!
