//! The pure decision half of the read-tokenize-classify-execute loop.
//!
//! One line of input is tokenized, the tokens are partitioned into the
//! command name, the argument list and the lexical-error messages, and the
//! command name is classified against the fixed builtin set. The result is
//! an [`Action`] for the surrounding terminal loop to perform; everything
//! that touches the terminal, the environment or the process table stays
//! with that loop.

use vstd::prelude::*;
use vstd::string::StringExecFns;

use crate::lexer::{line_tokens, tokenize_line};
use crate::token::{Token, TokenView, token_views};

verus! {

/// The views of a sequence of owned strings.
pub open spec fn string_views(ws: Seq<String>) -> Seq<Seq<char>> {
    ws.map_values(|w: String| w@)
}

/// The view of an optional owned string.
pub open spec fn opt_string_view(w: Option<String>) -> Option<Seq<char>> {
    match w {
        Some(h) => Some(h@),
        None => None,
    }
}

/// The text of the last `Command` token, if any. A well-formed line carries
/// at most one; if several occur, the last one wins, as repeated
/// classification would leave it.
pub open spec fn spec_cmd(ts: Seq<TokenView>) -> Option<Seq<char>>
    decreases ts.len(),
{
    if ts.len() == 0 {
        None
    } else {
        match ts.last() {
            TokenView::Command(w) => Some(w),
            _ => spec_cmd(ts.drop_last()),
        }
    }
}

/// What one token contributes to the argument list: the text of an
/// `Argument` or `StringLiteral`, nothing otherwise.
pub open spec fn arg_of(t: TokenView) -> Seq<Seq<char>> {
    match t {
        TokenView::Argument(w) => seq![w],
        TokenView::StringLiteral(w) => seq![w],
        _ => seq![],
    }
}

/// The argument texts of the line, in order.
pub open spec fn spec_args(ts: Seq<TokenView>) -> Seq<Seq<char>>
    decreases ts.len(),
{
    if ts.len() == 0 {
        seq![]
    } else {
        spec_args(ts.drop_last()) + arg_of(ts.last())
    }
}

/// What one token contributes to the error report: the message of an
/// `Illegal` token, nothing otherwise.
pub open spec fn err_of(t: TokenView) -> Seq<Seq<char>> {
    match t {
        TokenView::Illegal(m) => seq![m],
        _ => seq![],
    }
}

/// The lexical-error messages of the line, in order.
pub open spec fn spec_errors(ts: Seq<TokenView>) -> Seq<Seq<char>>
    decreases ts.len(),
{
    if ts.len() == 0 {
        seq![]
    } else {
        spec_errors(ts.drop_last()) + err_of(ts.last())
    }
}

/// A tokenized line, partitioned: the command name and, in left-to-right
/// order, the argument strings.
#[derive(Debug, PartialEq, Clone)]
pub struct ParsedLine {
    pub command: String,
    pub args: Vec<String>,
}

/// Partitions the tokens of one line: the `Command` token names the
/// command, every `Argument` and `StringLiteral` joins the argument list in
/// order, `Illegal` messages are collected for reporting, and `Whitespace`
/// and `Newline` are dropped. Returns no parsed line when the tokens carry
/// no command.
pub fn parse_tokens(tokens: &Vec<Token>) -> (r: (Option<ParsedLine>, Vec<String>))
    ensures
        ({
            let ts = token_views(tokens@);
            &&& match r.0 {
                Some(p) => spec_cmd(ts) == Some(p.command@) && string_views(p.args@) == spec_args(
                    ts,
                ),
                None => spec_cmd(ts) is None,
            }
            &&& string_views(r.1@) == spec_errors(ts)
        }),
{
    let mut command: Option<String> = None;
    let mut args: Vec<String> = Vec::new();
    let mut errors: Vec<String> = Vec::new();
    let mut i: usize = 0;
    while i < tokens.len()
        invariant
            i <= tokens.len(),
            match command {
                Some(c) => spec_cmd(token_views(tokens@.take(i as int))) == Some(c@),
                None => spec_cmd(token_views(tokens@.take(i as int))) is None,
            },
            string_views(args@) == spec_args(token_views(tokens@.take(i as int))),
            string_views(errors@) == spec_errors(token_views(tokens@.take(i as int))),
        decreases tokens.len() - i,
    {
        proof {
            assert(token_views(tokens@.take(i + 1 as int)).drop_last() =~= token_views(
                tokens@.take(i as int),
            ));
            assert(token_views(tokens@.take(i + 1 as int)).last() == tokens@[i as int]@);
        }
        match &tokens[i] {
            Token::Command(w) => {
                command = Some(w.clone());
            },
            Token::Argument(w) => {
                args.push(w.clone());
                proof {
                    assert(string_views(args@) =~= spec_args(
                        token_views(tokens@.take(i + 1 as int)),
                    ));
                }
            },
            Token::StringLiteral(w) => {
                args.push(w.clone());
                proof {
                    assert(string_views(args@) =~= spec_args(
                        token_views(tokens@.take(i + 1 as int)),
                    ));
                }
            },
            Token::Illegal(m) => {
                errors.push(m.clone());
                proof {
                    assert(string_views(errors@) =~= spec_errors(
                        token_views(tokens@.take(i + 1 as int)),
                    ));
                }
            },
            Token::Whitespace => {},
            Token::Newline => {},
        }
        proof {
            assert(string_views(args@) =~= spec_args(token_views(tokens@.take(i + 1 as int))));
            assert(string_views(errors@) =~= spec_errors(token_views(tokens@.take(i + 1 as int))));
        }
        i += 1;
    }
    proof {
        assert(tokens@.take(tokens@.len() as int) =~= tokens@);
    }
    match command {
        Some(c) => (Some(ParsedLine { command: c, args }), errors),
        None => (None, errors),
    }
}

/// Mathematical model of an action, with every string as a sequence of
/// characters.
pub enum ActionView {
    Proceed,
    Exit,
    ChangeDir(Seq<char>),
    ClearScreen,
    RunProgram(Seq<char>, Seq<Seq<char>>),
}

/// What one line asks the surrounding loop to do.
///
/// - `Proceed`: nothing — the line carried no command.
/// - `Exit`: print the termination message and leave the loop.
/// - `ChangeDir`: change the working directory to the carried target.
/// - `ClearScreen`: emit the terminal-clear sequence.
/// - `RunProgram`: spawn the carried program with the carried arguments
///   and wait for it.
#[derive(Debug, PartialEq, Clone)]
pub enum Action {
    Proceed,
    Exit,
    ChangeDir(String),
    ClearScreen,
    RunProgram(String, Vec<String>),
}

impl View for Action {
    type V = ActionView;

    open spec fn view(&self) -> ActionView {
        match self {
            Action::Proceed => ActionView::Proceed,
            Action::Exit => ActionView::Exit,
            Action::ChangeDir(d) => ActionView::ChangeDir(d@),
            Action::ClearScreen => ActionView::ClearScreen,
            Action::RunProgram(c, a) => ActionView::RunProgram(c@, string_views(a@)),
        }
    }
}

/// The directory that `cd` moves to: the first argument if one is given,
/// else the home directory if one is known, else the root.
pub open spec fn spec_cd_target(args: Seq<Seq<char>>, home: Option<Seq<char>>) -> Seq<char> {
    if args.len() > 0 {
        args[0]
    } else {
        match home {
            Some(h) => h,
            None => "/"@,
        }
    }
}

/// The action that a line with command `cmd` and arguments `args` asks
/// for, against the fixed builtin set: `exit` terminates, `cd` changes
/// directory, `clear` and `cls` clear the screen, and anything else names
/// an external program. Trailing arguments to `exit`, `clear` and `cls`
/// are accepted and ignored.
pub open spec fn spec_action(
    cmd: Option<Seq<char>>,
    args: Seq<Seq<char>>,
    home: Option<Seq<char>>,
) -> ActionView {
    match cmd {
        None => ActionView::Proceed,
        Some(c) => if c == "exit"@ {
            ActionView::Exit
        } else if c == "cd"@ {
            ActionView::ChangeDir(spec_cd_target(args, home))
        } else if c == "clear"@ || c == "cls"@ {
            ActionView::ClearScreen
        } else {
            ActionView::RunProgram(c, args)
        },
    }
}

/// Whether the string equals the literal, character for character.
fn str_eq(a: &String, b: &str) -> (r: bool)
    ensures
        r == (a@ == b@),
{
    let bs = String::from_str(b);
    *a == bs
}

/// The directory that `cd` moves to, as [`spec_cd_target`] says.
pub fn cd_target(args: &Vec<String>, home: Option<String>) -> (r: String)
    ensures
        r@ == spec_cd_target(string_views(args@), opt_string_view(home)),
{
    if args.len() > 0 {
        args[0].clone()
    } else {
        match home {
            Some(h) => h,
            None => String::from_str("/"),
        }
    }
}

/// Classifies a parsed line against the builtin set, as [`spec_action`]
/// says. `home` is the home directory, if the environment knows one; it is
/// consulted only by a `cd` without arguments.
pub fn classify(p: ParsedLine, home: Option<String>) -> (r: Action)
    ensures
        r@ == spec_action(Some(p.command@), string_views(p.args@), opt_string_view(home)),
{
    if str_eq(&p.command, "exit") {
        Action::Exit
    } else if str_eq(&p.command, "cd") {
        Action::ChangeDir(cd_target(&p.args, home))
    } else if str_eq(&p.command, "clear") || str_eq(&p.command, "cls") {
        Action::ClearScreen
    } else {
        Action::RunProgram(p.command, p.args)
    }
}

/// The whole decision for one raw input line: tokenize it, partition the
/// tokens, classify the command. Returns the action to perform and the
/// lexical-error messages to report, in order of occurrence.
pub fn dispatch_line(line: &str, home: Option<String>) -> (r: (Action, Vec<String>))
    ensures
        ({
            let ts = line_tokens(line@);
            &&& r.0@ == spec_action(spec_cmd(ts), spec_args(ts), opt_string_view(home))
            &&& string_views(r.1@) == spec_errors(ts)
        }),
{
    let tokens = tokenize_line(line);
    let (parsed, errors) = parse_tokens(&tokens);
    match parsed {
        Some(p) => (classify(p, home), errors),
        None => (Action::Proceed, errors),
    }
}

/// The escape sequence that clears the terminal: erase the screen and the
/// scrollback, then move the cursor home.
pub fn clear_sequence() -> (r: String)
    ensures
        r@ == "\u{1b}[2J\u{1b}[3J\u{1b}[H"@,
{
    String::from_str("\u{1b}[2J\u{1b}[3J\u{1b}[H")
}

} // verus!
