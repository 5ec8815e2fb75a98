//! The typed lexical units produced from one line of input.

use vstd::prelude::*;

verus! {

/// Mathematical model of a token: the same variants as [`Token`], with the
/// carried text as a sequence of characters.
pub enum TokenView {
    Command(Seq<char>),
    Argument(Seq<char>),
    StringLiteral(Seq<char>),
    Whitespace,
    Newline,
    Illegal(Seq<char>),
}

/// One classified lexical unit. Tokens own their text, so they outlive the
/// tokenizer that produced them.
///
/// - `Command`: the first unquoted word on the line; at most one per line.
/// - `Argument`: any later unquoted word.
/// - `StringLiteral`: the content between a matching pair of quotes, with
///   the quote characters stripped.
/// - `Whitespace`: one run of whitespace between units.
/// - `Newline`: end of the line; once reached, every further token is
///   `Newline` again.
/// - `Illegal`: a lexical error (an unclosed quote), carrying a message.
#[derive(Debug, PartialEq, Clone)]
pub enum Token {
    Command(String),
    Argument(String),
    StringLiteral(String),
    Whitespace,
    Newline,
    Illegal(String),
}

impl View for Token {
    type V = TokenView;

    open spec fn view(&self) -> TokenView {
        match self {
            Token::Command(w) => TokenView::Command(w@),
            Token::Argument(w) => TokenView::Argument(w@),
            Token::StringLiteral(w) => TokenView::StringLiteral(w@),
            Token::Whitespace => TokenView::Whitespace,
            Token::Newline => TokenView::Newline,
            Token::Illegal(m) => TokenView::Illegal(m@),
        }
    }
}

/// The views of a sequence of tokens.
pub open spec fn token_views(ts: Seq<Token>) -> Seq<TokenView> {
    ts.map_values(|t: Token| t@)
}

/// The message carried by the `Illegal` token for an unclosed quote `q`.
pub open spec fn unclosed_msg(q: char) -> Seq<char> {
    "Unclosed quote: "@.push(q)
}

} // verus!
