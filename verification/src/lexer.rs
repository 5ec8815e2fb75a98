//! A single-pass tokenizer for one line of shell input.
//!
//! The line is processed character by character. A run of whitespace is one
//! `Whitespace` token; a `"` or `'` opens a literal that runs verbatim to
//! the next occurrence of the same quote character; any other character
//! starts a word, ended by whitespace or a quote. The first word of the
//! line is the `Command`, every later word an `Argument`. Past the end of
//! the input, `next_token` keeps returning `Newline`.

use vstd::prelude::*;
use vstd::string::StrSliceExecFns;
use vstd::string::StringExecFns;

use crate::token::{Token, TokenView, token_views, unclosed_msg};

verus! {

/// Whether the character code is one of the Unicode white-space characters.
pub open spec fn is_wspace_code(u: u32) -> bool {
    ||| u == 0x20
    ||| u == 0x09
    ||| u == 0x0a
    ||| u == 0x0b
    ||| u == 0x0c
    ||| u == 0x0d
    ||| u == 0x85
    ||| u == 0xa0
    ||| u == 0x1680
    ||| (0x2000 <= u && u <= 0x200a)
    ||| u == 0x2028
    ||| u == 0x2029
    ||| u == 0x202f
    ||| u == 0x205f
    ||| u == 0x3000
}

/// Whether `c` is a white-space character.
pub open spec fn is_wspace(c: char) -> bool {
    is_wspace_code(c as u32)
}

/// Whether `c` is one of the two quote characters.
pub open spec fn is_quote(c: char) -> bool {
    c == '"' || c == '\''
}

/// Whether `c` ends an in-progress unquoted word.
pub open spec fn is_boundary(c: char) -> bool {
    is_wspace(c) || is_quote(c)
}

/// Executable white-space test, equal to [`is_wspace`].
pub fn is_space_char(c: char) -> (r: bool)
    ensures
        r == is_wspace(c),
{
    let u = c as u32;
    u == 0x20 || u == 0x09 || u == 0x0a || u == 0x0b || u == 0x0c || u == 0x0d || u == 0x85
        || u == 0xa0 || u == 0x1680 || (0x2000 <= u && u <= 0x200a) || u == 0x2028 || u == 0x2029
        || u == 0x202f || u == 0x205f || u == 0x3000
}

/// The first position at or after `i` that is past the whitespace run
/// starting at `i`.
pub open spec fn skip_ws(s: Seq<char>, i: nat) -> nat
    decreases s.len() - i
        when i <= s.len()
{
    if i < s.len() && is_wspace(s[i as int]) {
        skip_ws(s, i + 1)
    } else {
        i
    }
}

/// The position of the first occurrence of `q` at or after `i`, if any.
pub open spec fn close_quote(s: Seq<char>, i: nat, q: char) -> Option<nat>
    decreases s.len() - i
        when i <= s.len()
{
    if i >= s.len() {
        None
    } else if s[i as int] == q {
        Some(i)
    } else {
        close_quote(s, i + 1, q)
    }
}

/// The first position at or after `i` that ends a word: the position of the
/// first boundary character, or the length of the input.
pub open spec fn word_end(s: Seq<char>, i: nat) -> nat
    decreases s.len() - i
        when i <= s.len()
{
    if i < s.len() && !is_boundary(s[i as int]) {
        word_end(s, i + 1)
    } else {
        i
    }
}

/// `skip_ws(s, i)` is the end of the whitespace run starting at `i`.
pub proof fn lemma_skip_ws(s: Seq<char>, i: nat)
    requires
        i <= s.len(),
    ensures
        i <= skip_ws(s, i) <= s.len(),
        forall|k: int| i <= k < skip_ws(s, i) ==> is_wspace(s[k]),
        skip_ws(s, i) == s.len() || !is_wspace(s[skip_ws(s, i) as int]),
    decreases s.len() - i,
{
    if i < s.len() && is_wspace(s[i as int]) {
        lemma_skip_ws(s, i + 1);
    }
}

/// `close_quote(s, i, q)` is the first occurrence of `q` at or after `i`.
pub proof fn lemma_close_quote(s: Seq<char>, i: nat, q: char)
    requires
        i <= s.len(),
    ensures
        match close_quote(s, i, q) {
            Some(j) => i <= j < s.len() && s[j as int] == q && forall|k: int|
                i <= k < j ==> s[k] != q,
            None => forall|k: int| i <= k < s.len() ==> s[k] != q,
        },
    decreases s.len() - i,
{
    if i < s.len() && s[i as int] != q {
        lemma_close_quote(s, i + 1, q);
    }
}

/// `word_end(s, i)` is the first boundary at or after `i`.
pub proof fn lemma_word_end(s: Seq<char>, i: nat)
    requires
        i <= s.len(),
    ensures
        i <= word_end(s, i) <= s.len(),
        forall|k: int| i <= k < word_end(s, i) ==> !is_boundary(s[k]),
        word_end(s, i) == s.len() || is_boundary(s[word_end(s, i) as int]),
    decreases s.len() - i,
{
    if i < s.len() && !is_boundary(s[i as int]) {
        lemma_word_end(s, i + 1);
    }
}

/// The token that a tokenizer in state (`pos`, `first`) over input `s`
/// returns next. `first` says whether the command word is still pending.
pub open spec fn token_at(s: Seq<char>, pos: nat, first: bool) -> TokenView {
    if pos >= s.len() {
        TokenView::Newline
    } else if is_wspace(s[pos as int]) {
        TokenView::Whitespace
    } else if is_quote(s[pos as int]) {
        match close_quote(s, pos + 1, s[pos as int]) {
            Some(j) => TokenView::StringLiteral(s.subrange((pos + 1) as int, j as int)),
            None => TokenView::Illegal(unclosed_msg(s[pos as int])),
        }
    } else if first {
        TokenView::Command(s.subrange(pos as int, word_end(s, pos + 1) as int))
    } else {
        TokenView::Argument(s.subrange(pos as int, word_end(s, pos + 1) as int))
    }
}

/// The tokenizer position after producing `token_at(s, pos, first)`.
pub open spec fn pos_after(s: Seq<char>, pos: nat) -> nat {
    if pos >= s.len() {
        pos
    } else if is_wspace(s[pos as int]) {
        skip_ws(s, pos)
    } else if is_quote(s[pos as int]) {
        match close_quote(s, pos + 1, s[pos as int]) {
            Some(j) => j + 1,
            None => s.len(),
        }
    } else {
        word_end(s, pos + 1)
    }
}

/// Whether the command word is still pending after producing
/// `token_at(s, pos, first)`: a word clears the flag, everything else
/// leaves it.
pub open spec fn first_after(s: Seq<char>, pos: nat, first: bool) -> bool {
    if pos >= s.len() || is_boundary(s[pos as int]) {
        first
    } else {
        false
    }
}

/// Producing a token advances the position, and never past the end.
pub proof fn lemma_pos_after(s: Seq<char>, pos: nat)
    requires
        pos <= s.len(),
    ensures
        pos_after(s, pos) <= s.len(),
        pos < s.len() ==> pos < pos_after(s, pos),
        pos == s.len() ==> pos_after(s, pos) == pos,
{
    if pos < s.len() {
        if is_wspace(s[pos as int]) {
            lemma_skip_ws(s, pos);
        } else if is_quote(s[pos as int]) {
            lemma_close_quote(s, pos + 1, s[pos as int]);
        } else {
            lemma_word_end(s, pos + 1);
        }
    }
}

/// The whole token sequence that a tokenizer in state (`pos`, `first`)
/// still produces, up to but not including the final `Newline`.
pub open spec fn tokens_from(s: Seq<char>, pos: nat, first: bool) -> Seq<TokenView>
    decreases s.len() - pos
        when pos <= s.len()
        via tokens_from_decreases
{
    if pos >= s.len() {
        Seq::empty()
    } else {
        seq![token_at(s, pos, first)] + tokens_from(
            s,
            pos_after(s, pos),
            first_after(s, pos, first),
        )
    }
}

#[via_fn]
proof fn tokens_from_decreases(s: Seq<char>, pos: nat, first: bool) {
    lemma_pos_after(s, pos);
}

/// The full token sequence of one line, without the final `Newline`.
pub open spec fn line_tokens(s: Seq<char>) -> Seq<TokenView> {
    tokens_from(s, 0, true)
}

/// The tokenizer. Created fresh for each input line, consumed by repeated
/// calls of [`Lexer::next_token`] until it yields `Newline`.
pub struct Lexer {
    input: Vec<char>,
    position: usize,
    is_first_token: bool,
}

/// Relies on `String::push`: appends exactly the given character.
#[verifier::external_body]
fn push_char(s: &mut String, c: char)
    ensures
        final(s)@ == old(s)@.push(c),
{
    s.push(c);
}

impl Lexer {
    /// The characters of the line being tokenized.
    pub closed spec fn src(&self) -> Seq<char> {
        self.input@
    }

    /// The current position, in characters from the start of the line.
    pub closed spec fn pos(&self) -> nat {
        self.position as nat
    }

    /// Whether the command word is still pending: true until the first
    /// unquoted word has been produced.
    pub closed spec fn pending_command(&self) -> bool {
        self.is_first_token
    }

    /// The position never runs past the end of the input, whose length fits
    /// in a machine word.
    pub open spec fn wf(&self) -> bool {
        self.pos() <= self.src().len() <= usize::MAX
    }

    /// A fresh tokenizer over `input`, at the start of the line, with the
    /// command word pending.
    pub fn new(input: String) -> (r: Lexer)
        ensures
            r.wf(),
            r.src() == input@,
            r.pos() == 0,
            r.pending_command(),
    {
        let s: &str = input.as_str();
        let n: usize = s.unicode_len();
        let mut chars: Vec<char> = Vec::new();
        let mut i: usize = 0;
        while i < n
            invariant
                i <= n,
                n == s@.len(),
                s@ == input@,
                chars@ == s@.take(i as int),
            decreases n - i,
        {
            chars.push(s.get_char(i));
            proof {
                assert(s@.take(i + 1 as int) =~= s@.take(i as int).push(s@[i as int]));
            }
            i += 1;
        }
        proof {
            assert(chars@ =~= input@);
        }
        Lexer { input: chars, position: 0, is_first_token: true }
    }

    /// The next token of the line. Advances the position; once the end is
    /// reached, returns `Newline` and changes nothing, on every further
    /// call too.
    pub fn next_token(&mut self) -> (t: Token)
        requires
            old(self).wf(),
        ensures
            final(self).wf(),
            final(self).src() == old(self).src(),
            t@ == token_at(old(self).src(), old(self).pos(), old(self).pending_command()),
            final(self).pos() == pos_after(old(self).src(), old(self).pos()),
            final(self).pending_command() == first_after(
                old(self).src(),
                old(self).pos(),
                old(self).pending_command(),
            ),
    {
        if self.position >= self.input.len() {
            return Token::Newline;
        }
        let ch = self.input[self.position];
        if is_space_char(ch) {
            self.skip_whitespace();
            Token::Whitespace
        } else if ch == '"' || ch == '\'' {
            self.position = self.position + 1;
            self.tokenize_string(ch)
        } else {
            self.position = self.position + 1;
            self.tokenize_word(ch)
        }
    }

    /// Advances past the whitespace run at the current position.
    fn skip_whitespace(&mut self)
        requires
            old(self).wf(),
        ensures
            final(self).wf(),
            final(self).src() == old(self).src(),
            final(self).pending_command() == old(self).pending_command(),
            final(self).pos() == skip_ws(old(self).src(), old(self).pos()),
    {
        while self.position < self.input.len() && is_space_char(self.input[self.position])
            invariant
                self.wf(),
                self.src() == old(self).src(),
                self.pending_command() == old(self).pending_command(),
                skip_ws(self.src(), self.pos()) == skip_ws(old(self).src(), old(self).pos()),
            decreases self.src().len() - self.pos(),
        {
            self.position = self.position + 1;
        }
    }

    /// The character at the current position, if any; does not advance.
    fn peek(&self) -> (r: Option<char>)
        ensures
            r == (if self.pos() < self.src().len() {
                Some(self.src()[self.pos() as int])
            } else {
                None::<char>
            }),
    {
        if self.position < self.input.len() {
            Some(self.input[self.position])
        } else {
            None
        }
    }

    /// Consumes up to the next occurrence of `quote` and returns the
    /// content before it as a `StringLiteral`; if the quote never recurs,
    /// consumes the rest of the line and returns `Illegal`.
    fn tokenize_string(&mut self, quote: char) -> (t: Token)
        requires
            old(self).wf(),
        ensures
            final(self).wf(),
            final(self).src() == old(self).src(),
            final(self).pending_command() == old(self).pending_command(),
            match close_quote(old(self).src(), old(self).pos(), quote) {
                Some(j) => t@ == TokenView::StringLiteral(
                    old(self).src().subrange(old(self).pos() as int, j as int),
                ) && final(self).pos() == j + 1,
                None => t@ == TokenView::Illegal(unclosed_msg(quote)) && final(self).pos()
                    == old(self).src().len(),
            },
    {
        let ghost start = self.pos();
        let mut content = String::new();
        loop
            invariant
                self.wf(),
                self.src() == old(self).src(),
                self.pending_command() == old(self).pending_command(),
                start == old(self).pos(),
                start <= self.pos(),
                content@ == self.src().subrange(start as int, self.pos() as int),
                close_quote(self.src(), start, quote) == close_quote(
                    self.src(),
                    self.pos(),
                    quote,
                ),
            decreases self.src().len() - self.pos(),
        {
            match self.peek() {
                Some(ch) => {
                    if ch == quote {
                        self.position = self.position + 1;
                        return Token::StringLiteral(content);
                    }
                    push_char(&mut content, ch);
                    proof {
                        assert(content@ =~= self.src().subrange(
                            start as int,
                            self.pos() + 1 as int,
                        ));
                    }
                    self.position = self.position + 1;
                },
                None => {
                    let mut msg = String::from_str("Unclosed quote: ");
                    push_char(&mut msg, quote);
                    return Token::Illegal(msg);
                },
            }
        }
    }

    /// Consumes the word whose first character, already consumed, is
    /// `first_char`, and classifies it: `Command` if the command word was
    /// still pending, `Argument` otherwise.
    fn tokenize_word(&mut self, first_char: char) -> (t: Token)
        requires
            old(self).wf(),
            1 <= old(self).pos(),
            old(self).src()[old(self).pos() - 1] == first_char,
            !is_boundary(first_char),
        ensures
            final(self).wf(),
            final(self).src() == old(self).src(),
            !final(self).pending_command(),
            final(self).pos() == word_end(old(self).src(), old(self).pos()),
            t@ == (if old(self).pending_command() {
                TokenView::Command(
                    old(self).src().subrange(
                        old(self).pos() - 1,
                        word_end(old(self).src(), old(self).pos()) as int,
                    ),
                )
            } else {
                TokenView::Argument(
                    old(self).src().subrange(
                        old(self).pos() - 1,
                        word_end(old(self).src(), old(self).pos()) as int,
                    ),
                )
            }),
    {
        let ghost start = self.pos();
        let mut word = String::new();
        push_char(&mut word, first_char);
        proof {
            assert(word@ =~= self.src().subrange(start - 1, start as int));
        }
        loop
            invariant
                self.wf(),
                self.src() == old(self).src(),
                self.pending_command() == old(self).pending_command(),
                start == old(self).pos(),
                1 <= start <= self.pos(),
                word@ == self.src().subrange(start - 1, self.pos() as int),
                word_end(self.src(), start) == word_end(self.src(), self.pos()),
            ensures
                self.wf(),
                self.src() == old(self).src(),
                self.pending_command() == old(self).pending_command(),
                1 <= start <= self.pos(),
                word@ == self.src().subrange(start - 1, self.pos() as int),
                self.pos() == word_end(self.src(), start),
            decreases self.src().len() - self.pos(),
        {
            match self.peek() {
                Some(ch) => {
                    if is_space_char(ch) || ch == '"' || ch == '\'' {
                        break;
                    }
                    push_char(&mut word, ch);
                    proof {
                        assert(word@ =~= self.src().subrange(start - 1, self.pos() + 1 as int));
                    }
                    self.position = self.position + 1;
                },
                None => {
                    break;
                },
            }
        }
        if self.is_first_token {
            self.is_first_token = false;
            Token::Command(word)
        } else {
            Token::Argument(word)
        }
    }
}

/// Runs a fresh tokenizer over `input` to completion and collects every
/// token before the final `Newline`, in order.
pub fn tokenize_line(input: &str) -> (r: Vec<Token>)
    ensures
        token_views(r@) == line_tokens(input@),
{
    let mut lexer = Lexer::new(String::from_str(input));
    let mut tokens: Vec<Token> = Vec::new();
    loop
        invariant
            lexer.wf(),
            lexer.src() == input@,
            token_views(tokens@) + tokens_from(lexer.src(), lexer.pos(), lexer.pending_command())
                == line_tokens(input@),
        ensures
            token_views(tokens@) == line_tokens(input@),
        decreases lexer.src().len() - lexer.pos(),
    {
        let ghost pos0 = lexer.pos();
        let ghost first0 = lexer.pending_command();
        let t = lexer.next_token();
        proof {
            lemma_pos_after(input@, pos0);
        }
        match &t {
            Token::Newline => {
                proof {
                    assert(pos0 >= input@.len());
                    assert(token_views(tokens@) + tokens_from(input@, pos0, first0)
                        =~= token_views(tokens@));
                }
                break;
            },
            _ => {
                proof {
                    assert(pos0 < input@.len());
                    assert(token_views(tokens@.push(t)) =~= token_views(tokens@).push(t@));
                    assert(token_views(tokens@.push(t)) + tokens_from(
                        input@,
                        lexer.pos(),
                        lexer.pending_command(),
                    ) =~= token_views(tokens@) + tokens_from(input@, pos0, first0));
                }
                tokens.push(t);
            },
        }
    }
    tokens
}

} // verus!
