//! Laws of the tokenizer and the dispatch logic, stated over the
//! mathematical model and proved once for all inputs.

use vstd::prelude::*;

use crate::dispatch::{arg_of, spec_action, spec_args, spec_cmd, ActionView};
use crate::lexer::{
    close_quote, first_after, is_boundary, is_quote, is_wspace, lemma_close_quote, lemma_skip_ws,
    line_tokens, pos_after, skip_ws, token_at, tokens_from, word_end,
};
use crate::token::{unclosed_msg, TokenView};

verus! {

/// The first position at or after `i` that ends a whitespace-delimited
/// word: the position of the first whitespace character, or the length of
/// the input. Unlike [`word_end`], quotes do not end a word here.
pub open spec fn ws_end(s: Seq<char>, i: nat) -> nat
    decreases s.len() - i
        when i <= s.len()
{
    if i < s.len() && !is_wspace(s[i as int]) {
        ws_end(s, i + 1)
    } else {
        i
    }
}

/// `ws_end(s, i)` is the first whitespace at or after `i`.
proof fn lemma_ws_end(s: Seq<char>, i: nat)
    requires
        i <= s.len(),
    ensures
        i <= ws_end(s, i) <= s.len(),
        forall|k: int| i <= k < ws_end(s, i) ==> !is_wspace(s[k]),
        ws_end(s, i) == s.len() || is_wspace(s[ws_end(s, i) as int]),
    decreases s.len() - i,
{
    if i < s.len() && !is_wspace(s[i as int]) {
        lemma_ws_end(s, i + 1);
    }
}

/// The line split on whitespace runs, from position `pos` on: the ordered
/// list of maximal words of non-whitespace characters.
pub open spec fn split_ws(s: Seq<char>, pos: nat) -> Seq<Seq<char>>
    decreases s.len() - pos
        when pos <= s.len()
        via split_ws_decreases
{
    if pos >= s.len() {
        seq![]
    } else if is_wspace(s[pos as int]) {
        split_ws(s, skip_ws(s, pos))
    } else {
        seq![s.subrange(pos as int, ws_end(s, pos) as int)] + split_ws(s, ws_end(s, pos))
    }
}

#[via_fn]
proof fn split_ws_decreases(s: Seq<char>, pos: nat) {
    if pos < s.len() {
        if is_wspace(s[pos as int]) {
            lemma_skip_ws(s, pos);
        } else {
            lemma_ws_end(s, pos);
        }
    }
}

/// Prepending a token: the command of the whole is the command of the rest
/// if the rest has one, else what the prepended token offers.
proof fn lemma_cmd_cons(t: TokenView, rest: Seq<TokenView>)
    ensures
        spec_cmd(seq![t] + rest) == (match spec_cmd(rest) {
            Some(w) => Some(w),
            None => match t {
                TokenView::Command(w) => Some(w),
                _ => None::<Seq<char>>,
            },
        }),
    decreases rest.len(),
{
    let s = seq![t] + rest;
    if rest.len() == 0 {
        assert(s.drop_last() =~= Seq::<TokenView>::empty());
    } else {
        assert(s.drop_last() =~= seq![t] + rest.drop_last());
        assert(s.last() == rest.last());
        lemma_cmd_cons(t, rest.drop_last());
    }
}

/// Prepending a token prepends its argument contribution.
proof fn lemma_args_cons(t: TokenView, rest: Seq<TokenView>)
    ensures
        spec_args(seq![t] + rest) == arg_of(t) + spec_args(rest),
    decreases rest.len(),
{
    let s = seq![t] + rest;
    if rest.len() == 0 {
        assert(s.len() == 1);
        assert(s.last() == t);
        assert(s.drop_last() =~= Seq::<TokenView>::empty());
        assert(spec_args(s.drop_last()) =~= Seq::<Seq<char>>::empty());
        assert(spec_args(rest) =~= Seq::<Seq<char>>::empty());
        assert(spec_args(s) =~= arg_of(t) + spec_args(rest));
    } else {
        assert(s.drop_last() =~= seq![t] + rest.drop_last());
        assert(s.last() == rest.last());
        lemma_args_cons(t, rest.drop_last());
        assert(spec_args(s) =~= arg_of(t) + spec_args(rest));
    }
}

/// In a region without quote characters, words end exactly where
/// whitespace-splitting says they end.
proof fn lemma_word_end_no_quotes(s: Seq<char>, i: nat)
    requires
        i <= s.len(),
        forall|k: int| i <= k < s.len() ==> !is_quote(s[k]),
    ensures
        word_end(s, i) == ws_end(s, i),
    decreases s.len() - i,
{
    if i < s.len() && !is_boundary(s[i as int]) {
        lemma_word_end_no_quotes(s, i + 1);
    }
}

/// On a line without quote characters, tokenizing agrees with splitting on
/// whitespace runs: from a state where the command is still pending, the
/// command is the first word and the arguments are the remaining words, in
/// order; from a state past the command, every word is an argument.
pub proof fn lemma_tokens_are_words(s: Seq<char>, pos: nat, first: bool)
    requires
        pos <= s.len(),
        forall|k: int| pos <= k < s.len() ==> !is_quote(s[k]),
    ensures
        ({
            let words = split_ws(s, pos);
            let ts = tokens_from(s, pos, first);
            &&& spec_cmd(ts) == (if first && words.len() > 0 {
                Some(words[0])
            } else {
                None::<Seq<char>>
            })
            &&& spec_args(ts) == (if first && words.len() > 0 {
                words.drop_first()
            } else {
                words
            })
        }),
    decreases s.len() - pos,
{
    let words = split_ws(s, pos);
    let ts = tokens_from(s, pos, first);
    if pos >= s.len() {
        assert(spec_cmd(ts) is None);
        assert(spec_args(ts) =~= words);
    } else if is_wspace(s[pos as int]) {
        lemma_skip_ws(s, pos);
        let p2 = skip_ws(s, pos);
        lemma_tokens_are_words(s, p2, first);
        let rest = tokens_from(s, p2, first);
        assert(ts == seq![TokenView::Whitespace] + rest);
        lemma_cmd_cons(TokenView::Whitespace, rest);
        lemma_args_cons(TokenView::Whitespace, rest);
        assert(arg_of(TokenView::Whitespace) + spec_args(rest) =~= spec_args(rest));
        assert(words == split_ws(s, p2));
    } else {
        assert(!is_quote(s[pos as int]));
        lemma_word_end_no_quotes(s, (pos + 1) as nat);
        lemma_ws_end(s, pos);
        let we = word_end(s, (pos + 1) as nat);
        assert(ws_end(s, pos) == ws_end(s, (pos + 1) as nat));
        assert(we == ws_end(s, pos));
        let w = s.subrange(pos as int, we as int);
        let rest = tokens_from(s, we, false);
        lemma_tokens_are_words(s, we, false);
        assert(words == seq![w] + split_ws(s, we));
        assert(words[0] == w);
        assert(words.drop_first() =~= split_ws(s, we));
        if first {
            assert(ts == seq![TokenView::Command(w)] + rest);
            lemma_cmd_cons(TokenView::Command(w), rest);
            lemma_args_cons(TokenView::Command(w), rest);
            assert(arg_of(TokenView::Command(w)) + spec_args(rest) =~= spec_args(rest));
        } else {
            assert(ts == seq![TokenView::Argument(w)] + rest);
            lemma_cmd_cons(TokenView::Argument(w), rest);
            lemma_args_cons(TokenView::Argument(w), rest);
            assert(arg_of(TokenView::Argument(w)) + spec_args(rest) =~= seq![w] + spec_args(rest));
        }
    }
}

/// On a whole line without quote characters, the command is the first
/// whitespace-delimited word and the arguments are the remaining words, in
/// order.
pub proof fn lemma_unquoted_line(s: Seq<char>)
    requires
        forall|k: int| 0 <= k < s.len() ==> !is_quote(s[k]),
    ensures
        ({
            let words = split_ws(s, 0);
            &&& spec_cmd(line_tokens(s)) == (if words.len() > 0 {
                Some(words[0])
            } else {
                None::<Seq<char>>
            })
            &&& spec_args(line_tokens(s)) == (if words.len() > 0 {
                words.drop_first()
            } else {
                words
            })
        }),
{
    lemma_tokens_are_words(s, 0, true);
}

/// `close_quote(s, i, q)` finds exactly the first occurrence of `q`.
proof fn lemma_close_quote_at(s: Seq<char>, i: nat, j: nat, q: char)
    requires
        i <= j < s.len(),
        s[j as int] == q,
        forall|k: int| i <= k < j ==> s[k] != q,
    ensures
        close_quote(s, i, q) == Some(j),
    decreases j - i,
{
    if i < j {
        lemma_close_quote_at(s, (i + 1) as nat, j, q);
    }
}

/// Quoting round-trip: for a string `s` free of the chosen quote character,
/// the line made of `s` between a pair of those quotes tokenizes to the
/// single literal `s` — the content is preserved exactly, embedded
/// whitespace included.
pub proof fn lemma_quoted_literal(s: Seq<char>, q: char)
    requires
        is_quote(q),
        forall|k: int| 0 <= k < s.len() ==> s[k] != q,
    ensures
        line_tokens(seq![q] + s + seq![q]) == seq![TokenView::StringLiteral(s)],
{
    let full = seq![q] + s + seq![q];
    assert(full.len() == s.len() + 2);
    assert(full[0] == q);
    assert(forall|k: int| 1 <= k < s.len() + 1 ==> full[k] == s[k - 1] && full[k] != q);
    assert(full[s.len() + 1 as int] == q);
    lemma_close_quote_at(full, 1, (s.len() + 1) as nat, q);
    assert(token_at(full, 0, true) == TokenView::StringLiteral(full.subrange(1, s.len() as int + 1)));
    assert(full.subrange(1, s.len() as int + 1) =~= s);
    assert(pos_after(full, 0) == full.len());
    assert(tokens_from(full, full.len(), first_after(full, 0, true)) =~= Seq::<
        TokenView,
    >::empty());
    assert(line_tokens(full) =~= seq![TokenView::StringLiteral(s)]);
}

/// `word_end(s, i)` is `j` when the characters before `j` are plain and
/// `j` is a boundary or the end.
proof fn lemma_word_end_at(s: Seq<char>, i: nat, j: nat)
    requires
        i <= j <= s.len(),
        forall|k: int| i <= k < j ==> !is_boundary(s[k]),
        j == s.len() || is_boundary(s[j as int]),
    ensures
        word_end(s, i) == j,
    decreases j - i,
{
    if i < j {
        lemma_word_end_at(s, (i + 1) as nat, j);
    }
}

/// An unterminated quote: a line of one word, whitespace, and an opening
/// quote that never closes tokenizes to the command, the whitespace, and an
/// `Illegal` token carrying the unclosed-quote message — so the dispatch
/// still sees the word as the command, with no arguments.
pub proof fn lemma_unterminated_quote(w: Seq<char>, q: char, rest: Seq<char>)
    requires
        w.len() > 0,
        forall|k: int| 0 <= k < w.len() ==> !is_boundary(w[k]),
        is_quote(q),
        forall|k: int| 0 <= k < rest.len() ==> rest[k] != q,
    ensures
        ({
            let full = w + seq![' '] + seq![q] + rest;
            &&& line_tokens(full) == seq![
                TokenView::Command(w),
                TokenView::Whitespace,
                TokenView::Illegal(unclosed_msg(q)),
            ]
            &&& spec_cmd(line_tokens(full)) == Some(w)
            &&& spec_args(line_tokens(full)) == Seq::<Seq<char>>::empty()
        }),
{
    let full = w + seq![' '] + seq![q] + rest;
    let wl = w.len();
    assert(full.len() == wl + 2 + rest.len());
    assert(forall|k: int| 0 <= k < wl ==> full[k] == w[k]);
    assert(full[wl as int] == ' ');
    assert(full[wl + 1 as int] == q);
    assert(forall|k: int| wl + 2 <= k < full.len() ==> full[k] == rest[k - wl - 2]);
    assert(is_wspace(' '));
    assert(!is_wspace('"') && !is_wspace('\''));
    assert(!is_wspace(q));

    // First token: the word `w`, classified as the command.
    assert(!is_boundary(full[0]));
    lemma_word_end_at(full, 1, wl);
    assert(token_at(full, 0, true) == TokenView::Command(full.subrange(0, wl as int)));
    assert(full.subrange(0, wl as int) =~= w);
    assert(pos_after(full, 0) == wl);
    assert(!first_after(full, 0, true));

    // Second token: the single space.
    assert(token_at(full, wl, false) == TokenView::Whitespace);
    assert(skip_ws(full, (wl + 1) as nat) == wl + 1);
    assert(pos_after(full, wl) == wl + 1);

    // Third token: the unclosed quote.
    lemma_close_quote(full, (wl + 2) as nat, q);
    assert(close_quote(full, (wl + 2) as nat, q) is None) by {
        if let Some(j) = close_quote(full, (wl + 2) as nat, q) {
            assert(wl + 2 <= j < full.len());
            assert(full[j as int] == q);
            assert(full[j as int] == rest[j - wl - 2]);
            assert(false);
        }
    }
    assert(token_at(full, (wl + 1) as nat, false) == TokenView::Illegal(unclosed_msg(q)));
    assert(pos_after(full, (wl + 1) as nat) == full.len());

    let ts = line_tokens(full);
    assert(tokens_from(full, full.len() as nat, false) =~= Seq::<TokenView>::empty());
    assert(tokens_from(full, (wl + 1) as nat, false) =~= seq![TokenView::Illegal(
        unclosed_msg(q),
    )]);
    assert(tokens_from(full, wl, false) =~= seq![
        TokenView::Whitespace,
        TokenView::Illegal(unclosed_msg(q)),
    ]);
    assert(ts =~= seq![
        TokenView::Command(w),
        TokenView::Whitespace,
        TokenView::Illegal(unclosed_msg(q)),
    ]);
    let ts1 = seq![TokenView::Command(w)];
    let ts2 = seq![TokenView::Command(w), TokenView::Whitespace];
    let none: Seq<Seq<char>> = Seq::empty();
    assert(ts1.drop_last() =~= Seq::<TokenView>::empty());
    assert(ts1.last() == TokenView::Command(w));
    assert(spec_cmd(ts1) == Some(w));
    assert(spec_args(Seq::<TokenView>::empty()) =~= none);
    assert(spec_args(ts1) =~= none);
    assert(ts2.drop_last() =~= ts1);
    assert(ts2.last() == TokenView::Whitespace);
    assert(spec_cmd(ts2) == Some(w));
    assert(spec_args(ts2) =~= none);
    assert(ts.drop_last() =~= ts2);
    assert(ts.last() == TokenView::Illegal(unclosed_msg(q)));
    assert(spec_cmd(ts) == Some(w));
    assert(spec_args(ts) =~= none);
}

/// Exhaustion is stable: once the position has reached the end of the
/// input, the next token is `Newline` and the state does not change, so
/// every further call returns `Newline` again.
pub proof fn lemma_newline_idempotent(s: Seq<char>, pos: nat, first: bool)
    requires
        pos >= s.len(),
    ensures
        token_at(s, pos, first) == TokenView::Newline,
        pos_after(s, pos) == pos,
        first_after(s, pos, first) == first,
{
}

/// A line whose first whitespace-delimited word is `exit` asks the loop to
/// terminate, whatever whitespace surrounds it and whatever arguments
/// follow it.
pub proof fn lemma_exit_line(s: Seq<char>, home: Option<Seq<char>>)
    requires
        forall|k: int| 0 <= k < s.len() ==> !is_quote(s[k]),
        split_ws(s, 0).len() > 0,
        split_ws(s, 0)[0] == "exit"@,
    ensures
        spec_action(spec_cmd(line_tokens(s)), spec_args(line_tokens(s)), home)
            == ActionView::Exit,
{
    lemma_tokens_are_words(s, 0, true);
}

/// How many `Command` tokens a token sequence holds.
pub open spec fn command_count(ts: Seq<TokenView>) -> nat
    decreases ts.len(),
{
    if ts.len() == 0 {
        0
    } else {
        command_count(ts.drop_last()) + (match ts.last() {
            TokenView::Command(_) => 1nat,
            _ => 0nat,
        })
    }
}

/// Prepending a token adds its own contribution to the command count.
proof fn lemma_command_count_cons(t: TokenView, rest: Seq<TokenView>)
    ensures
        command_count(seq![t] + rest) == command_count(rest) + (match t {
            TokenView::Command(_) => 1nat,
            _ => 0nat,
        }),
    decreases rest.len(),
{
    let s = seq![t] + rest;
    if rest.len() == 0 {
        assert(s.last() == t);
        assert(s.drop_last() =~= Seq::<TokenView>::empty());
        assert(command_count(s.drop_last()) == 0);
        assert(command_count(rest) == 0);
    } else {
        assert(s.drop_last() =~= seq![t] + rest.drop_last());
        assert(s.last() == rest.last());
        lemma_command_count_cons(t, rest.drop_last());
        assert(command_count(rest) == command_count(rest.drop_last()) + (match rest.last() {
            TokenView::Command(_) => 1nat,
            _ => 0nat,
        }));
    }
}

/// While the command word is pending the tokenizer produces at most one
/// `Command` token before the end of the line; past it, none.
pub proof fn lemma_at_most_one_command(s: Seq<char>, pos: nat, first: bool)
    requires
        pos <= s.len(),
    ensures
        command_count(tokens_from(s, pos, first)) <= (if first {
            1nat
        } else {
            0nat
        }),
    decreases s.len() - pos,
{
    if pos < s.len() {
        crate::lexer::lemma_pos_after(s, pos);
        let t = token_at(s, pos, first);
        let rest = tokens_from(s, pos_after(s, pos), first_after(s, pos, first));
        assert(tokens_from(s, pos, first) == seq![t] + rest);
        lemma_command_count_cons(t, rest);
        lemma_at_most_one_command(s, pos_after(s, pos), first_after(s, pos, first));
        if !(is_wspace(s[pos as int]) || is_quote(s[pos as int])) {
            assert(!first_after(s, pos, first));
        } else {
            assert(!(t is Command));
        }
    }
}

/// No line yields more than one `Command` token.
pub proof fn lemma_single_command(s: Seq<char>)
    ensures
        command_count(line_tokens(s)) <= 1,
{
    lemma_at_most_one_command(s, 0, true);
}

/// A line of nothing but whitespace (or nothing at all) carries no command:
/// the loop proceeds to the next line with nothing to do.
pub proof fn lemma_blank_line(s: Seq<char>, home: Option<Seq<char>>)
    requires
        forall|k: int| 0 <= k < s.len() ==> is_wspace(s[k]),
    ensures
        spec_cmd(line_tokens(s)) is None,
        spec_args(line_tokens(s)) == Seq::<Seq<char>>::empty(),
        spec_action(spec_cmd(line_tokens(s)), spec_args(line_tokens(s)), home)
            == ActionView::Proceed,
{
    assert(!is_wspace('"') && !is_wspace('\''));
    assert(forall|k: int| 0 <= k < s.len() ==> !is_quote(s[k]));
    lemma_tokens_are_words(s, 0, true);
    if s.len() > 0 {
        lemma_skip_ws(s, 0);
        assert(skip_ws(s, 0) == s.len());
        assert(split_ws(s, 0) == split_ws(s, s.len() as nat));
    }
    assert(split_ws(s, 0).len() == 0);
    assert(spec_args(line_tokens(s)) =~= Seq::<Seq<char>>::empty());
}

} // verus!
