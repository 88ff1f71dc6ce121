//! Scanning is stable: the lexeme of a token, scanned by itself, gives
//! that token again.

use vstd::prelude::*;
use crate::scanner::{
    digit, is_digit, lemma_lex_step_advances, lemma_run_end_bounds, lex_number, lex_step,
    lex_string, lex_word, not_quote, run_end, scan, scan_from, start_of, unicode_alphabetic,
    unicode_whitespace, word_part, Lexed,
};
use crate::token::{TokenKind, TokenView};

verus! {

/// A run inside a cut-out of the text ends where it ends in the text, or
/// at the end of the cut-out if that comes first.
pub proof fn lemma_run_end_in_cut(s: Seq<char>, from: int, to: int, i: int, p: spec_fn(char) -> bool)
    requires
        0 <= from <= i <= to <= s.len(),
    ensures
        run_end(s.subrange(from, to), i - from, p) == if run_end(s, i, p) <= to {
            run_end(s, i, p) - from
        } else {
            to - from
        },
    decreases to - i,
{
    let x = s.subrange(from, to);
    lemma_run_end_bounds(s, i, p);
    if i < to {
        assert(x[i - from] == s[i]);
        if p(s[i]) {
            lemma_run_end_in_cut(s, from, to, i + 1, p);
            lemma_run_end_bounds(s, i + 1, p);
        }
    }
}

/// Whether scanning the lexeme of the token by itself gives one token of
/// the same kind, with the same lexeme and the same literal value, and then
/// the end of the text.
pub open spec fn rescans(t: TokenView) -> bool {
    let again = scan(t.lexeme);
    &&& again.error is None
    &&& again.tokens.len() == 2
    &&& again.tokens[0].kind == t.kind
    &&& again.tokens[0].lexeme == t.lexeme
    &&& again.tokens[0].literal == t.literal
    &&& again.tokens[1].kind == TokenKind::Eof
}

/// Whether the step `again` finds the token `t`, up to the line, and ends
/// behind a text of `len` characters.
pub open spec fn finds(again: Lexed, t: TokenView, len: int) -> bool {
    &&& again is Token
    &&& again->Token_token.kind == t.kind
    &&& again->Token_token.lexeme == t.lexeme
    &&& again->Token_token.literal == t.literal
    &&& again->Token_next == len
}

/// A string literal is found again at the start of its lexeme.
pub proof fn lemma_string_rescans(s: Seq<char>, pos: int, line: nat)
    requires
        0 <= pos < s.len(),
        s[pos] == '"',
        lex_string(s, pos, line) is Token,
    ensures
        ({
            let t = lex_string(s, pos, line)->Token_token;
            &&& t.lexeme.len() > 0
            &&& t.lexeme[0] == '"'
            &&& t.kind == TokenKind::String
            &&& finds(lex_string(t.lexeme, 0, 1), t, t.lexeme.len() as int)
        }),
{
    let x = lex_string(s, pos, line)->Token_token.lexeme;
    let close = run_end(s, pos + 1, not_quote());
    lemma_run_end_bounds(s, pos + 1, not_quote());
    lemma_run_end_in_cut(s, pos, close + 1, pos + 1, not_quote());
    assert(x == s.subrange(pos, close + 1));
    assert(x[0] == s[pos]);
    assert(x.subrange(0, close - pos + 1) =~= x);
    assert(x.subrange(1, close - pos) =~= s.subrange(pos + 1, close));
}

/// A number literal is found again at the start of its lexeme.
pub proof fn lemma_number_rescans(s: Seq<char>, pos: int, line: nat)
    requires
        0 <= pos < s.len(),
        is_digit(s[pos]),
    ensures
        ({
            let t = lex_number(s, pos, line)->Token_token;
            &&& lex_number(s, pos, line) is Token
            &&& t.lexeme.len() > 0
            &&& t.lexeme[0] == s[pos]
            &&& t.kind == TokenKind::Number
            &&& finds(lex_number(t.lexeme, 0, 1), t, t.lexeme.len() as int)
        }),
{
    let x = lex_number(s, pos, line)->Token_token.lexeme;
    let whole = run_end(s, pos, digit());
    lemma_run_end_bounds(s, pos, digit());
    lemma_run_end_bounds(s, pos + 1, digit());
    assert(digit()(s[pos]));
    assert(whole == run_end(s, pos + 1, digit()));
    if whole + 1 < s.len() && s[whole] == '.' && is_digit(s[whole + 1]) {
        let end = run_end(s, whole + 1, digit());
        lemma_run_end_bounds(s, whole + 1, digit());
        lemma_run_end_bounds(s, whole + 2, digit());
        assert(digit()(s[whole + 1]));
        assert(end == run_end(s, whole + 2, digit()));
        lemma_run_end_in_cut(s, pos, end, pos, digit());
        lemma_run_end_in_cut(s, pos, end, whole + 1, digit());
        assert(x == s.subrange(pos, end));
        assert(x[0] == s[pos]);
        assert(x[whole - pos] == s[whole]);
        assert(x[whole - pos + 1] == s[whole + 1]);
        assert(x.subrange(0, whole - pos) =~= s.subrange(pos, whole));
        assert(x.subrange(whole - pos + 1, end - pos) =~= s.subrange(whole + 1, end));
        assert(x.subrange(0, end - pos) =~= x);
    } else {
        lemma_run_end_in_cut(s, pos, whole, pos, digit());
        assert(x == s.subrange(pos, whole));
        assert(x[0] == s[pos]);
        assert(x.subrange(0, whole - pos) =~= x);
    }
}

/// An identifier or keyword is found again at the start of its lexeme.
pub proof fn lemma_word_rescans(s: Seq<char>, pos: int, line: nat)
    requires
        0 <= pos < s.len(),
    ensures
        ({
            let t = lex_word(s, pos, line)->Token_token;
            &&& lex_word(s, pos, line) is Token
            &&& t.lexeme.len() > 0
            &&& t.lexeme[0] == s[pos]
            &&& t.kind != TokenKind::Eof
            &&& finds(lex_word(t.lexeme, 0, 1), t, t.lexeme.len() as int)
        }),
{
    let x = lex_word(s, pos, line)->Token_token.lexeme;
    let end = run_end(s, pos + 1, word_part());
    lemma_run_end_bounds(s, pos + 1, word_part());
    lemma_run_end_in_cut(s, pos, end, pos + 1, word_part());
    assert(x == s.subrange(pos, end));
    assert(x[0] == s[pos]);
    assert(x.subrange(0, end - pos) =~= x);
}

/// An operator or punctuation mark is found again at the start of its
/// lexeme.
pub proof fn lemma_mark_rescans(s: Seq<char>, pos: int, line: nat)
    requires
        0 <= pos < s.len(),
        lex_step(s, pos, line) is Token,
        ({
            let start = start_of(s[pos], unicode_whitespace(s[pos]), unicode_alphabetic(s[pos]));
            start is Single || start is Doubled || start is Slash
        }),
    ensures
        ({
            let t = lex_step(s, pos, line)->Token_token;
            &&& t.lexeme.len() > 0
            &&& t.kind != TokenKind::Eof
            &&& finds(lex_step(t.lexeme, 0, 1), t, t.lexeme.len() as int)
        }),
{
    let c = s[pos];
    let x = lex_step(s, pos, line)->Token_token.lexeme;
    let start = start_of(c, unicode_whitespace(c), unicode_alphabetic(c));
    assert(x[0] == c);
    if start is Doubled && pos + 1 < s.len() && s[pos + 1] == '=' {
        assert(x[1] == '=');
        assert(x.subrange(0, 2) =~= x);
    } else {
        assert(x.subrange(0, 1) =~= x);
    }
}

/// The token that a step finds is found again at the start of its lexeme,
/// and spans all of it.
pub proof fn lemma_step_rescans(s: Seq<char>, pos: int, line: nat)
    requires
        0 <= pos < s.len(),
        lex_step(s, pos, line) is Token,
    ensures
        ({
            let t = lex_step(s, pos, line)->Token_token;
            &&& t.lexeme.len() > 0
            &&& t.kind != TokenKind::Eof
            &&& finds(lex_step(t.lexeme, 0, 1), t, t.lexeme.len() as int)
        }),
{
    let c = s[pos];
    let x = lex_step(s, pos, line)->Token_token.lexeme;
    let start = start_of(c, unicode_whitespace(c), unicode_alphabetic(c));
    if start is Quote {
        lemma_string_rescans(s, pos, line);
        assert(lex_step(x, 0, 1) == lex_string(x, 0, 1));
    } else if start is Digit {
        lemma_number_rescans(s, pos, line);
        assert(lex_step(x, 0, 1) == lex_number(x, 0, 1));
    } else if start is Word {
        lemma_word_rescans(s, pos, line);
        assert(lex_step(x, 0, 1) == lex_word(x, 0, 1));
    } else {
        lemma_mark_rescans(s, pos, line);
    }
}

/// Every token of a scan, the end-of-file token apart, scans by itself to
/// the same token.
pub proof fn lemma_scanned_tokens_rescan(s: Seq<char>, pos: int, line: nat, i: int)
    requires
        0 <= pos <= s.len(),
        0 <= i < scan_from(s, pos, line).tokens.len(),
        scan_from(s, pos, line).tokens[i].kind != TokenKind::Eof,
    ensures
        rescans(scan_from(s, pos, line).tokens[i]),
    decreases s.len() - pos,
{
    if pos < s.len() {
        lemma_lex_step_advances(s, pos, line);
        match lex_step(s, pos, line) {
            Lexed::Token { token, next, line: reached } => {
                if i == 0 {
                    lemma_step_rescans(s, pos, line);
                    let x = token.lexeme;
                    let again = lex_step(x, 0, 1);
                    assert(scan_from(x, x.len() as int, again->Token_line).tokens.len() == 1);
                    assert(scan(x).tokens =~= seq![again->Token_token] + scan_from(
                        x,
                        x.len() as int,
                        again->Token_line,
                    ).tokens);
                } else {
                    lemma_scanned_tokens_rescan(s, next, reached, i - 1);
                }
            },
            Lexed::Skip { next, line: reached } => {
                lemma_scanned_tokens_rescan(s, next, reached, i);
            },
            Lexed::Fail { .. } => {},
        }
    }
}

/// The round trip of tokens: every token that scanning a text produces,
/// the end-of-file token apart, is produced again, alone and with the same
/// kind, lexeme and literal value, by scanning its lexeme. This holds in
/// particular of the number and string literals.
pub proof fn lemma_token_round_trip(source: Seq<char>, i: int)
    requires
        0 <= i < scan(source).tokens.len(),
        scan(source).tokens[i].kind != TokenKind::Eof,
    ensures
        rescans(scan(source).tokens[i]),
{
    lemma_scanned_tokens_rescan(source, 0, 1, i);
}

} // verus!
