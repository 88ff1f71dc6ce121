//! The scanner: source text in, tokens out.

use vstd::prelude::*;
use vstd::string::*;
use crate::number::decimal;
use crate::number::digits::{all_digits, written_value};
use crate::number::Number;
use crate::strings::substring;
use crate::token::{token_views, Literal, Token, TokenKind, TokenView, Value};

verus! {

/// A place in the source text: the line, counted from one, and the index of
/// the character at which the offending lexeme starts.
#[derive(Clone, Copy, Debug, PartialEq, Eq, Structural)]
pub struct Position {
    pub line: usize,
    pub column: usize,
}

/// Why scanning stopped.
#[derive(Clone, Copy, Debug, PartialEq, Eq, Structural)]
pub enum LexError {
    /// A character that starts no token.
    UnexpectedCharacter(Position),
    /// A string literal that is still open where the text ends.
    UnterminatedString(Position),
    /// A block comment that is still open where the text ends.
    UnterminatedComment(Position),
}

/// Whether `c` has the Unicode property Alphabetic.
pub uninterp spec fn unicode_alphabetic(c: char) -> bool;

/// Whether `c` is alphabetic or numeric in Unicode's sense.
pub uninterp spec fn unicode_alphanumeric(c: char) -> bool;

/// Whether `c` has the Unicode property White_Space.
pub uninterp spec fn unicode_whitespace(c: char) -> bool;

/// `char::is_alphabetic` of the standard library. The contract only names
/// the answer: which characters are alphabetic is Unicode's table.
#[verifier::external_body]
fn is_alphabetic(c: char) -> (r: bool)
    ensures
        r == unicode_alphabetic(c),
{
    c.is_alphabetic()
}

/// `char::is_alphanumeric` of the standard library. The contract only names
/// the answer: which characters are alphanumeric is Unicode's table.
#[verifier::external_body]
fn is_alphanumeric(c: char) -> (r: bool)
    ensures
        r == unicode_alphanumeric(c),
{
    c.is_alphanumeric()
}

/// `char::is_whitespace` of the standard library. The contract only names
/// the answer: which characters are white space is Unicode's table.
#[verifier::external_body]
fn is_whitespace(c: char) -> (r: bool)
    ensures
        r == unicode_whitespace(c),
{
    c.is_whitespace()
}

/// One of the ten decimal digits.
pub open spec fn is_digit(c: char) -> bool {
    '0' <= c && c <= '9'
}

/// The number that a decimal digit stands for.
pub open spec fn digit_value(c: char) -> u8 {
    (c as int - 48) as u8
}

/// What the first character of a lexeme announces.
#[derive(Clone, Copy, Debug, PartialEq, Eq, Structural)]
pub enum Start {
    /// A token of one character.
    Single(TokenKind),
    /// An operator of one character that becomes another when `=` follows:
    /// the kind of the single one, then that of the double one.
    Doubled(TokenKind, TokenKind),
    /// A comment or the division operator.
    Slash,
    /// The end of a line.
    Newline,
    /// A string literal.
    Quote,
    /// A number literal.
    Digit,
    /// White space.
    Space,
    /// An identifier or a keyword.
    Word,
    /// Nothing that can be scanned.
    Other,
}

/// What the character `c` announces at the start of a lexeme, given
/// whether it is white space and whether it is alphabetic. A word starts
/// with an alphabetic character or `_`.
pub open spec fn start_of(c: char, white: bool, alphabetic: bool) -> Start {
    if c == '(' {
        Start::Single(TokenKind::LeftParen)
    } else if c == ')' {
        Start::Single(TokenKind::RightParen)
    } else if c == '{' {
        Start::Single(TokenKind::LeftBrace)
    } else if c == '}' {
        Start::Single(TokenKind::RightBrace)
    } else if c == ',' {
        Start::Single(TokenKind::Comma)
    } else if c == '.' {
        Start::Single(TokenKind::Dot)
    } else if c == '-' {
        Start::Single(TokenKind::Minus)
    } else if c == '+' {
        Start::Single(TokenKind::Plus)
    } else if c == ';' {
        Start::Single(TokenKind::Semicolon)
    } else if c == '*' {
        Start::Single(TokenKind::Star)
    } else if c == '!' {
        Start::Doubled(TokenKind::Bang, TokenKind::BangEqual)
    } else if c == '=' {
        Start::Doubled(TokenKind::Equal, TokenKind::EqualEqual)
    } else if c == '<' {
        Start::Doubled(TokenKind::Less, TokenKind::LessEqual)
    } else if c == '>' {
        Start::Doubled(TokenKind::Greater, TokenKind::GreaterEqual)
    } else if c == '/' {
        Start::Slash
    } else if c == '\n' {
        Start::Newline
    } else if c == '"' {
        Start::Quote
    } else if is_digit(c) {
        Start::Digit
    } else if white {
        Start::Space
    } else if alphabetic || c == '_' {
        Start::Word
    } else {
        Start::Other
    }
}

/// Whether the character `c` continues a word, given whether it is
/// alphanumeric: alphanumeric characters do, and so does `_`. That `_`
/// continues a word, as it can start one, is this scanner's choice: `a_b` is
/// one identifier, not two.
pub open spec fn word_continues(c: char, alphanumeric: bool) -> bool {
    alphanumeric || c == '_'
}

/// A character that can continue an identifier or keyword.
pub open spec fn is_word_part(c: char) -> bool {
    word_continues(c, unicode_alphanumeric(c))
}

/// The characters that do not end a line.
pub open spec fn not_newline() -> spec_fn(char) -> bool {
    |c: char| c != '\n'
}

/// The characters that do not close a string.
pub open spec fn not_quote() -> spec_fn(char) -> bool {
    |c: char| c != '"'
}

/// The decimal digits.
pub open spec fn digit() -> spec_fn(char) -> bool {
    |c: char| is_digit(c)
}

/// The characters that continue a word.
pub open spec fn word_part() -> spec_fn(char) -> bool {
    |c: char| is_word_part(c)
}

/// The first index from `i` on whose character does not satisfy `p`, or the
/// length of the text if there is none: the end of the longest run of such
/// characters that starts at `i`.
pub open spec fn run_end(s: Seq<char>, i: int, p: spec_fn(char) -> bool) -> int
    decreases s.len() - i,
{
    if 0 <= i < s.len() && p(s[i]) {
        run_end(s, i + 1, p)
    } else {
        i
    }
}

/// How many line breaks the text holds.
pub open spec fn newlines(s: Seq<char>) -> nat
    decreases s.len(),
{
    if s.len() == 0 {
        0
    } else {
        newlines(s.drop_last()) + if s.last() == '\n' {
            1nat
        } else {
            0nat
        }
    }
}

/// Where the block comment ends whose body is being read at `i` with
/// `depth` comments open: just behind the `*/` that closes the outermost one.
/// `None` if the text ends first.
pub open spec fn comment_end(s: Seq<char>, i: int, depth: nat) -> Option<int>
    decreases s.len() - i,
{
    if i < 0 || i >= s.len() || depth == 0 {
        None
    } else if s[i] == '*' && i + 1 < s.len() && s[i + 1] == '/' {
        if depth == 1 {
            Some(i + 2)
        } else {
            comment_end(s, i + 2, (depth - 1) as nat)
        }
    } else if s[i] == '/' && i + 1 < s.len() && s[i + 1] == '*' {
        comment_end(s, i + 2, depth + 1)
    } else {
        comment_end(s, i + 1, depth)
    }
}

/// The keyword that the word is, or `Identifier`.
pub open spec fn keyword_kind(word: Seq<char>) -> TokenKind {
    if word == "and"@ {
        TokenKind::And
    } else if word == "class"@ {
        TokenKind::Class
    } else if word == "else"@ {
        TokenKind::Else
    } else if word == "false"@ {
        TokenKind::False
    } else if word == "func"@ {
        TokenKind::Func
    } else if word == "if"@ {
        TokenKind::If
    } else if word == "nil"@ {
        TokenKind::Nil
    } else if word == "or"@ {
        TokenKind::Or
    } else if word == "print"@ {
        TokenKind::Print
    } else if word == "return"@ {
        TokenKind::Return
    } else if word == "super"@ {
        TokenKind::Super
    } else if word == "this"@ {
        TokenKind::This
    } else if word == "true"@ {
        TokenKind::True
    } else if word == "var"@ {
        TokenKind::Var
    } else if word == "while"@ {
        TokenKind::While
    } else {
        TokenKind::Identifier
    }
}

/// What one step of the scanner finds at a position.
pub enum Lexed {
    /// A token, the position behind it and the line reached.
    Token { token: TokenView, next: int, line: nat },
    /// White space or a comment.
    Skip { next: int, line: nat },
    /// Nothing that can be scanned: why, the position where the scanner
    /// gives up and the line reached there.
    Fail { error: LexError, next: int, line: nat },
}

/// The token of kind `kind` that spans `s[pos..next]` and carries no literal.
pub open spec fn plain(s: Seq<char>, pos: int, next: int, line: nat, kind: TokenKind) -> Lexed {
    Lexed::Token {
        token: TokenView { kind, lexeme: s.subrange(pos, next), literal: None, line },
        next,
        line,
    }
}

/// An operator of one character that becomes another when `=` follows.
pub open spec fn doubled(
    s: Seq<char>,
    pos: int,
    line: nat,
    single: TokenKind,
    double: TokenKind,
) -> Lexed {
    if pos + 1 < s.len() && s[pos + 1] == '=' {
        plain(s, pos, pos + 2, line, double)
    } else {
        plain(s, pos, pos + 1, line, single)
    }
}

/// A `/`: a line comment, a block comment or the division operator.
pub open spec fn lex_slash(s: Seq<char>, pos: int, line: nat) -> Lexed {
    if pos + 1 < s.len() && s[pos + 1] == '/' {
        Lexed::Skip { next: run_end(s, pos + 2, not_newline()), line }
    } else if pos + 1 < s.len() && s[pos + 1] == '*' {
        match comment_end(s, pos + 2, 1) {
            Some(end) => Lexed::Skip { next: end, line: line + newlines(s.subrange(pos, end)) },
            None => Lexed::Fail {
                error: LexError::UnterminatedComment(
                    Position { line: line as usize, column: pos as usize },
                ),
                next: s.len() as int,
                line: line + newlines(s.subrange(pos, s.len() as int)),
            },
        }
    } else {
        plain(s, pos, pos + 1, line, TokenKind::Slash)
    }
}

/// A string literal, which runs to the next `"`. Line breaks inside are
/// counted, and the token is on the line where the string ends.
pub open spec fn lex_string(s: Seq<char>, pos: int, line: nat) -> Lexed {
    let close = run_end(s, pos + 1, not_quote());
    if close >= s.len() {
        Lexed::Fail {
            error: LexError::UnterminatedString(
                Position { line: line as usize, column: pos as usize },
            ),
            next: s.len() as int,
            line: line + newlines(s.subrange(pos, s.len() as int)),
        }
    } else {
        let last = line + newlines(s.subrange(pos, close + 1));
        Lexed::Token {
            token: TokenView {
                kind: TokenKind::String,
                lexeme: s.subrange(pos, close + 1),
                literal: Some(Value::Text(s.subrange(pos + 1, close))),
                line: last,
            },
            next: close + 1,
            line: last,
        }
    }
}

/// The digit values of a run of digits.
pub open spec fn digit_values(s: Seq<char>) -> Seq<u8> {
    s.map_values(|c: char| digit_value(c))
}

/// A number literal: digits, and a fraction if a `.` with a digit behind it
/// follows them.
pub open spec fn lex_number(s: Seq<char>, pos: int, line: nat) -> Lexed {
    let whole = run_end(s, pos, digit());
    if whole + 1 < s.len() && s[whole] == '.' && is_digit(s[whole + 1]) {
        let end = run_end(s, whole + 1, digit());
        let written = digit_values(s.subrange(pos, whole) + s.subrange(whole + 1, end));
        Lexed::Token {
            token: TokenView {
                kind: TokenKind::Number,
                lexeme: s.subrange(pos, end),
                literal: Some(
                    Value::Number(decimal(written_value(written), (end - whole - 1) as nat)),
                ),
                line,
            },
            next: end,
            line,
        }
    } else {
        Lexed::Token {
            token: TokenView {
                kind: TokenKind::Number,
                lexeme: s.subrange(pos, whole),
                literal: Some(
                    Value::Number(decimal(written_value(digit_values(s.subrange(pos, whole))), 0)),
                ),
                line,
            },
            next: whole,
            line,
        }
    }
}

/// An identifier or a keyword.
pub open spec fn lex_word(s: Seq<char>, pos: int, line: nat) -> Lexed {
    let end = run_end(s, pos + 1, word_part());
    plain(s, pos, end, line, keyword_kind(s.subrange(pos, end)))
}

/// What stands at `pos`, which is inside the text, when the scanner is on
/// line `line`.
pub open spec fn lex_step(s: Seq<char>, pos: int, line: nat) -> Lexed {
    let c = s[pos];
    match start_of(c, unicode_whitespace(c), unicode_alphabetic(c)) {
        Start::Single(kind) => plain(s, pos, pos + 1, line, kind),
        Start::Doubled(single, double) => doubled(s, pos, line, single, double),
        Start::Slash => lex_slash(s, pos, line),
        Start::Newline => Lexed::Skip { next: pos + 1, line: line + 1 },
        Start::Quote => lex_string(s, pos, line),
        Start::Digit => lex_number(s, pos, line),
        Start::Space => Lexed::Skip { next: pos + 1, line },
        Start::Word => lex_word(s, pos, line),
        Start::Other => Lexed::Fail {
            error: LexError::UnexpectedCharacter(
                Position { line: line as usize, column: pos as usize },
            ),
            next: pos + 1,
            line,
        },
    }
}

/// The token that ends every successful scan.
pub open spec fn eof_token(line: nat) -> TokenView {
    TokenView { kind: TokenKind::Eof, lexeme: Seq::empty(), literal: None, line }
}

/// The outcome of a scan: the tokens found, the error that stopped it if
/// one did, and where the scanner stands afterwards.
pub struct Scanned {
    pub tokens: Seq<TokenView>,
    pub error: Option<LexError>,
    /// Where the last step of the scan started, if it took a step: at the
    /// last token, blank or comment, or at what could not be scanned.
    pub start: Option<int>,
    /// The position reached: the end of the text, or where the scan gave up.
    pub position: int,
    /// The line reached there.
    pub line: nat,
}

/// Where the last step started, of a scan that takes a step at `pos` and
/// then goes on as a scan whose last step started at `later`.
pub open spec fn last_start(later: Option<int>, pos: int) -> Option<int> {
    match later {
        Some(start) => Some(start),
        None => Some(pos),
    }
}

/// A run ends at or behind its start, inside the text.
pub proof fn lemma_run_end_bounds(s: Seq<char>, i: int, p: spec_fn(char) -> bool)
    requires
        0 <= i <= s.len(),
    ensures
        i <= run_end(s, i, p) <= s.len(),
    decreases s.len() - i,
{
    if i < s.len() && p(s[i]) {
        lemma_run_end_bounds(s, i + 1, p);
    }
}

/// A comment ends behind the place where its body is read, inside the text.
pub proof fn lemma_comment_end_bounds(s: Seq<char>, i: int, depth: nat)
    requires
        0 <= i <= s.len(),
    ensures
        comment_end(s, i, depth) is Some ==> i < comment_end(s, i, depth)->0 <= s.len(),
    decreases s.len() - i,
{
    if i < 0 || i >= s.len() || depth == 0 {
    } else if s[i] == '*' && i + 1 < s.len() && s[i + 1] == '/' {
        if depth != 1 {
            lemma_comment_end_bounds(s, i + 2, (depth - 1) as nat);
        }
    } else if s[i] == '/' && i + 1 < s.len() && s[i + 1] == '*' {
        lemma_comment_end_bounds(s, i + 2, depth + 1);
    } else {
        lemma_comment_end_bounds(s, i + 1, depth);
    }
}

/// Every step moves forward and stays inside the text.
pub proof fn lemma_lex_step_advances(s: Seq<char>, pos: int, line: nat)
    requires
        0 <= pos < s.len(),
    ensures
        match lex_step(s, pos, line) {
            Lexed::Token { next, .. } => pos < next <= s.len(),
            Lexed::Skip { next, .. } => pos < next <= s.len(),
            Lexed::Fail { next, .. } => pos < next <= s.len(),
        },
{
    if pos + 1 < s.len() {
        lemma_run_end_bounds(s, pos + 2, not_newline());
        lemma_comment_end_bounds(s, pos + 2, 1);
    }
    lemma_run_end_bounds(s, pos + 1, not_quote());
    lemma_run_end_bounds(s, pos, digit());
    let whole = run_end(s, pos, digit());
    if whole + 1 < s.len() {
        lemma_run_end_bounds(s, whole + 1, digit());
    }
    lemma_run_end_bounds(s, pos + 1, word_part());
}

/// The scan of the text from `pos` on, the scanner being on line `line`:
/// the tokens in order, then either the end-of-file token or the first error.
pub open spec fn scan_from(s: Seq<char>, pos: int, line: nat) -> Scanned
    decreases s.len() - pos,
{
    if pos < 0 || pos >= s.len() {
        Scanned { tokens: seq![eof_token(line)], error: None, start: None, position: pos, line }
    } else {
        proof {
            lemma_lex_step_advances(s, pos, line);
        }
        match lex_step(s, pos, line) {
            Lexed::Token { token, next, line: reached } => {
                let rest = scan_from(s, next, reached);
                Scanned {
                    tokens: seq![token] + rest.tokens,
                    error: rest.error,
                    start: last_start(rest.start, pos),
                    position: rest.position,
                    line: rest.line,
                }
            },
            Lexed::Skip { next, line: reached } => {
                let rest = scan_from(s, next, reached);
                Scanned {
                    tokens: rest.tokens,
                    error: rest.error,
                    start: last_start(rest.start, pos),
                    position: rest.position,
                    line: rest.line,
                }
            },
            Lexed::Fail { error, next, line: reached } => Scanned {
                tokens: Seq::empty(),
                error: Some(error),
                start: Some(pos),
                position: next,
                line: reached,
            },
        }
    }
}

/// The scan of a whole text.
pub open spec fn scan(s: Seq<char>) -> Scanned {
    scan_from(s, 0, 1)
}

/// Every character of a run satisfies the run's condition, and the
/// character behind it, if there is one, does not.
pub proof fn lemma_run_end_holds(s: Seq<char>, i: int, p: spec_fn(char) -> bool)
    requires
        0 <= i <= s.len(),
    ensures
        forall|j: int| i <= j < run_end(s, i, p) ==> p(#[trigger] s[j]),
        run_end(s, i, p) < s.len() ==> !p(s[run_end(s, i, p)]),
    decreases s.len() - i,
{
    if i < s.len() && p(s[i]) {
        lemma_run_end_holds(s, i + 1, p);
    }
}

/// The line breaks of a text extended by one character.
pub proof fn lemma_newlines_step(s: Seq<char>, from: int, to: int)
    requires
        0 <= from <= to < s.len(),
    ensures
        newlines(s.subrange(from, to + 1)) == newlines(s.subrange(from, to)) + if s[to] == '\n' {
            1nat
        } else {
            0nat
        },
{
    assert(s.subrange(from, to + 1).drop_last() =~= s.subrange(from, to));
}

fn is_decimal_digit(c: char) -> (r: bool)
    ensures
        r == is_digit(c),
{
    c >= '0' && c <= '9'
}

/// What the character `c` announces at the start of a lexeme, given
/// whether it is white space and whether it is alphabetic.
pub fn classify(c: char, white: bool, alphabetic: bool) -> (r: Start)
    ensures
        r == start_of(c, white, alphabetic),
{
    if c == '(' {
        Start::Single(TokenKind::LeftParen)
    } else if c == ')' {
        Start::Single(TokenKind::RightParen)
    } else if c == '{' {
        Start::Single(TokenKind::LeftBrace)
    } else if c == '}' {
        Start::Single(TokenKind::RightBrace)
    } else if c == ',' {
        Start::Single(TokenKind::Comma)
    } else if c == '.' {
        Start::Single(TokenKind::Dot)
    } else if c == '-' {
        Start::Single(TokenKind::Minus)
    } else if c == '+' {
        Start::Single(TokenKind::Plus)
    } else if c == ';' {
        Start::Single(TokenKind::Semicolon)
    } else if c == '*' {
        Start::Single(TokenKind::Star)
    } else if c == '!' {
        Start::Doubled(TokenKind::Bang, TokenKind::BangEqual)
    } else if c == '=' {
        Start::Doubled(TokenKind::Equal, TokenKind::EqualEqual)
    } else if c == '<' {
        Start::Doubled(TokenKind::Less, TokenKind::LessEqual)
    } else if c == '>' {
        Start::Doubled(TokenKind::Greater, TokenKind::GreaterEqual)
    } else if c == '/' {
        Start::Slash
    } else if c == '\n' {
        Start::Newline
    } else if c == '"' {
        Start::Quote
    } else if is_decimal_digit(c) {
        Start::Digit
    } else if white {
        Start::Space
    } else if alphabetic || c == '_' {
        Start::Word
    } else {
        Start::Other
    }
}

/// Whether the character `c` continues a word, given whether it is
/// alphanumeric.
pub fn continues_word(c: char, alphanumeric: bool) -> (r: bool)
    ensures
        r == word_continues(c, alphanumeric),
{
    alphanumeric || c == '_'
}

/// Appends the values of the digits `chars[from..to]` to `out`.
fn collect_digits(chars: &Vec<char>, from: usize, to: usize, out: &mut Vec<u8>)
    requires
        from <= to <= chars.len(),
        forall|j: int| from <= j < to ==> is_digit(#[trigger] chars@[j]),
        all_digits(old(out)@),
    ensures
        all_digits(final(out)@),
        final(out)@ == old(out)@ + digit_values(chars@.subrange(from as int, to as int)),
{
    let mut i: usize = from;
    assert(old(out)@ + digit_values(chars@.subrange(from as int, from as int)) =~= old(out)@);
    while i < to
        invariant
            from <= i <= to <= chars.len(),
            forall|j: int| from <= j < to ==> is_digit(#[trigger] chars@[j]),
            all_digits(out@),
            out@ == old(out)@ + digit_values(chars@.subrange(from as int, i as int)),
        decreases to - i,
    {
        let c = chars[i];
        assert(is_digit(chars@[i as int]));
        let d: u8 = (c as u32 - 48) as u8;
        assert(d == digit_value(c));
        out.push(d);
        assert(out@ =~= old(out)@ + digit_values(chars@.subrange(from as int, i + 1)));
        i += 1;
    }
}

/// The keyword that the word is, or `Identifier`.
fn keyword_type(word: &String) -> (r: TokenKind)
    ensures
        r == keyword_kind(word@),
{
    if *word == String::from_str("and") {
        TokenKind::And
    } else if *word == String::from_str("class") {
        TokenKind::Class
    } else if *word == String::from_str("else") {
        TokenKind::Else
    } else if *word == String::from_str("false") {
        TokenKind::False
    } else if *word == String::from_str("func") {
        TokenKind::Func
    } else if *word == String::from_str("if") {
        TokenKind::If
    } else if *word == String::from_str("nil") {
        TokenKind::Nil
    } else if *word == String::from_str("or") {
        TokenKind::Or
    } else if *word == String::from_str("print") {
        TokenKind::Print
    } else if *word == String::from_str("return") {
        TokenKind::Return
    } else if *word == String::from_str("super") {
        TokenKind::Super
    } else if *word == String::from_str("this") {
        TokenKind::This
    } else if *word == String::from_str("true") {
        TokenKind::True
    } else if *word == String::from_str("var") {
        TokenKind::Var
    } else if *word == String::from_str("while") {
        TokenKind::While
    } else {
        TokenKind::Identifier
    }
}

/// The scanner: the source text, the tokens found so far, and the cursor.
pub struct Scanner {
    /// The characters of the source text.
    pub chars: Vec<char>,
    /// The tokens scanned so far.
    pub tokens: Vec<Token>,
    /// Where the lexeme being scanned starts.
    pub start: usize,
    /// The character considered next.
    pub current: usize,
    /// The line that character is on.
    pub line: usize,
}

impl Scanner {
    /// The source text.
    pub open spec fn source(&self) -> Seq<char> {
        self.chars@
    }

    /// The index of the character considered next.
    pub open spec fn position(&self) -> int {
        self.current as int
    }

    /// The line that character is on.
    pub open spec fn line_number(&self) -> nat {
        self.line as nat
    }

    /// The tokens scanned so far.
    pub open spec fn scanned(&self) -> Seq<TokenView> {
        token_views(self.tokens@)
    }

    /// The cursor is inside the text, and the line count fits the machine.
    pub open spec fn wf(&self) -> bool {
        &&& self.start <= self.current <= self.chars.len()
        &&& self.chars.len() < usize::MAX
        &&& 1 <= self.line <= self.current + 1
    }

    /// A scanner at the start of `src`.
    pub fn new(src: String) -> (r: Scanner)
        requires
            src@.len() < usize::MAX,
        ensures
            r.wf(),
            r.source() == src@,
            r.position() == 0,
            r.line_number() == 1,
            r.scanned() == Seq::<TokenView>::empty(),
            r.tokens@.len() == 0,
            r.start == 0,
    {
        let mut chars: Vec<char> = Vec::new();
        for c in it: src.as_str().chars()
            invariant
                it.seq() == src@,
                chars@ == it.history(),
        {
            chars.push(c);
        }
        assert(chars@ =~= src@);
        let r = Scanner { chars, tokens: Vec::new(), start: 0, current: 0, line: 1 };
        assert(r.scanned() =~= Seq::<TokenView>::empty());
        r
    }

    /// Hands out the tokens scanned so far.
    pub fn into_tokens(self) -> (r: Vec<Token>)
        ensures
            r == self.tokens,
    {
        self.tokens
    }

    fn is_at_end(&self) -> (r: bool)
        ensures
            r == (self.current >= self.chars.len()),
    {
        self.current >= self.chars.len()
    }

    fn advance(&mut self) -> (c: char)
        requires
            old(self).wf(),
            old(self).current < old(self).chars.len(),
        ensures
            final(self).wf(),
            c == old(self).chars@[old(self).current as int],
            final(self).current == old(self).current + 1,
            final(self).chars == old(self).chars,
            final(self).tokens == old(self).tokens,
            final(self).start == old(self).start,
            final(self).line == old(self).line,
    {
        let c = self.chars[self.current];
        self.current += 1;
        c
    }

    /// The character at the cursor, or `'\0'` behind the end of the text.
    fn peek(&self) -> (c: char)
        ensures
            c == if self.current < self.chars.len() {
                self.chars@[self.current as int]
            } else {
                '\0'
            },
    {
        if self.is_at_end() {
            '\0'
        } else {
            self.chars[self.current]
        }
    }

    /// The character behind the cursor's, or `'\0'` behind the end of the
    /// text.
    fn peek_next(&self) -> (c: char)
        requires
            self.wf(),
        ensures
            c == if self.current + 1 < self.chars.len() {
                self.chars@[self.current + 1]
            } else {
                '\0'
            },
    {
        let idx: usize = self.current + 1;
        if idx >= self.chars.len() {
            '\0'
        } else {
            self.chars[idx]
        }
    }

    /// Consumes the character at the cursor if it is `expected`.
    fn next_is(&mut self, expected: char) -> (r: bool)
        requires
            old(self).wf(),
        ensures
            final(self).wf(),
            r == (old(self).current < old(self).chars.len() && old(self).chars@[old(
                self,
            ).current as int] == expected),
            final(self).current == old(self).current + if r {
                1int
            } else {
                0int
            },
            final(self).chars == old(self).chars,
            final(self).tokens == old(self).tokens,
            final(self).start == old(self).start,
            final(self).line == old(self).line,
    {
        if self.is_at_end() {
            return false;
        }
        if self.chars[self.current] != expected {
            return false;
        }
        self.current += 1;
        true
    }

    /// Appends the token that spans the current lexeme.
    fn add_token_literal(&mut self, kind: TokenKind, literal: Option<Literal>)
        requires
            old(self).wf(),
        ensures
            final(self).wf(),
            final(self).chars == old(self).chars,
            final(self).start == old(self).start,
            final(self).current == old(self).current,
            final(self).line == old(self).line,
            token_views(final(self).tokens@) == token_views(old(self).tokens@).push(
                TokenView {
                    kind,
                    lexeme: old(self).chars@.subrange(
                        old(self).start as int,
                        old(self).current as int,
                    ),
                    literal: crate::token::literal_view(literal),
                    line: old(self).line as nat,
                },
            ),
    {
        let text = substring(&self.chars, self.start, self.current);
        let token = Token::new(kind, text, literal, self.line);
        self.tokens.push(token);
        assert(token_views(self.tokens@) =~= token_views(old(self).tokens@).push(token@));
    }

    fn add_token(&mut self, kind: TokenKind)
        requires
            old(self).wf(),
        ensures
            final(self).wf(),
            final(self).chars == old(self).chars,
            final(self).start == old(self).start,
            final(self).current == old(self).current,
            final(self).line == old(self).line,
            token_views(final(self).tokens@) == token_views(old(self).tokens@).push(
                TokenView {
                    kind,
                    lexeme: old(self).chars@.subrange(
                        old(self).start as int,
                        old(self).current as int,
                    ),
                    literal: None,
                    line: old(self).line as nat,
                },
            ),
    {
        self.add_token_literal(kind, None);
    }

    /// Whether the scanner `self`, having taken the step `step` from the
    /// state `before`, is where the step leads and answers `r`: the text and
    /// the start of the lexeme are as before, the cursor and the line are
    /// where the step ends, also where it fails, and the tokens are those
    /// scanned before, with the step's token behind them if it found one.
    pub open spec fn follows(&self, before: &Scanner, step: Lexed, r: Result<(), LexError>) -> bool {
        &&& self.wf()
        &&& self.chars == before.chars
        &&& self.start == before.start
        &&& match step {
            Lexed::Token { token, next, line } => {
                &&& r is Ok
                &&& self.scanned() == before.scanned().push(token)
                &&& self.current == next
                &&& self.line == line
            },
            Lexed::Skip { next, line } => {
                &&& r is Ok
                &&& self.scanned() == before.scanned()
                &&& self.current == next
                &&& self.line == line
            },
            Lexed::Fail { error, next, line } => {
                &&& r == Err::<(), LexError>(error)
                &&& self.scanned() == before.scanned()
                &&& self.current == next
                &&& self.line == line
            },
        }
    }

    /// Scans what follows a `/`: a comment or the division operator.
    #[verifier::loop_isolation(false)]
    fn scan_slash(&mut self) -> (r: Result<(), LexError>)
        requires
            old(self).wf(),
            old(self).current == old(self).start + 1,
            old(self).chars@[old(self).start as int] == '/',
        ensures
            final(self).follows(
                old(self),
                lex_slash(old(self).chars@, old(self).start as int, old(self).line as nat),
                r,
            ),
    {
        let ghost s = self.chars@;
        let ghost pos = self.start as int;
        let ghost line0 = self.line as nat;
        let c = self.peek();
        if c == '/' {
            self.advance();
            while !self.is_at_end() && self.peek() != '\n'
                invariant
                    self.wf(),
                    self.chars@ == s,
                    self.chars == old(self).chars,
                    self.tokens == old(self).tokens,
                    self.start == old(self).start,
                    self.line == line0,
                    pos + 2 <= self.current <= s.len(),
                    run_end(s, pos + 2, not_newline()) == run_end(
                        s,
                        self.current as int,
                        not_newline(),
                    ),
                decreases s.len() - self.current,
            {
                self.advance();
            }
            Ok(())
        } else if c == '*' {
            let opened = Position { line: self.line, column: self.start };
            self.advance();
            let mut depth: usize = 1;
            proof {
                lemma_newlines_step(s, pos, pos);
                lemma_newlines_step(s, pos, pos + 1);
                assert(s.subrange(pos, pos) =~= Seq::<char>::empty());
            }
            while depth != 0 && !self.is_at_end()
                invariant
                    self.wf(),
                    self.chars@ == s,
                    self.chars == old(self).chars,
                    self.tokens == old(self).tokens,
                    self.start == old(self).start,
                    pos + 2 <= self.current <= s.len(),
                    depth <= self.current,
                    self.line == line0 + newlines(s.subrange(pos, self.current as int)),
                    comment_end(s, pos + 2, 1) == if depth == 0 {
                        Some(self.current as int)
                    } else {
                        comment_end(s, self.current as int, depth as nat)
                    },
                decreases s.len() - self.current,
            {
                let c = self.peek();
                proof {
                    lemma_newlines_step(s, pos, self.current as int);
                    if self.current + 1 < s.len() {
                        lemma_newlines_step(s, pos, self.current + 1);
                    }
                }
                if c == '*' && self.peek_next() == '/' {
                    depth -= 1;
                    self.advance();
                    self.advance();
                } else if c == '/' && self.peek_next() == '*' {
                    depth += 1;
                    self.advance();
                    self.advance();
                } else {
                    self.advance();
                    if c == '\n' {
                        self.line += 1;
                    }
                }
            }
            if depth != 0 {
                Err(LexError::UnterminatedComment(opened))
            } else {
                Ok(())
            }
        } else {
            self.add_token(TokenKind::Slash);
            Ok(())
        }
    }

    /// Scans a string literal whose opening quote has been consumed.
    #[verifier::loop_isolation(false)]
    fn scan_string(&mut self) -> (r: Result<(), LexError>)
        requires
            old(self).wf(),
            old(self).current == old(self).start + 1,
            old(self).chars@[old(self).start as int] == '"',
        ensures
            final(self).follows(
                old(self),
                lex_string(old(self).chars@, old(self).start as int, old(self).line as nat),
                r,
            ),
    {
        let ghost s = self.chars@;
        let ghost pos = self.start as int;
        let ghost line0 = self.line as nat;
        let start_line = self.line;
        proof {
            lemma_newlines_step(s, pos, pos);
            assert(s.subrange(pos, pos) =~= Seq::<char>::empty());
        }
        while !self.is_at_end() && self.peek() != '"'
            invariant
                self.wf(),
                self.chars@ == s,
                self.chars == old(self).chars,
                self.tokens == old(self).tokens,
                self.start == old(self).start,
                pos + 1 <= self.current <= s.len(),
                self.line == line0 + newlines(s.subrange(pos, self.current as int)),
                run_end(s, pos + 1, not_quote()) == run_end(s, self.current as int, not_quote()),
            decreases s.len() - self.current,
        {
            proof {
                lemma_newlines_step(s, pos, self.current as int);
            }
            let c = self.advance();
            if c == '\n' {
                self.line += 1;
            }
        }
        if self.is_at_end() {
            return Err(
                LexError::UnterminatedString(Position { line: start_line, column: self.start }),
            );
        }
        proof {
            lemma_newlines_step(s, pos, self.current as int);
        }
        self.advance();
        let text = substring(&self.chars, self.start + 1, self.current - 1);
        self.add_token_literal(TokenKind::String, Some(Literal::String(text)));
        Ok(())
    }

    /// Scans a number literal whose first digit has been consumed.
    #[verifier::loop_isolation(false)]
    fn scan_number(&mut self) -> (r: Result<(), LexError>)
        requires
            old(self).wf(),
            old(self).current == old(self).start + 1,
            is_digit(old(self).chars@[old(self).start as int]),
        ensures
            final(self).follows(
                old(self),
                lex_number(old(self).chars@, old(self).start as int, old(self).line as nat),
                r,
            ),
    {
        let ghost s = self.chars@;
        let ghost pos = self.start as int;
        while is_decimal_digit(self.peek())
            invariant
                self.wf(),
                self.chars@ == s,
                self.chars == old(self).chars,
                self.tokens == old(self).tokens,
                self.start == old(self).start,
                self.line == old(self).line,
                pos + 1 <= self.current <= s.len(),
                run_end(s, pos, digit()) == run_end(s, self.current as int, digit()),
            decreases s.len() - self.current,
        {
            self.advance();
        }
        let whole: usize = self.current;
        let mut written: Vec<u8> = Vec::new();
        proof {
            lemma_run_end_holds(s, pos, digit());
        }
        collect_digits(&self.chars, self.start, whole, &mut written);
        assert(written@ =~= digit_values(s.subrange(pos, whole as int)));
        let mut places: usize = 0;
        if self.peek() == '.' && is_decimal_digit(self.peek_next()) {
            self.advance();
            while is_decimal_digit(self.peek())
                invariant
                    self.wf(),
                    self.chars@ == s,
                    self.chars == old(self).chars,
                    self.tokens == old(self).tokens,
                    self.start == old(self).start,
                    self.line == old(self).line,
                    whole + 1 <= self.current <= s.len(),
                    run_end(s, whole + 1, digit()) == run_end(s, self.current as int, digit()),
                decreases s.len() - self.current,
            {
                self.advance();
            }
            proof {
                lemma_run_end_holds(s, whole + 1, digit());
            }
            collect_digits(&self.chars, whole + 1, self.current, &mut written);
            assert(written@ =~= digit_values(
                s.subrange(pos, whole as int) + s.subrange(whole + 1, self.current as int),
            ));
            places = self.current - whole - 1;
        }
        let number = Number::from_decimal(&written, places);
        self.add_token_literal(TokenKind::Number, Some(Literal::Number(number)));
        Ok(())
    }

    /// Scans an identifier or keyword whose first character has been
    /// consumed.
    #[verifier::loop_isolation(false)]
    fn scan_word(&mut self) -> (r: Result<(), LexError>)
        requires
            old(self).wf(),
            old(self).current == old(self).start + 1,
        ensures
            final(self).follows(
                old(self),
                lex_word(old(self).chars@, old(self).start as int, old(self).line as nat),
                r,
            ),
    {
        let ghost s = self.chars@;
        let ghost pos = self.start as int;
        while !self.is_at_end() && continues_word(self.peek(), is_alphanumeric(self.peek()))
            invariant
                self.wf(),
                self.chars@ == s,
                self.chars == old(self).chars,
                self.tokens == old(self).tokens,
                self.start == old(self).start,
                self.line == old(self).line,
                pos + 1 <= self.current <= s.len(),
                run_end(s, pos + 1, word_part()) == run_end(s, self.current as int, word_part()),
            decreases s.len() - self.current,
        {
            self.advance();
        }
        let text = substring(&self.chars, self.start, self.current);
        self.add_token(keyword_type(&text));
        Ok(())
    }

    /// Scans the operator `single`, or `double` if `=` follows.
    fn scan_doubled(&mut self, single: TokenKind, double: TokenKind) -> (r: Result<(), LexError>)
        requires
            old(self).wf(),
            old(self).current == old(self).start + 1,
        ensures
            final(self).follows(
                old(self),
                doubled(
                    old(self).chars@,
                    old(self).start as int,
                    old(self).line as nat,
                    single,
                    double,
                ),
                r,
            ),
    {
        if self.next_is('=') {
            self.add_token(double);
        } else {
            self.add_token(single);
        }
        Ok(())
    }

    /// Scans the operator or punctuation mark of one character that has
    /// been consumed.
    fn scan_single(&mut self, kind: TokenKind) -> (r: Result<(), LexError>)
        requires
            old(self).wf(),
            old(self).current == old(self).start + 1,
        ensures
            final(self).follows(
                old(self),
                plain(
                    old(self).chars@,
                    old(self).start as int,
                    old(self).start + 1,
                    old(self).line as nat,
                    kind,
                ),
                r,
            ),
    {
        self.add_token(kind);
        Ok(())
    }

    /// Takes one step: scans the token, white space or comment at the
    /// cursor.
    fn scan_token(&mut self) -> (r: Result<(), LexError>)
        requires
            old(self).wf(),
            old(self).current < old(self).chars.len(),
            old(self).start == old(self).current,
        ensures
            final(self).follows(
                old(self),
                lex_step(old(self).chars@, old(self).current as int, old(self).line as nat),
                r,
            ),
            old(self).current < final(self).current <= final(self).chars.len(),
            final(self).line >= old(self).line,
    {
        proof {
            lemma_lex_step_advances(
                old(self).chars@,
                old(self).current as int,
                old(self).line as nat,
            );
        }
        let c = self.advance();
        match classify(c, is_whitespace(c), is_alphabetic(c)) {
            Start::Single(kind) => self.scan_single(kind),
            Start::Doubled(single, double) => self.scan_doubled(single, double),
            Start::Slash => self.scan_slash(),
            Start::Newline => {
                self.line += 1;
                Ok(())
            },
            Start::Quote => self.scan_string(),
            Start::Digit => self.scan_number(),
            Start::Space => Ok(()),
            Start::Word => self.scan_word(),
            Start::Other => Err(
                LexError::UnexpectedCharacter(Position { line: self.line, column: self.start }),
            ),
        }
    }

    /// Scans the rest of the text. The tokens found are appended to those
    /// scanned before; a scan that reaches the end of the text appends the
    /// end-of-file token, one that cannot go on returns the error and keeps
    /// the tokens found before it.
    #[verifier::loop_isolation(false)]
    pub fn scan_tokens(&mut self) -> (r: Result<(), LexError>)
        requires
            old(self).wf(),
        ensures
            final(self).wf(),
            final(self).source() == old(self).source(),
            final(self).scanned() == old(self).scanned() + scan_from(
                old(self).source(),
                old(self).position(),
                old(self).line_number(),
            ).tokens,
            r == match scan_from(
                old(self).source(),
                old(self).position(),
                old(self).line_number(),
            ).error {
                Some(e) => Err::<(), LexError>(e),
                None => Ok::<(), LexError>(()),
            },
            final(self).position() == scan_from(
                old(self).source(),
                old(self).position(),
                old(self).line_number(),
            ).position,
            final(self).line_number() == scan_from(
                old(self).source(),
                old(self).position(),
                old(self).line_number(),
            ).line,
            final(self).start == match scan_from(
                old(self).source(),
                old(self).position(),
                old(self).line_number(),
            ).start {
                Some(start) => start,
                None => old(self).start as int,
            },
    {
        let ghost s = self.chars@;
        let ghost total = scan_from(s, self.current as int, self.line as nat);
        assert(old(self).scanned() + total.tokens =~= self.scanned() + total.tokens);
        while !self.is_at_end()
            invariant
                self.wf(),
                self.chars@ == s,
                old(self).scanned() + total.tokens == self.scanned() + scan_from(
                    s,
                    self.current as int,
                    self.line as nat,
                ).tokens,
                total.error == scan_from(s, self.current as int, self.line as nat).error,
                total.position == scan_from(s, self.current as int, self.line as nat).position,
                total.line == scan_from(s, self.current as int, self.line as nat).line,
                match scan_from(s, self.current as int, self.line as nat).start {
                    Some(start) => total.start == Some(start),
                    None => total.start == Some(self.start as int) || (total.start is None
                        && self.start == old(self).start),
                },
            decreases s.len() - self.current,
        {
            self.start = self.current;
            let ghost before = *self;
            let ghost step = lex_step(s, self.current as int, self.line as nat);
            proof {
                lemma_lex_step_advances(s, self.current as int, self.line as nat);
            }
            let r = self.scan_token();
            match r {
                Err(e) => {
                    assert(old(self).scanned() + total.tokens =~= self.scanned());
                    assert(self.scanned() + Seq::<TokenView>::empty() =~= self.scanned());
                    return Err(e);
                },
                Ok(_) => {
                    proof {
                        let rest = scan_from(s, self.current as int, self.line as nat);
                        match step {
                            Lexed::Token { token, next, line } => {
                                assert(before.scanned() + (seq![token] + rest.tokens)
                                    =~= before.scanned().push(token) + rest.tokens);
                            },
                            _ => {},
                        }
                    }
                },
            }
        }
        let eof = Token::new(TokenKind::Eof, String::new(), None, self.line);
        let ghost before = self.scanned();
        self.tokens.push(eof);
        assert(self.scanned() =~= before + seq![eof_token(self.line as nat)]);
        Ok(())
    }
}

} // verus!
