use vstd::prelude::*;
use crate::lexer_token::Token;
use crate::lexer_token::TokenType;
use crate::lexer_token::TokenView;
use crate::lexer_token::tokens_view;

verus! {

// ---------------------------------------------------------------------------
// The lexical grammar, over the characters of the source.
// ---------------------------------------------------------------------------

pub open spec fn is_digit_char(c: char) -> bool {
    '0' <= c && c <= '9'
}

pub open spec fn is_alpha_char(c: char) -> bool {
    ('a' <= c && c <= 'z') || ('A' <= c && c <= 'Z')
}

/// A character that may continue an identifier.
pub open spec fn is_word_char(c: char) -> bool {
    c == '_' || is_digit_char(c) || is_alpha_char(c)
}

/// End of the run of digits that starts at `i`.
pub open spec fn digits_end(s: Seq<char>, i: int) -> int
    decreases s.len() - i,
{
    if 0 <= i < s.len() && is_digit_char(s[i]) {
        digits_end(s, i + 1)
    } else {
        i
    }
}

/// End of the run of identifier characters that starts at `i`.
pub open spec fn word_end(s: Seq<char>, i: int) -> int
    decreases s.len() - i,
{
    if 0 <= i < s.len() && is_word_char(s[i]) {
        word_end(s, i + 1)
    } else {
        i
    }
}

/// The first newline at or after `i`, or the end of the source.
pub open spec fn comment_end(s: Seq<char>, i: int) -> int
    decreases s.len() - i,
{
    if 0 <= i < s.len() && s[i] != '\n' {
        comment_end(s, i + 1)
    } else {
        i
    }
}

/// The first double quote at or after `i`, or the end of the source.
pub open spec fn closing_quote(s: Seq<char>, i: int) -> int
    decreases s.len() - i,
{
    if 0 <= i < s.len() && s[i] != '"' {
        closing_quote(s, i + 1)
    } else {
        i
    }
}

/// The end of each run lies between its start and the end of the source.
pub proof fn lemma_run_ends(s: Seq<char>, i: int)
    requires
        0 <= i <= s.len(),
    ensures
        i <= digits_end(s, i) <= s.len(),
        i <= word_end(s, i) <= s.len(),
        i <= comment_end(s, i) <= s.len(),
        i <= closing_quote(s, i) <= s.len(),
    decreases s.len() - i,
{
    if i < s.len() {
        lemma_run_ends(s, i + 1);
    }
}

/// A number literal ends between its start and the end of the source.
pub proof fn lemma_number_end(s: Seq<char>, i: int)
    requires
        0 <= i <= s.len(),
    ensures
        i <= number_end(s, i) <= s.len(),
{
    lemma_run_ends(s, i);
    let j = digits_end(s, i);
    if 0 <= j < s.len() && s[j] == '.' {
        lemma_run_ends(s, j + 1);
    }
}

/// End of a number literal whose digits continue at `i`: more digits, then
/// optionally a dot and the digits after it.
pub open spec fn number_end(s: Seq<char>, i: int) -> int {
    let j = digits_end(s, i);
    if 0 <= j < s.len() && s[j] == '.' {
        digits_end(s, j + 1)
    } else {
        j
    }
}

/// The number of newline characters in `t`.
pub open spec fn newlines(t: Seq<char>) -> nat
    decreases t.len(),
{
    if t.len() == 0 {
        0
    } else {
        newlines(t.drop_last()) + (if t.last() == '\n' {
            1nat
        } else {
            0nat
        })
    }
}

/// The reserved words, and `Identifier` for every other word.
pub open spec fn keyword_kind(w: Seq<char>) -> TokenType {
    if w == seq!['a', 'n', 'd'] {
        TokenType::And
    } else if w == seq!['o', 'r'] {
        TokenType::Or
    } else if w == seq!['t', 'r', 'u', 'e'] {
        TokenType::True
    } else if w == seq!['f', 'a', 'l', 's', 'e'] {
        TokenType::False
    } else if w == seq!['f', 'u', 'n'] {
        TokenType::Fun
    } else if w == seq!['l', 'e', 't'] {
        TokenType::Let
    } else if w == seq!['f', 'o', 'r'] {
        TokenType::For
    } else if w == seq!['w', 'h', 'i', 'l', 'e'] {
        TokenType::While
    } else if w == seq!['i', 'f'] {
        TokenType::If
    } else if w == seq!['e', 'l', 's', 'e'] {
        TokenType::Else
    } else if w == seq!['r', 'e', 't', 'u', 'r', 'n'] {
        TokenType::Return
    } else if w == seq!['n', 'i', 'l'] {
        TokenType::Nil
    } else if w == seq!['s', 't', 'r', 'u', 'c', 't'] {
        TokenType::Struct
    } else if w == seq!['e', 'n', 'u', 'm'] {
        TokenType::Enum
    } else {
        TokenType::Identifier
    }
}

/// Tokens made of one character that never combines with the next.
pub open spec fn single_char_kind(c: char) -> Option<TokenType> {
    if c == '(' {
        Some(TokenType::LeftParen)
    } else if c == ')' {
        Some(TokenType::RightParen)
    } else if c == '{' {
        Some(TokenType::LeftBrace)
    } else if c == '}' {
        Some(TokenType::RightBrace)
    } else if c == ',' {
        Some(TokenType::Comma)
    } else if c == '.' {
        Some(TokenType::Dot)
    } else if c == '-' {
        Some(TokenType::Minus)
    } else if c == '+' {
        Some(TokenType::Plus)
    } else if c == ';' {
        Some(TokenType::Semicolon)
    } else if c == '*' {
        Some(TokenType::Star)
    } else {
        None
    }
}

/// Operators that become a two-character token when followed by `=`:
/// the kind alone, and the kind with the `=`.
pub open spec fn equal_pair_kind(c: char) -> Option<(TokenType, TokenType)> {
    if c == '!' {
        Some((TokenType::Bang, TokenType::BangEqual))
    } else if c == '=' {
        Some((TokenType::Equal, TokenType::EqualEqual))
    } else if c == '>' {
        Some((TokenType::Greater, TokenType::GreaterEqual))
    } else if c == '<' {
        Some((TokenType::Less, TokenType::LessEqual))
    } else {
        None
    }
}

pub open spec fn next_char_is(s: Seq<char>, pos: int, c: char) -> bool {
    pos + 1 < s.len() && s[pos + 1] == c
}

/// The token whose text is `s[from..to]`.
pub open spec fn slice_token(s: Seq<char>, from: int, to: int, kind: TokenType, line: nat) -> TokenView {
    TokenView { lexeme: s.subrange(from, to), token: kind, line: line }
}

pub open spec fn eof_token(line: nat) -> TokenView {
    TokenView { lexeme: Seq::empty(), token: TokenType::Eof, line: line }
}

/// What the lexer does at one position.
pub enum Scan {
    /// A token, the position after it and the line counter after it.
    Emit(TokenView, int, nat),
    /// No token; the position and line counter to go on from.
    Skip(int, nat),
    /// The lexer makes no progress here: an unknown character, or an opening
    /// quote that is the last character of the source.
    Stuck,
}

/// One step of the lexer at `pos` (with `pos` inside the source).
pub open spec fn scan_one(s: Seq<char>, pos: int, line: nat) -> Scan {
    let c = s[pos];
    if single_char_kind(c) is Some {
        Scan::Emit(slice_token(s, pos, pos + 1, single_char_kind(c).unwrap(), line), pos + 1, line)
    } else if equal_pair_kind(c) is Some {
        let (one, two) = equal_pair_kind(c).unwrap();
        if next_char_is(s, pos, '=') {
            Scan::Emit(slice_token(s, pos, pos + 2, two, line), pos + 2, line)
        } else {
            Scan::Emit(slice_token(s, pos, pos + 1, one, line), pos + 1, line)
        }
    } else if c == '\r' || c == '\t' || c == ' ' {
        Scan::Skip(pos + 1, line)
    } else if c == '\n' {
        Scan::Skip(pos + 1, line + 1)
    } else if c == '"' {
        let close = closing_quote(s, pos + 1);
        if close < s.len() {
            let l = line + newlines(s.subrange(pos + 1, close));
            Scan::Emit(slice_token(s, pos + 1, close, TokenType::String, l), close + 1, l)
        } else if pos + 1 < s.len() {
            // unterminated: the last character is scanned again
            Scan::Skip(s.len() - 1, line + newlines(s.subrange(pos + 1, s.len() as int)))
        } else {
            Scan::Stuck
        }
    } else if c == '/' {
        if next_char_is(s, pos, '/') {
            Scan::Skip(comment_end(s, pos + 2), line)
        } else {
            Scan::Emit(slice_token(s, pos, pos + 1, TokenType::Slash, line), pos + 1, line)
        }
    } else if is_digit_char(c) {
        let e = number_end(s, pos + 1);
        Scan::Emit(slice_token(s, pos, e, TokenType::Number, line), e, line)
    } else if is_alpha_char(c) || c == '_' {
        let e = word_end(s, pos + 1);
        Scan::Emit(slice_token(s, pos, e, keyword_kind(s.subrange(pos, e)), line), e, line)
    } else {
        Scan::Stuck
    }
}

/// The tokens of `s` from `pos` on, with the line counter at `line`, ending
/// with `Eof`; `None` when the lexer gets stuck.
pub open spec fn scan_from(s: Seq<char>, pos: int, line: nat) -> Option<Seq<TokenView>>
    decreases s.len() - pos,
{
    if pos < 0 {
        None
    } else if pos >= s.len() {
        Some(seq![eof_token(line)])
    } else {
        match scan_one(s, pos, line) {
            Scan::Emit(t, next, l) => if pos < next <= s.len() {
                match scan_from(s, next, l) {
                    Some(rest) => Some(seq![t] + rest),
                    None => None,
                }
            } else {
                None
            },
            Scan::Skip(next, l) => if pos < next <= s.len() {
                scan_from(s, next, l)
            } else {
                None
            },
            Scan::Stuck => None,
        }
    }
}

/// The tokens of a whole source.
pub open spec fn scan_source(s: Seq<char>) -> Option<Seq<TokenView>> {
    scan_from(s, 0, 1)
}

// ---------------------------------------------------------------------------
// Laws of the token sequence.
// ---------------------------------------------------------------------------

/// The kind of token one step of the lexer emits is never `Eof`, and is
/// `Identifier` only for a word that is no keyword.
pub proof fn lemma_scan_one_kind(s: Seq<char>, pos: int, line: nat)
    requires
        0 <= pos < s.len(),
    ensures
        scan_one(s, pos, line) matches Scan::Emit(t, next, l) ==> {
            &&& t.token != TokenType::Eof
            &&& t.token == TokenType::Identifier ==> keyword_kind(t.lexeme) == TokenType::Identifier
            &&& t.line == l
            &&& line <= l
        },
        scan_one(s, pos, line) matches Scan::Skip(next, l) ==> line <= l,
{
}

/// A letter `a`-`z` or `A`-`Z`, a digit or `_`: the characters of a name.
pub open spec fn name_char(c: char) -> bool {
    ('a' <= c && c <= 'z') || ('A' <= c && c <= 'Z') || ('0' <= c && c <= '9') || c == '_'
}

proof fn lemma_word_end_at(s: Seq<char>, i: int, e: int)
    requires
        0 <= i <= e <= s.len(),
        forall|k: int| i <= k < e ==> name_char(#[trigger] s[k]),
        e == s.len() || !name_char(s[e]),
    ensures
        word_end(s, i) == e,
    decreases e - i,
{
    if i < e {
        lemma_word_end_at(s, i + 1, e);
    }
}

/// Names: at a letter of either case or `_`, the lexer emits one token that
/// spans the whole run of letters, digits and underscores from there, the
/// keyword that the word is, or an identifier.
pub proof fn lemma_name_scans_as_one_token(s: Seq<char>, pos: int, e: int, line: nat)
    requires
        0 <= pos < e <= s.len(),
        ('a' <= s[pos] && s[pos] <= 'z') || ('A' <= s[pos] && s[pos] <= 'Z') || s[pos] == '_',
        forall|k: int| pos <= k < e ==> name_char(#[trigger] s[k]),
        e == s.len() || !name_char(s[e]),
    ensures
        scan_one(s, pos, line) == Scan::Emit(
            TokenView { lexeme: s.subrange(pos, e), token: keyword_kind(s.subrange(pos, e)), line: line },
            e,
            line,
        ),
{
    lemma_word_end_at(s, pos + 1, e);
}

proof fn lemma_digits_end_at(s: Seq<char>, i: int, e: int)
    requires
        0 <= i <= e <= s.len(),
        forall|k: int| i <= k < e ==> '0' <= #[trigger] s[k] && s[k] <= '9',
        e == s.len() || !('0' <= s[e] && s[e] <= '9'),
    ensures
        digits_end(s, i) == e,
    decreases e - i,
{
    if i < e {
        lemma_digits_end_at(s, i + 1, e);
    }
}

/// Number literals: at a digit, the lexer emits one `Number` token spanning
/// the digits from there, and, where a dot follows them, the dot and the
/// digits after it.
pub proof fn lemma_number_scans_as_one_token(s: Seq<char>, pos: int, d: int, e: int, line: nat)
    requires
        0 <= pos < d <= e <= s.len(),
        forall|k: int| pos <= k < d ==> '0' <= #[trigger] s[k] && s[k] <= '9',
        d == s.len() || !('0' <= s[d] && s[d] <= '9'),
        (d < s.len() && s[d] == '.') ==> {
            &&& d < e
            &&& forall|k: int| d < k < e ==> '0' <= #[trigger] s[k] && s[k] <= '9'
            &&& e == s.len() || !('0' <= s[e] && s[e] <= '9')
        },
        !(d < s.len() && s[d] == '.') ==> e == d,
    ensures
        scan_one(s, pos, line) == Scan::Emit(
            TokenView { lexeme: s.subrange(pos, e), token: TokenType::Number, line: line },
            e,
            line,
        ),
{
    lemma_digits_end_at(s, pos + 1, d);
    if d < s.len() && s[d] == '.' {
        lemma_digits_end_at(s, d + 1, e);
    }
}

proof fn lemma_closing_quote_at(s: Seq<char>, i: int, q: int)
    requires
        0 <= i <= q < s.len(),
        forall|k: int| i <= k < q ==> #[trigger] s[k] != '"',
        s[q] == '"',
    ensures
        closing_quote(s, i) == q,
    decreases q - i,
{
    if i < q {
        lemma_closing_quote_at(s, i + 1, q);
    }
}

/// String literals: at a double quote whose string closes at `q`, the
/// lexer emits a `String` token of the characters between the quotes (the
/// quotes left out), goes on after the closing quote, and counts the
/// newlines inside.
pub proof fn lemma_string_scans_as_one_token(s: Seq<char>, pos: int, q: int, line: nat)
    requires
        0 <= pos < q < s.len(),
        s[pos] == '"',
        s[q] == '"',
        forall|k: int| pos < k < q ==> #[trigger] s[k] != '"',
    ensures
        scan_one(s, pos, line) == Scan::Emit(
            TokenView {
                lexeme: s.subrange(pos + 1, q),
                token: TokenType::String,
                line: line + newlines(s.subrange(pos + 1, q)),
            },
            q + 1,
            line + newlines(s.subrange(pos + 1, q)),
        ),
{
    lemma_closing_quote_at(s, pos + 1, q);
}

proof fn lemma_comment_end_at(s: Seq<char>, i: int, j: int)
    requires
        0 <= i <= j <= s.len(),
        forall|k: int| i <= k < j ==> #[trigger] s[k] != '\n',
        j == s.len() || s[j] == '\n',
    ensures
        comment_end(s, i) == j,
    decreases j - i,
{
    if i < j {
        lemma_comment_end_at(s, i + 1, j);
    }
}

/// Comments: two slashes skip everything up to the end of the line (the
/// newline itself is scanned next, and counted); a single slash is the
/// division operator.
pub proof fn lemma_comment_skips_to_line_end(s: Seq<char>, pos: int, j: int, line: nat)
    requires
        0 <= pos,
        pos + 2 <= j <= s.len(),
        s[pos] == '/',
        s[pos + 1] == '/',
        forall|k: int| pos + 2 <= k < j ==> #[trigger] s[k] != '\n',
        j == s.len() || s[j] == '\n',
    ensures
        scan_one(s, pos, line) == Scan::Skip(j, line),
{
    lemma_comment_end_at(s, pos + 2, j);
}

/// A slash not followed by another slash is the division operator.
pub proof fn lemma_single_slash_divides(s: Seq<char>, pos: int, line: nat)
    requires
        0 <= pos < s.len(),
        s[pos] == '/',
        pos + 1 == s.len() || s[pos + 1] != '/',
    ensures
        scan_one(s, pos, line) == Scan::Emit(
            TokenView { lexeme: seq!['/'], token: TokenType::Slash, line: line },
            pos + 1,
            line,
        ),
{
    assert(s.subrange(pos, pos + 1) =~= seq!['/']);
}

/// The comparison and assignment operators: `!`, `=`, `<`, `>` followed by
/// `=` make one two-character token (`!=`, `==`, `<=`, `>=`); otherwise the
/// character is a token of its own.
pub proof fn lemma_equal_operators(s: Seq<char>, pos: int, line: nat)
    requires
        0 <= pos < s.len(),
        s[pos] == '!' || s[pos] == '=' || s[pos] == '<' || s[pos] == '>',
    ensures
        ({
            let c = s[pos];
            let paired = pos + 1 < s.len() && s[pos + 1] == '=';
            let kind = if paired {
                if c == '!' {
                    TokenType::BangEqual
                } else if c == '=' {
                    TokenType::EqualEqual
                } else if c == '<' {
                    TokenType::LessEqual
                } else {
                    TokenType::GreaterEqual
                }
            } else {
                if c == '!' {
                    TokenType::Bang
                } else if c == '=' {
                    TokenType::Equal
                } else if c == '<' {
                    TokenType::Less
                } else {
                    TokenType::Greater
                }
            };
            let end = if paired {
                pos + 2
            } else {
                pos + 1
            };
            scan_one(s, pos, line) == Scan::Emit(
                TokenView { lexeme: s.subrange(pos, end), token: kind, line: line },
                end,
                line,
            )
        }),
{
}

/// Lines: a newline is skipped and adds one to the line counter; a space,
/// tab or carriage return is skipped and leaves it.
pub proof fn lemma_newline_counts_lines(s: Seq<char>, pos: int, line: nat)
    requires
        0 <= pos < s.len(),
        s[pos] == '\n' || s[pos] == ' ' || s[pos] == '\t' || s[pos] == '\r',
    ensures
        scan_one(s, pos, line) == Scan::Skip(pos + 1, if s[pos] == '\n' { line + 1 } else { line }),
{
}

/// A scan that finishes ends with exactly one `Eof`, the last token.
pub proof fn lemma_scan_ends_with_eof(s: Seq<char>, pos: int, line: nat)
    ensures
        scan_from(s, pos, line) matches Some(ts) ==> {
            &&& ts.len() >= 1
            &&& ts.last().token == TokenType::Eof
            &&& forall|i: int| 0 <= i < ts.len() - 1 ==> ts[i].token != TokenType::Eof
        },
    decreases s.len() - pos,
{
    if 0 <= pos < s.len() {
        lemma_scan_one_kind(s, pos, line);
        match scan_one(s, pos, line) {
            Scan::Emit(t, next, l) => {
                if pos < next <= s.len() {
                    lemma_scan_ends_with_eof(s, next, l);
                    match scan_from(s, next, l) {
                        Some(rest) => {
                            let ts = seq![t] + rest;
                            assert forall|i: int| 0 <= i < ts.len() - 1 implies ts[i].token != TokenType::Eof by {
                                if i > 0 {
                                    assert(ts[i] == rest[i - 1]);
                                }
                            }
                            assert(ts.last() == rest.last());
                        },
                        None => {},
                    }
                }
            },
            Scan::Skip(next, l) => {
                if pos < next <= s.len() {
                    lemma_scan_ends_with_eof(s, next, l);
                }
            },
            Scan::Stuck => {},
        }
    }
}

/// The line numbers of the tokens never decrease, and none is below the
/// line the scan started on.
pub proof fn lemma_scan_lines_ordered(s: Seq<char>, pos: int, line: nat)
    ensures
        scan_from(s, pos, line) matches Some(ts) ==> {
            &&& forall|i: int| 0 <= i < ts.len() ==> line <= #[trigger] ts[i].line
            &&& forall|i: int, j: int| 0 <= i <= j < ts.len() ==> ts[i].line <= ts[j].line
        },
    decreases s.len() - pos,
{
    if 0 <= pos < s.len() {
        lemma_scan_one_kind(s, pos, line);
        match scan_one(s, pos, line) {
            Scan::Emit(t, next, l) => {
                if pos < next <= s.len() {
                    lemma_scan_lines_ordered(s, next, l);
                    match scan_from(s, next, l) {
                        Some(rest) => {
                            let ts = seq![t] + rest;
                            assert forall|i: int| 0 <= i < ts.len() implies line <= #[trigger] ts[i].line by {
                                if i > 0 {
                                    assert(ts[i] == rest[i - 1]);
                                }
                            }
                            assert forall|i: int, j: int| 0 <= i <= j < ts.len() implies ts[i].line <= ts[j].line by {
                                if i > 0 {
                                    assert(ts[i] == rest[i - 1]);
                                }
                                if j > 0 {
                                    assert(ts[j] == rest[j - 1]);
                                    assert(l <= rest[j - 1].line);
                                }
                            }
                        },
                        None => {},
                    }
                }
            },
            Scan::Skip(next, l) => {
                if pos < next <= s.len() {
                    lemma_scan_lines_ordered(s, next, l);
                }
            },
            Scan::Stuck => {},
        }
    }
}

/// Keywords are never identifiers: a token of kind `Identifier` is a word
/// that is no reserved word.
pub proof fn lemma_scan_identifiers_not_keywords(s: Seq<char>, pos: int, line: nat)
    ensures
        scan_from(s, pos, line) matches Some(ts) ==> forall|i: int|
            0 <= i < ts.len() && #[trigger] ts[i].token == TokenType::Identifier ==> keyword_kind(
                ts[i].lexeme,
            ) == TokenType::Identifier,
    decreases s.len() - pos,
{
    if 0 <= pos < s.len() {
        lemma_scan_one_kind(s, pos, line);
        match scan_one(s, pos, line) {
            Scan::Emit(t, next, l) => {
                if pos < next <= s.len() {
                    lemma_scan_identifiers_not_keywords(s, next, l);
                    match scan_from(s, next, l) {
                        Some(rest) => {
                            let ts = seq![t] + rest;
                            assert forall|i: int|
                                0 <= i < ts.len() && #[trigger] ts[i].token == TokenType::Identifier implies keyword_kind(
                                ts[i].lexeme,
                            ) == TokenType::Identifier by {
                                if i > 0 {
                                    assert(ts[i] == rest[i - 1]);
                                }
                            }
                        },
                        None => {},
                    }
                }
            },
            Scan::Skip(next, l) => {
                if pos < next <= s.len() {
                    lemma_scan_identifiers_not_keywords(s, next, l);
                }
            },
            Scan::Stuck => {},
        }
    }
}

// ---------------------------------------------------------------------------
// The lexer.
// ---------------------------------------------------------------------------

/// Turns an ASCII source into tokens.
pub struct Lexer {
    source: String,
    line: usize,
    start: usize,
    current: usize,
}

fn is_digit(c: u8) -> (r: bool)
    ensures
        r == is_digit_char(c as char),
{
    48u8 <= c && c <= 57u8
}

fn is_alphabet(c: u8) -> (r: bool)
    ensures
        r == is_alpha_char(c as char),
{
    (97u8 <= c && c <= 122u8) || (65u8 <= c && c <= 90u8)
}

fn is_alphanum(c: u8) -> (r: bool)
    ensures
        r == (is_digit_char(c as char) || is_alpha_char(c as char)),
{
    is_digit(c) || is_alphabet(c)
}

impl Lexer {
    /// The source text.
    pub closed spec fn text(&self) -> Seq<char> {
        self.source@
    }

    /// The position of the next character to scan.
    pub closed spec fn position(&self) -> int {
        self.current as int
    }

    /// The current line counter.
    pub closed spec fn line_count(&self) -> nat {
        self.line as nat
    }

    /// The lexer's invariant.
    pub closed spec fn wf(&self) -> bool {
        &&& self.source.is_ascii()
        &&& self.source@.len() < usize::MAX
        &&& self.current <= self.source@.len()
        &&& self.line <= self.current + 1
    }

    /// A lexer at the start of `source`, on line 1. The source must be ASCII.
    pub fn new(source: String) -> (r: Self)
        requires
            source.is_ascii(),
            source@.len() < usize::MAX,
        ensures
            r.wf(),
            r.text() == source@,
            r.position() == 0,
            r.line_count() == 1,
    {
        Lexer { source, line: 1, start: 0, current: 0 }
    }

    fn byte_at(&self, i: usize) -> (b: u8)
        requires
            self.wf(),
            i < self.source@.len(),
        ensures
            b as char == self.source@[i as int],
            b < 128,
    {
        let b = self.source.as_str().get_ascii(i);
        proof {
            vstd::utf8::is_ascii_chars_nat_bound(self.source@);
            assert((self.source@[i as int] as nat) < 128);
        }
        b
    }

    fn is_at_end(&self) -> (r: bool)
        requires
            self.wf(),
        ensures
            r == (self.current >= self.source@.len()),
    {
        let text = self.source.as_str();
        proof {
            vstd::string::is_ascii_spec_bytes(text);
        }
        text.len() <= self.current
    }

    fn has_next(&self) -> (r: bool)
        requires
            self.wf(),
        ensures
            r == (self.current + 1 < self.source@.len()),
    {
        let text = self.source.as_str();
        proof {
            vstd::string::is_ascii_spec_bytes(text);
        }
        self.current + 1 < text.len()
    }

    /// The character at the current position, or 0 at the end.
    fn peek(&self) -> (b: u8)
        requires
            self.wf(),
        ensures
            self.current < self.source@.len() ==> b as char == self.source@[self.current as int],
            self.current >= self.source@.len() ==> b == 0,
    {
        if self.is_at_end() {
            return 0;
        }
        self.byte_at(self.current)
    }

    /// Whether the character after the current one is `expected`.
    fn peek_next(&self, expected: u8) -> (r: bool)
        requires
            self.wf(),
        ensures
            r == next_char_is(self.source@, self.current as int, expected as char),
    {
        if !self.has_next() {
            return false;
        }
        self.byte_at(self.current + 1) == expected
    }

    /// The token whose text is `source[start..current]`.
    fn build_token(&self, ty: TokenType) -> (t: Token)
        requires
            self.wf(),
            self.start <= self.current,
        ensures
            t@ == slice_token(self.source@, self.start as int, self.current as int, ty, self.line as nat),
    {
        let s = self.source.as_str().substring_ascii(self.start, self.current);
        Token { lexeme: String::from_str(s), token: ty, line: self.line }
    }

    fn number(&mut self)
        requires
            old(self).wf(),
        ensures
            final(self).wf(),
            final(self).source == old(self).source,
            final(self).line == old(self).line,
            final(self).start == old(self).start,
            final(self).current == number_end(old(self).source@, old(self).current as int),
    {
        let ghost s = self.source@;
        let ghost j = digits_end(s, self.current as int);
        while !self.is_at_end() && is_digit(self.peek())
            invariant
                self.wf(),
                self.source@ == s,
                self.source == old(self).source,
                self.line == old(self).line,
                self.start == old(self).start,
                old(self).current <= self.current,
                digits_end(s, self.current as int) == j,
            decreases s.len() - self.current,
        {
            self.current += 1;
        }
        if !self.is_at_end() && self.peek() == 46u8 {
            self.current += 1;
            let ghost k = digits_end(s, self.current as int);
            while !self.is_at_end() && is_digit(self.peek())
                invariant
                    self.wf(),
                    self.source@ == s,
                self.source == old(self).source,
                    self.line == old(self).line,
                    self.start == old(self).start,
                    old(self).current <= self.current,
                    digits_end(s, self.current as int) == k,
                decreases s.len() - self.current,
            {
                self.current += 1;
            }
        }
    }

    fn identifier(&mut self)
        requires
            old(self).wf(),
        ensures
            final(self).wf(),
            final(self).source == old(self).source,
            final(self).line == old(self).line,
            final(self).start == old(self).start,
            final(self).current == word_end(old(self).source@, old(self).current as int),
    {
        let ghost s = self.source@;
        let ghost j = word_end(s, self.current as int);
        while !self.is_at_end() && (self.peek() == 95u8 || is_alphanum(self.peek()))
            invariant
                self.wf(),
                self.source@ == s,
                self.source == old(self).source,
                self.line == old(self).line,
                self.start == old(self).start,
                old(self).current <= self.current,
                word_end(s, self.current as int) == j,
            decreases s.len() - self.current,
        {
            self.current += 1;
        }
    }

    /// Moves to the end of a string whose opening quote is at the current
    /// position, counting the lines inside it. On success the position is
    /// that of the closing quote.
    fn string_lex(&mut self) -> (found: bool)
        requires
            old(self).wf(),
            old(self).current < old(self).source@.len(),
        ensures
            final(self).wf(),
            final(self).source == old(self).source,
            final(self).start == old(self).start,
            ({
                let s = final(self).source@;
                let p = old(self).current as int;
                let close = closing_quote(s, p + 1);
                if close < s.len() {
                    &&& found
                    &&& final(self).current == close
                    &&& final(self).line == old(self).line + newlines(s.subrange(p + 1, close))
                } else {
                    &&& !found
                    &&& final(self).current == (if p + 1 < s.len() { s.len() - 1 } else { p })
                    &&& final(self).line == old(self).line + newlines(s.subrange(p + 1, (if p + 1 < s.len() { s.len() as int } else { p + 1 })))
                }
            }),
    {
        let ghost s = self.source@;
        let ghost p = self.current as int;
        let ghost close = closing_quote(s, p + 1);
        proof {
            assert(s.subrange(p + 1, p + 1) =~= Seq::<char>::empty());
        }
        while self.has_next() && !self.peek_next(34u8)
            invariant
                self.wf(),
                self.source@ == s,
                self.source == old(self).source,
                self.start == old(self).start,
                0 <= p <= self.current < s.len(),
                closing_quote(s, self.current + 1) == close,
                self.line == old(self).line + newlines(s.subrange(p + 1, self.current + 1)),
            decreases s.len() - self.current,
        {
            proof {
                let t = s.subrange(p + 1, self.current + 2);
                assert(t.drop_last() =~= s.subrange(p + 1, self.current + 1));
                assert(t.last() == s[self.current + 1]);
            }
            if self.peek_next(10u8) {
                self.line += 1;
            }
            self.current += 1;
        }
        if self.has_next() && self.peek_next(34u8) {
            self.current += 1;
            true
        } else {
            false
        }
    }

    /// Scans the token, if any, at the current position.
    fn scan_token(&mut self) -> (r: Option<Token>)
        requires
            old(self).wf(),
            old(self).current < old(self).source@.len(),
        ensures
            final(self).wf(),
            final(self).source == old(self).source,
            final(self).current >= old(self).current,
            match scan_one(old(self).source@, old(self).current as int, old(self).line as nat) {
                Scan::Emit(t, next, l) => r is Some && r.unwrap()@ == t && final(self).current == next
                    && final(self).line == l,
                Scan::Skip(next, l) => r is None && final(self).current == next && final(self).line == l,
                Scan::Stuck => r is None && final(self).current == old(self).current && final(self).line
                    == old(self).line,
            },
    {
        let ghost s = self.source@;
        let ghost pos = self.current as int;
        proof {
            lemma_run_ends(s, pos + 1);
            lemma_number_end(s, pos + 1);
        }
        self.start = self.current;
        let c = self.byte_at(self.current);
        if c == 40u8 {
            self.current += 1;
            Some(self.build_token(TokenType::LeftParen))
        } else if c == 41u8 {
            self.current += 1;
            Some(self.build_token(TokenType::RightParen))
        } else if c == 123u8 {
            self.current += 1;
            Some(self.build_token(TokenType::LeftBrace))
        } else if c == 125u8 {
            self.current += 1;
            Some(self.build_token(TokenType::RightBrace))
        } else if c == 44u8 {
            self.current += 1;
            Some(self.build_token(TokenType::Comma))
        } else if c == 46u8 {
            self.current += 1;
            Some(self.build_token(TokenType::Dot))
        } else if c == 45u8 {
            self.current += 1;
            Some(self.build_token(TokenType::Minus))
        } else if c == 43u8 {
            self.current += 1;
            Some(self.build_token(TokenType::Plus))
        } else if c == 59u8 {
            self.current += 1;
            Some(self.build_token(TokenType::Semicolon))
        } else if c == 42u8 {
            self.current += 1;
            Some(self.build_token(TokenType::Star))
        } else if c == 33u8 || c == 61u8 || c == 62u8 || c == 60u8 {
            let (one, two) = if c == 33u8 {
                (TokenType::Bang, TokenType::BangEqual)
            } else if c == 61u8 {
                (TokenType::Equal, TokenType::EqualEqual)
            } else if c == 62u8 {
                (TokenType::Greater, TokenType::GreaterEqual)
            } else {
                (TokenType::Less, TokenType::LessEqual)
            };
            if self.peek_next(61u8) {
                self.current += 2;
                Some(self.build_token(two))
            } else {
                self.current += 1;
                Some(self.build_token(one))
            }
        } else if c == 13u8 || c == 9u8 || c == 32u8 {
            self.current += 1;
            None
        } else if c == 10u8 {
            self.current += 1;
            self.line += 1;
            None
        } else if c == 34u8 {
            self.start += 1;
            if self.string_lex() {
                let token = self.build_token(TokenType::String);
                self.current += 1;
                Some(token)
            } else {
                None
            }
        } else if c == 47u8 {
            if self.peek_next(47u8) {
                self.current += 2;
                let ghost j = comment_end(s, self.current as int);
                while !self.is_at_end() && self.peek() != 10u8
                    invariant
                        self.wf(),
                        self.source@ == s,
                self.source == old(self).source,
                        self.line == old(self).line,
                        pos + 2 <= self.current,
                        comment_end(s, self.current as int) == j,
                    decreases s.len() - self.current,
                {
                    self.current += 1;
                }
                None
            } else {
                self.current += 1;
                Some(self.build_token(TokenType::Slash))
            }
        } else if is_digit(c) {
            self.current += 1;
            self.number();
            Some(self.build_token(TokenType::Number))
        } else if is_alphabet(c) || c == 95u8 {
            self.current += 1;
            self.identifier();
            let kind = self.keyword();
            Some(self.build_token(kind))
        } else {
            None
        }
    }

    /// The tokens from the current position to the end of the source, the
    /// last of them `Eof`; `None` where the lexer would make no progress (an
    /// unknown character, or an opening quote as the last character).
    pub fn try_scan_tokens(&mut self) -> (r: Option<Vec<Token>>)
        requires
            old(self).wf(),
        ensures
            final(self).wf(),
            final(self).text() == old(self).text(),
            match scan_from(old(self).text(), old(self).position(), old(self).line_count()) {
                Some(ts) => r is Some && tokens_view(r.unwrap()@) == ts && final(self).position()
                    == final(self).text().len(),
                None => r is None,
            },
    {
        let ghost s = self.source@;
        let ghost p0 = self.current as int;
        let ghost l0 = self.line as nat;
        let mut tokens: Vec<Token> = Vec::new();
        while !self.is_at_end()
            invariant
                self.wf(),
                self.source@ == s,
                s == old(self).text(),
                p0 == old(self).position(),
                l0 == old(self).line_count(),
                scan_from(s, p0, l0) == (match scan_from(s, self.current as int, self.line as nat) {
                    Some(rest) => Some(tokens_view(tokens@) + rest),
                    None => None,
                }),
            decreases s.len() - self.current,
        {
            let before = self.current;
            let ghost line_before = self.line as nat;
            let t = self.scan_token();
            if self.current == before {
                assert(scan_from(s, before as int, line_before) is None);
                return None;
            }
            match t {
                Some(token) => {
                    let ghost old_tokens = tokens@;
                    tokens.push(token);
                    proof {
                        assert(scan_from(s, before as int, line_before) == (match scan_from(
                            s,
                            self.current as int,
                            self.line as nat,
                        ) {
                            Some(rest) => Some(seq![token@] + rest),
                            None => None,
                        }));
                        assert(tokens_view(tokens@) =~= tokens_view(old_tokens).push(token@));
                        match scan_from(s, self.current as int, self.line as nat) {
                            Some(rest) => {
                                assert(tokens_view(old_tokens) + (seq![token@] + rest)
                                    =~= tokens_view(tokens@) + rest);
                            },
                            None => {},
                        }
                    }
                },
                None => {
                    assert(scan_from(s, before as int, line_before) == scan_from(
                        s,
                        self.current as int,
                        self.line as nat,
                    ));
                },
            }
        }
        tokens.push(Token { lexeme: String::new(), token: TokenType::Eof, line: self.line });
        proof {
            let ghost prev = tokens@.drop_last();
            assert(tokens_view(tokens@) =~= tokens_view(prev) + seq![eof_token(self.line as nat)]);
        }
        Some(tokens)
    }

    /// The tokens from the current position to the end of the source, the
    /// last of them `Eof`.
    pub fn scan_tokens(&mut self) -> (tokens: Vec<Token>)
        requires
            old(self).wf(),
            scan_from(old(self).text(), old(self).position(), old(self).line_count()) is Some,
        ensures
            final(self).wf(),
            final(self).text() == old(self).text(),
            final(self).position() == final(self).text().len(),
            tokens_view(tokens@) == scan_from(old(self).text(), old(self).position(), old(self).line_count()).unwrap(),
    {
        match self.try_scan_tokens() {
            Some(tokens) => tokens,
            None => Vec::new(),
        }
    }

    /// Whether `source[start..current]` is the word `w`.
    fn span_is(&self, w: &str) -> (r: bool)
        requires
            self.wf(),
            self.start <= self.current,
            vstd::string::is_ascii(w),
        ensures
            r == (self.source@.subrange(self.start as int, self.current as int) == w@),
    {
        let ghost span = self.source@.subrange(self.start as int, self.current as int);
        let n = w.unicode_len();
        if self.current - self.start != n {
            assert(span.len() != w@.len());
            return false;
        }
        let mut i: usize = 0;
        while i < n
            invariant
                self.wf(),
                vstd::string::is_ascii(w),
                span == self.source@.subrange(self.start as int, self.current as int),
                self.current - self.start == n,
                n == w@.len(),
                0 <= i <= n,
                forall|k: int| 0 <= k < i ==> span[k] == w@[k],
            decreases n - i,
        {
            let b = self.byte_at(self.start + i);
            let c = w.get_ascii(i);
            if b != c {
                proof {
                    vstd::utf8::is_ascii_chars_nat_bound(w@);
                    assert((w@[i as int] as nat) < 128);
                    assert(span[i as int] == b as char);
                }
                return false;
            }
            proof {
                vstd::utf8::is_ascii_chars_nat_bound(w@);
                assert((w@[i as int] as nat) < 128);
            }
            i += 1;
        }
        assert(span =~= w@);
        true
    }

    /// The kind of the word `source[start..current]`.
    fn keyword(&self) -> (kind: TokenType)
        requires
            self.wf(),
            self.start <= self.current,
        ensures
            kind == keyword_kind(self.source@.subrange(self.start as int, self.current as int)),
    {
        proof {
            reveal_strlit("and");
            assert("and"@ =~= seq!['a', 'n', 'd']);
            reveal_strlit("or");
            assert("or"@ =~= seq!['o', 'r']);
            reveal_strlit("true");
            assert("true"@ =~= seq!['t', 'r', 'u', 'e']);
            reveal_strlit("false");
            assert("false"@ =~= seq!['f', 'a', 'l', 's', 'e']);
            reveal_strlit("fun");
            assert("fun"@ =~= seq!['f', 'u', 'n']);
            reveal_strlit("let");
            assert("let"@ =~= seq!['l', 'e', 't']);
            reveal_strlit("for");
            assert("for"@ =~= seq!['f', 'o', 'r']);
            reveal_strlit("while");
            assert("while"@ =~= seq!['w', 'h', 'i', 'l', 'e']);
            reveal_strlit("if");
            assert("if"@ =~= seq!['i', 'f']);
            reveal_strlit("else");
            assert("else"@ =~= seq!['e', 'l', 's', 'e']);
            reveal_strlit("return");
            assert("return"@ =~= seq!['r', 'e', 't', 'u', 'r', 'n']);
            reveal_strlit("nil");
            assert("nil"@ =~= seq!['n', 'i', 'l']);
            reveal_strlit("struct");
            assert("struct"@ =~= seq!['s', 't', 'r', 'u', 'c', 't']);
            reveal_strlit("enum");
            assert("enum"@ =~= seq!['e', 'n', 'u', 'm']);
        }
        if self.span_is("and") {
            TokenType::And
        } else if self.span_is("or") {
            TokenType::Or
        } else if self.span_is("true") {
            TokenType::True
        } else if self.span_is("false") {
            TokenType::False
        } else if self.span_is("fun") {
            TokenType::Fun
        } else if self.span_is("let") {
            TokenType::Let
        } else if self.span_is("for") {
            TokenType::For
        } else if self.span_is("while") {
            TokenType::While
        } else if self.span_is("if") {
            TokenType::If
        } else if self.span_is("else") {
            TokenType::Else
        } else if self.span_is("return") {
            TokenType::Return
        } else if self.span_is("nil") {
            TokenType::Nil
        } else if self.span_is("struct") {
            TokenType::Struct
        } else if self.span_is("enum") {
            TokenType::Enum
        } else {
            TokenType::Identifier
        }
    }
}

} // verus!
