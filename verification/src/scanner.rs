use vstd::prelude::*;

use crate::number::{is_digit_byte, is_number_text};
use crate::token::{Token, TokenType};

verus! {

// ---------------------------------------------------------------------------
// Byte classification
// ---------------------------------------------------------------------------
pub open spec fn is_alpha_byte(b: u8) -> bool {
    (65 <= b <= 90) || (97 <= b <= 122) || b == 95
}

pub open spec fn is_ident_byte(b: u8) -> bool {
    is_alpha_byte(b) || is_digit_byte(b)
}

pub fn alpha_byte(b: u8) -> (r: bool)
    ensures
        r == is_alpha_byte(b),
{
    (65 <= b && b <= 90) || (97 <= b && b <= 122) || b == 95
}

pub fn digit_byte(b: u8) -> (r: bool)
    ensures
        r == is_digit_byte(b),
{
    48 <= b && b <= 57
}

pub fn ident_byte(b: u8) -> (r: bool)
    ensures
        r == is_ident_byte(b),
{
    alpha_byte(b) || digit_byte(b)
}

// ---------------------------------------------------------------------------
// The scanner's specification: where the next token starts and ends, and
// what it is, as a pure function of the source bytes and a position.
// ---------------------------------------------------------------------------
/// Position and line after skipping whitespace, newlines and `//` comments.
pub open spec fn spec_skip_ws(src: Seq<u8>, pos: int, line: int) -> (int, int)
    decreases src.len() - pos, 0int,
{
    if pos < 0 || pos >= src.len() {
        (pos, line)
    } else if src[pos] == 32 || src[pos] == 13 || src[pos] == 9 {
        spec_skip_ws(src, pos + 1, line)
    } else if src[pos] == 10 {
        spec_skip_ws(src, pos + 1, line + 1)
    } else if src[pos] == 47 && pos + 1 < src.len() && src[pos + 1] == 47 {
        spec_in_comment(src, pos + 2, line)
    } else {
        (pos, line)
    }
}

/// Inside a `//` comment: skip to the end of the line, then resume skipping.
pub open spec fn spec_in_comment(src: Seq<u8>, pos: int, line: int) -> (int, int)
    decreases src.len() - pos, 1int,
{
    if pos < 0 || pos >= src.len() {
        (pos, line)
    } else if src[pos] == 10 {
        spec_skip_ws(src, pos, line)
    } else {
        spec_in_comment(src, pos + 1, line)
    }
}

/// End of a run of decimal digits starting at `pos`.
pub open spec fn digits_end(src: Seq<u8>, pos: int) -> int
    decreases src.len() - pos,
{
    if 0 <= pos < src.len() && is_digit_byte(src[pos]) {
        digits_end(src, pos + 1)
    } else {
        pos
    }
}

/// End of a run of identifier bytes starting at `pos`.
pub open spec fn ident_end(src: Seq<u8>, pos: int) -> int
    decreases src.len() - pos,
{
    if 0 <= pos < src.len() && is_ident_byte(src[pos]) {
        ident_end(src, pos + 1)
    } else {
        pos
    }
}

/// Position of the closing quote of a string body starting at `pos`, or the
/// end of the source if there is none.
pub open spec fn string_body_end(src: Seq<u8>, pos: int) -> int
    decreases src.len() - pos,
{
    if 0 <= pos < src.len() && src[pos] != 34 {
        string_body_end(src, pos + 1)
    } else {
        pos
    }
}

/// How many newline bytes lie in `src[from..to]`.
pub open spec fn newline_count(src: Seq<u8>, from: int, to: int) -> int
    decreases to - from,
{
    if from >= to {
        0
    } else {
        newline_count(src, from, to - 1) + if src[to - 1] == 10 {
            1int
        } else {
            0int
        }
    }
}

/// End of a numeric lexeme: digits, optionally a decimal point followed by
/// at least one digit, then more digits.
pub open spec fn number_end(src: Seq<u8>, pos: int) -> int {
    let d = digits_end(src, pos);
    if d + 1 < src.len() && src[d] == 46 && is_digit_byte(src[d + 1]) {
        digits_end(src, d + 1)
    } else {
        d
    }
}

/// The single-character punctuation tokens.
pub open spec fn single_char_token(c: u8) -> Option<TokenType> {
    if c == 40 {
        Some(TokenType::LEFTPAREN)
    } else if c == 41 {
        Some(TokenType::RIGHTPAREN)
    } else if c == 123 {
        Some(TokenType::LEFTBRACE)
    } else if c == 125 {
        Some(TokenType::RIGHTBRACE)
    } else if c == 59 {
        Some(TokenType::SEMICOLON)
    } else if c == 44 {
        Some(TokenType::COMMA)
    } else if c == 46 {
        Some(TokenType::DOT)
    } else if c == 45 {
        Some(TokenType::MINUS)
    } else if c == 43 {
        Some(TokenType::PLUS)
    } else if c == 47 {
        Some(TokenType::SLASH)
    } else if c == 42 {
        Some(TokenType::STAR)
    } else {
        None
    }
}

/// The operators that become a two-character token when followed by `=`:
/// the pair is (one-character kind, two-character kind).
pub open spec fn two_char_pair(c: u8) -> Option<(TokenType, TokenType)> {
    if c == 33 {
        Some((TokenType::BANG, TokenType::BANGEQUAL))
    } else if c == 61 {
        Some((TokenType::EQUAL, TokenType::EQUALEQUAL))
    } else if c == 60 {
        Some((TokenType::LESS, TokenType::LESSEQUAL))
    } else if c == 62 {
        Some((TokenType::GREATER, TokenType::GREATEREQUAL))
    } else {
        None
    }
}

/// The fixed keyword table: the kind an identifier lexeme scans as.
pub open spec fn keyword_or_identifier(lex: Seq<u8>) -> TokenType {
    if lex == seq![97u8, 110u8, 100u8] {
        TokenType::AND
    } else if lex == seq![99u8, 108u8, 97u8, 115u8, 115u8] {
        TokenType::CLASS
    } else if lex == seq![101u8, 108u8, 115u8, 101u8] {
        TokenType::ELSE
    } else if lex == seq![102u8, 97u8, 108u8, 115u8, 101u8] {
        TokenType::FALSE
    } else if lex == seq![102u8, 111u8, 114u8] {
        TokenType::FOR
    } else if lex == seq![102u8, 117u8, 110u8] {
        TokenType::FUN
    } else if lex == seq![105u8, 102u8] {
        TokenType::IF
    } else if lex == seq![110u8, 105u8, 108u8] {
        TokenType::NIL
    } else if lex == seq![111u8, 114u8] {
        TokenType::OR
    } else if lex == seq![112u8, 114u8, 105u8, 110u8, 116u8] {
        TokenType::PRINT
    } else if lex == seq![114u8, 101u8, 116u8, 117u8, 114u8, 110u8] {
        TokenType::RETURN
    } else if lex == seq![115u8, 117u8, 112u8, 101u8, 114u8] {
        TokenType::SUPER
    } else if lex == seq![116u8, 104u8, 105u8, 115u8] {
        TokenType::THIS
    } else if lex == seq![116u8, 114u8, 117u8, 101u8] {
        TokenType::TRUE
    } else if lex == seq![118u8, 97u8, 114u8] {
        TokenType::VAR
    } else if lex == seq![119u8, 104u8, 105u8, 108u8, 101u8] {
        TokenType::WHILE
    } else {
        TokenType::IDENTIFIER
    }
}

/// The message of the error token for a byte no token starts with.
pub open spec fn unexpected_character_msg() -> Seq<u8> {
    seq![
        85u8, 110u8, 101u8, 120u8, 112u8, 101u8, 99u8, 116u8, 101u8, 100u8, 32u8, 99u8, 104u8,
        97u8, 114u8, 97u8, 99u8, 116u8, 101u8, 114u8, 46u8,
    ]
}

/// The message of the error token for a string the source ends inside.
pub open spec fn unterminated_string_msg() -> Seq<u8> {
    seq![
        85u8, 110u8, 116u8, 101u8, 114u8, 109u8, 105u8, 110u8, 97u8, 116u8, 101u8, 100u8, 32u8,
        115u8, 116u8, 114u8, 105u8, 110u8, 103u8,
    ]
}

/// What one call of the scanner yields and where it leaves the scanner.
pub struct SpecToken {
    pub token_type: TokenType,
    pub lexeme: Seq<u8>,
    pub line: int,
    pub start: int,
    pub end: int,
    pub end_line: int,
}

/// The token that starts at or after `pos0` on line `line0`: the scanner's
/// whole behaviour as a pure function of the source.
pub open spec fn spec_next_token(src: Seq<u8>, pos0: int, line0: int) -> SpecToken {
    let s = spec_skip_ws(src, pos0, line0).0;
    let l = spec_skip_ws(src, pos0, line0).1;
    if s >= src.len() {
        SpecToken {
            token_type: TokenType::EOF,
            lexeme: Seq::empty(),
            line: l,
            start: s,
            end: s,
            end_line: l,
        }
    } else {
        let c = src[s];
        if single_char_token(c) is Some {
            SpecToken {
                token_type: single_char_token(c)->Some_0,
                lexeme: src.subrange(s, s + 1),
                line: l,
                start: s,
                end: s + 1,
                end_line: l,
            }
        } else if two_char_pair(c) is Some {
            if s + 1 < src.len() && src[s + 1] == 61 {
                SpecToken {
                    token_type: two_char_pair(c)->Some_0.1,
                    lexeme: src.subrange(s, s + 2),
                    line: l,
                    start: s,
                    end: s + 2,
                    end_line: l,
                }
            } else {
                SpecToken {
                    token_type: two_char_pair(c)->Some_0.0,
                    lexeme: src.subrange(s, s + 1),
                    line: l,
                    start: s,
                    end: s + 1,
                    end_line: l,
                }
            }
        } else if c == 34 {
            let e = string_body_end(src, s + 1);
            if e >= src.len() {
                SpecToken {
                    token_type: TokenType::ERROR,
                    lexeme: unterminated_string_msg(),
                    line: l,
                    start: s,
                    end: e,
                    end_line: l + newline_count(src, s + 1, e),
                }
            } else {
                SpecToken {
                    token_type: TokenType::STRING,
                    lexeme: src.subrange(s + 1, e),
                    line: l,
                    start: s,
                    end: e + 1,
                    end_line: l + newline_count(src, s + 1, e),
                }
            }
        } else if is_digit_byte(c) {
            SpecToken {
                token_type: TokenType::NUMBER,
                lexeme: src.subrange(s, number_end(src, s)),
                line: l,
                start: s,
                end: number_end(src, s),
                end_line: l,
            }
        } else if is_alpha_byte(c) {
            SpecToken {
                token_type: keyword_or_identifier(src.subrange(s, ident_end(src, s + 1))),
                lexeme: src.subrange(s, ident_end(src, s + 1)),
                line: l,
                start: s,
                end: ident_end(src, s + 1),
                end_line: l,
            }
        } else {
            SpecToken {
                token_type: TokenType::ERROR,
                lexeme: unexpected_character_msg(),
                line: l,
                start: s,
                end: s + 1,
                end_line: l,
            }
        }
    }
}

// ---------------------------------------------------------------------------
// Facts about the specification, needed by callers for termination and
// well-formedness.
// ---------------------------------------------------------------------------
pub proof fn lemma_skip_ws_bounds(src: Seq<u8>, pos: int, line: int)
    requires
        0 <= pos <= src.len(),
    ensures
        pos <= spec_skip_ws(src, pos, line).0 <= src.len(),
        line <= spec_skip_ws(src, pos, line).1 <= line + (spec_skip_ws(src, pos, line).0 - pos),
    decreases src.len() - pos, 0int,
{
    if pos >= src.len() {
    } else if src[pos] == 32 || src[pos] == 13 || src[pos] == 9 {
        lemma_skip_ws_bounds(src, pos + 1, line);
    } else if src[pos] == 10 {
        lemma_skip_ws_bounds(src, pos + 1, line + 1);
    } else if src[pos] == 47 && pos + 1 < src.len() && src[pos + 1] == 47 {
        lemma_in_comment_bounds(src, pos + 2, line);
    }
}

pub proof fn lemma_in_comment_bounds(src: Seq<u8>, pos: int, line: int)
    requires
        0 <= pos <= src.len(),
    ensures
        pos <= spec_in_comment(src, pos, line).0 <= src.len(),
        line <= spec_in_comment(src, pos, line).1 <= line + (spec_in_comment(src, pos, line).0
            - pos),
    decreases src.len() - pos, 1int,
{
    if pos >= src.len() {
    } else if src[pos] == 10 {
        lemma_skip_ws_bounds(src, pos, line);
    } else {
        lemma_in_comment_bounds(src, pos + 1, line);
    }
}

pub proof fn lemma_digits_end_props(src: Seq<u8>, pos: int)
    requires
        0 <= pos <= src.len(),
    ensures
        pos <= digits_end(src, pos) <= src.len(),
        forall|i: int| pos <= i < digits_end(src, pos) ==> is_digit_byte(src[i]),
        digits_end(src, pos) < src.len() ==> !is_digit_byte(src[digits_end(src, pos)]),
    decreases src.len() - pos,
{
    if pos < src.len() && is_digit_byte(src[pos]) {
        lemma_digits_end_props(src, pos + 1);
    }
}

pub proof fn lemma_ident_end_props(src: Seq<u8>, pos: int)
    requires
        0 <= pos <= src.len(),
    ensures
        pos <= ident_end(src, pos) <= src.len(),
        ident_end(src, pos) < src.len() ==> !is_ident_byte(src[ident_end(src, pos)]),
    decreases src.len() - pos,
{
    if pos < src.len() && is_ident_byte(src[pos]) {
        lemma_ident_end_props(src, pos + 1);
    }
}

pub proof fn lemma_string_body_end_props(src: Seq<u8>, pos: int)
    requires
        0 <= pos <= src.len(),
    ensures
        pos <= string_body_end(src, pos) <= src.len(),
        string_body_end(src, pos) < src.len() ==> src[string_body_end(src, pos)] == 34,
    decreases src.len() - pos,
{
    if pos < src.len() && src[pos] != 34 {
        lemma_string_body_end_props(src, pos + 1);
    }
}

pub proof fn lemma_newline_count_bounds(src: Seq<u8>, from: int, to: int)
    requires
        from <= to,
    ensures
        0 <= newline_count(src, from, to) <= to - from,
    decreases to - from,
{
    if from < to {
        lemma_newline_count_bounds(src, from, to - 1);
    }
}

/// A numeric lexeme always matches the number grammar.
pub proof fn lemma_number_lexeme(src: Seq<u8>, s: int)
    requires
        0 <= s < src.len(),
        is_digit_byte(src[s]),
    ensures
        s < number_end(src, s) <= src.len(),
        is_number_text(src.subrange(s, number_end(src, s))),
{
    lemma_digits_end_props(src, s);
    let d = digits_end(src, s);
    assert(d > s);
    let e = number_end(src, s);
    let lex = src.subrange(s, e);
    if d + 1 < src.len() && src[d] == 46 && is_digit_byte(src[d + 1]) {
        lemma_digits_end_props(src, d + 1);
        assert(e == digits_end(src, d + 1));
        assert(e > d + 1);
        let k = d - s;
        assert(all_digit_bytes_sub(src, s, d, lex, 0, k));
        assert(lex[k] == 46);
        assert(all_digit_bytes_sub(src, d + 1, e, lex, k + 1, e - s));
        assert(1 <= k <= lex.len() && crate::number::all_digit_bytes(lex.subrange(0, k)) && (k
            != lex.len() && lex[k] == 46 && k + 1 < lex.len() && crate::number::all_digit_bytes(
            lex.subrange(k + 1, lex.len() as int),
        )));
    } else {
        assert(e == d);
        let k = e - s;
        assert(all_digit_bytes_sub(src, s, e, lex, 0, k));
        assert(1 <= k <= lex.len() && crate::number::all_digit_bytes(lex.subrange(0, k)) && k
            == lex.len());
    }
}

/// Helper: the digits of `src[a..b]` reappear in a subrange of the lexeme.
spec fn all_digit_bytes_sub(src: Seq<u8>, a: int, b: int, lex: Seq<u8>, la: int, lb: int) -> bool {
    crate::number::all_digit_bytes(lex.subrange(la, lb))
}

proof fn lemma_transfer_digits(src: Seq<u8>, a: int, b: int, lex: Seq<u8>, la: int, lb: int)
    requires
        0 <= a <= b <= src.len(),
        0 <= la <= lb <= lex.len(),
        lb - la == b - a,
        forall|i: int| a <= i < b ==> is_digit_byte(src[i]),
        forall|i: int| la <= i < lb ==> lex[i] == src[a + (i - la)],
    ensures
        crate::number::all_digit_bytes(lex.subrange(la, lb)),
{
    let sub = lex.subrange(la, lb);
    assert forall|i: int| 0 <= i < sub.len() implies is_digit_byte(sub[i]) by {
        assert(sub[i] == lex[la + i]);
        assert(lex[la + i] == src[a + i]);
    }
}

/// Together: where the next token starts and stops, relative to where the
/// scan began. A non-EOF token occupies at least one byte; EOF is produced
/// exactly at the end of the source.
pub proof fn lemma_next_token_progress(src: Seq<u8>, pos0: int, line0: int)
    requires
        0 <= pos0 <= src.len(),
    ensures
        ({
            let st = spec_next_token(src, pos0, line0);
            &&& pos0 <= st.start <= st.end <= src.len()
            &&& (st.token_type == TokenType::EOF <==> st.start == src.len())
            &&& (st.token_type != TokenType::EOF ==> st.end > st.start)
            &&& (st.token_type == TokenType::EOF ==> st.end == src.len())
            &&& line0 <= st.line <= line0 + (st.start - pos0)
            &&& st.line <= st.end_line <= line0 + (st.end - pos0)
        }),
{
    lemma_skip_ws_bounds(src, pos0, line0);
    let s = spec_skip_ws(src, pos0, line0).0;
    let l = spec_skip_ws(src, pos0, line0).1;
    if s < src.len() {
        let c = src[s];
        if single_char_token(c) is Some {
        } else if two_char_pair(c) is Some {
        } else if c == 34 {
            lemma_string_body_end_props(src, s + 1);
            lemma_newline_count_bounds(src, s + 1, string_body_end(src, s + 1));
        } else if is_digit_byte(c) {
            lemma_number_lexeme(src, s);
            lemma_digits_end_props(src, s);
            if digits_end(src, s) + 1 < src.len() && src[digits_end(src, s)] == 46
                && is_digit_byte(src[digits_end(src, s) + 1]) {
                lemma_digits_end_props(src, digits_end(src, s) + 1);
            }
        } else if is_alpha_byte(c) {
            lemma_ident_end_props(src, s + 1);
        }
    }
}

// ---------------------------------------------------------------------------
// The executable scanner
// ---------------------------------------------------------------------------
/// The scanner's model: its position, token start, current line, and the
/// source bytes it walks.
pub struct ScannerView {
    pub line: int,
    pub start: int,
    pub current: int,
    pub source: Seq<u8>,
}

/// Produces tokens from a source text on demand, one per call.
#[derive(Debug)]
pub struct Scanner {
    line: usize,
    start: usize,
    current: usize,
    source: Vec<u8>,
}

impl View for Scanner {
    type V = ScannerView;

    closed spec fn view(&self) -> ScannerView {
        ScannerView {
            line: self.line as int,
            start: self.start as int,
            current: self.current as int,
            source: self.source@,
        }
    }
}

impl Scanner {
    pub open spec fn wf(&self) -> bool {
        &&& 0 <= self@.start <= self@.source.len()
        &&& 0 <= self@.current <= self@.source.len()
        &&& 1 <= self@.line <= 1 + self@.current
        &&& self@.source.len() < usize::MAX
    }

    pub fn new(source: Vec<u8>) -> (r: Self)
        requires
            source@.len() < usize::MAX,
        ensures
            r@.source == source@,
            r@.current == 0,
            r@.start == 0,
            r@.line == 1,
            r.wf(),
    {
        Scanner { line: 1, start: 0, current: 0, source }
    }

    fn is_at_end(&self) -> (r: bool)
        ensures
            r == (self@.current >= self@.source.len()),
    {
        self.current >= self.source.len()
    }

    fn peek(&self) -> (r: u8)
        ensures
            r == if self@.current < self@.source.len() {
                self@.source[self@.current]
            } else {
                0u8
            },
    {
        if self.current < self.source.len() {
            self.source[self.current]
        } else {
            0
        }
    }

    fn peek_next(&self) -> (r: u8)
        ensures
            r == if self@.current + 1 < self@.source.len() {
                self@.source[self@.current + 1]
            } else {
                0u8
            },
    {
        if self.current < self.source.len() && self.current + 1 < self.source.len() {
            self.source[self.current + 1]
        } else {
            0
        }
    }

    fn advance(&mut self) -> (r: u8)
        requires
            old(self)@.current < old(self)@.source.len(),
            old(self)@.source.len() <= usize::MAX,
        ensures
            r == old(self)@.source[old(self)@.current],
            final(self)@.current == old(self)@.current + 1,
            final(self)@.source == old(self)@.source,
            final(self)@.start == old(self)@.start,
            final(self)@.line == old(self)@.line,
    {
        self.current = self.current + 1;
        self.source[self.current - 1]
    }

    fn match_token(&mut self, expected: u8) -> (r: bool)
        ensures
            final(self)@.source == old(self)@.source,
            final(self)@.start == old(self)@.start,
            final(self)@.line == old(self)@.line,
            r == (old(self)@.current < old(self)@.source.len() && old(self)@.source[old(
                self,
            )@.current] == expected),
            final(self)@.current == if r {
                old(self)@.current + 1
            } else {
                old(self)@.current
            },
    {
        if self.current >= self.source.len() || self.source[self.current] != expected {
            return false;
        }
        self.current = self.current + 1;
        true
    }

    /// Copy `source[from..to]` out as a fresh vector.
    fn copy_range(&self, from: usize, to: usize) -> (r: Vec<u8>)
        requires
            self.wf(),
            from <= to <= self@.source.len(),
        ensures
            r@ == self@.source.subrange(from as int, to as int),
    {
        vstd::slice::slice_to_vec(vstd::slice::slice_subrange(self.source.as_slice(), from, to))
    }

    /// Skip whitespace, newlines (counting lines) and `//` comments.
    fn skip_whitespace(&mut self)
        requires
            old(self).wf(),
        ensures
            final(self).wf(),
            final(self)@.source == old(self)@.source,
            final(self)@.start == old(self)@.start,
            old(self)@.current <= final(self)@.current,
            (final(self)@.current, final(self)@.line) == spec_skip_ws(
                old(self)@.source,
                old(self)@.current,
                old(self)@.line,
            ),
    {
        let ghost src = self@.source;
        let ghost pos0 = self@.current;
        let ghost line0 = self@.line;
        loop
            invariant
                self.wf(),
                self@.source == src,
                self@.start == old(self)@.start,
                pos0 <= self@.current,
                spec_skip_ws(src, self@.current, self@.line) == spec_skip_ws(src, pos0, line0),
            decreases src.len() - self@.current,
        {
            let c = self.peek();
            if c == 32 || c == 13 || c == 9 {
                let _ = self.advance();
            } else if c == 10 {
                proof {
                    lemma_skip_ws_bounds(src, self@.current + 1, self@.line + 1);
                }
                self.line = self.line + 1;
                let _ = self.advance();
            } else if c == 47 {
                if self.peek_next() == 47 {
                    // A comment: consume to the end of the line, then keep
                    // skipping.
                    let ghost centry = self@.current;
                    proof {
                        assert(spec_skip_ws(src, centry, self@.line as int) == spec_in_comment(
                            src,
                            centry + 2,
                            self@.line as int,
                        ));
                        assert(spec_in_comment(src, centry + 1, self@.line as int)
                            == spec_in_comment(src, centry + 2, self@.line as int));
                        assert(spec_in_comment(src, centry, self@.line as int)
                            == spec_in_comment(src, centry + 1, self@.line as int));
                    }
                    while self.peek() != 10 && !self.is_at_end()
                        invariant
                            self.wf(),
                            self@.source == src,
                            self@.start == old(self)@.start,
                            pos0 <= self@.current,
                            centry <= self@.current,
                            spec_in_comment(src, self@.current, self@.line) == spec_skip_ws(
                                src,
                                pos0,
                                line0,
                            ),
                        decreases src.len() - self@.current,
                    {
                        let _ = self.advance();
                    }
                    proof {
                        assert(self@.current != centry);
                    }
                    proof {
                        if self@.current < src.len() {
                            assert(src[self@.current] == 10);
                            assert(spec_in_comment(src, self@.current, self@.line) == spec_skip_ws(
                                src,
                                self@.current,
                                self@.line,
                            ));
                        } else {
                            assert(spec_in_comment(src, self@.current, self@.line) == (
                            self@.current,
                            self@.line,
                            ));
                            assert(spec_skip_ws(src, self@.current, self@.line) == (self@.current,
                            self@.line,
                            ));
                        }
                    }
                } else {
                    return ;
                }
            } else {
                // c == 0 only stands for the end of the source.
                proof {
                    if self@.current >= src.len() {
                        assert(spec_skip_ws(src, self@.current, self@.line) == (self@.current,
                        self@.line,
                        ));
                    }
                }
                return ;
            }
        }
    }

    /// Build a token for the bytes between `start` and the current position.
    fn make_token(&self, token_type: TokenType) -> (r: Token)
        requires
            self.wf(),
            self@.start <= self@.current,
        ensures
            r.token_type == token_type,
            r.lexeme@ == self@.source.subrange(self@.start, self@.current),
            r.line == self@.line,
    {
        let lexeme = self.copy_range(self.start, self.current);
        Token::new(token_type, lexeme, self.line)
    }

    fn error_token(&self, message: Vec<u8>) -> (r: Token)
        ensures
            r.token_type == TokenType::ERROR,
            r.lexeme@ == message@,
            r.line == self@.line,
    {
        Token::new(TokenType::ERROR, message, self.line)
    }

    /// Scan the rest of a numeric literal; the first digit is already
    /// consumed and `start` marks it.
    fn match_number(&mut self) -> (r: Token)
        requires
            old(self).wf(),
            old(self)@.start < old(self)@.current <= old(self)@.source.len(),
            old(self)@.start == old(self)@.current - 1,
            is_digit_byte(old(self)@.source[old(self)@.start]),
        ensures
            final(self).wf(),
            final(self)@.source == old(self)@.source,
            final(self)@.start == old(self)@.start,
            final(self)@.line == old(self)@.line,
            final(self)@.current == number_end(old(self)@.source, old(self)@.start),
            r.token_type == TokenType::NUMBER,
            r.lexeme@ == old(self)@.source.subrange(
                old(self)@.start,
                number_end(old(self)@.source, old(self)@.start),
            ),
            r.line == old(self)@.line,
    {
        let ghost src = self@.source;
        let ghost s = self@.start;
        let ghost d = digits_end(src, s);
        proof {
            assert(digits_end(src, s) == digits_end(src, s + 1));
            lemma_digits_end_props(src, s);
        }
        self.consume_digits();
        if self.peek() == 46 && digit_byte(self.peek_next()) {
            let _ = self.advance();
            proof {
                lemma_digits_end_props(src, d + 1);
                assert(number_end(src, s) == digits_end(src, d + 1));
            }
            self.consume_digits();
        } else {
            proof {
                assert(number_end(src, s) == d);
            }
        }
        self.make_token(TokenType::NUMBER)
    }

    /// Consume a run of digits.
    fn consume_digits(&mut self)
        requires
            old(self).wf(),
        ensures
            final(self).wf(),
            final(self)@.source == old(self)@.source,
            final(self)@.start == old(self)@.start,
            final(self)@.line == old(self)@.line,
            final(self)@.current == digits_end(old(self)@.source, old(self)@.current),
    {
        let ghost src = self@.source;
        let ghost pos0 = self@.current;
        while self.current < self.source.len() && digit_byte(self.source[self.current])
            invariant
                self.wf(),
                self@.source == src,
                self@.start == old(self)@.start,
                self@.line == old(self)@.line,
                pos0 <= self@.current,
                digits_end(src, self@.current) == digits_end(src, pos0),
            decreases src.len() - self@.current,
        {
            let _ = self.advance();
        }
    }

    /// Scan a string literal; the opening quote is already consumed. The
    /// lexeme excludes the surrounding quotes. Reaching the end of the
    /// source before the closing quote is an error.
    fn match_string(&mut self) -> (r: Token)
        requires
            old(self).wf(),
            old(self)@.start + 1 == old(self)@.current,
        ensures
            final(self).wf(),
            final(self)@.source == old(self)@.source,
            final(self)@.start == old(self)@.start,
            ({
                let src = old(self)@.source;
                let b = old(self)@.current;
                let e = string_body_end(src, b);
                &&& final(self)@.line == old(self)@.line + newline_count(src, b, e)
                &&& r.line == old(self)@.line
                &&& if e >= src.len() {
                    &&& r.token_type == TokenType::ERROR
                    &&& r.lexeme@ == unterminated_string_msg()
                    &&& final(self)@.current == e
                } else {
                    &&& r.token_type == TokenType::STRING
                    &&& r.lexeme@ == src.subrange(b, e)
                    &&& final(self)@.current == e + 1
                }
            }),
    {
        let ghost src = self@.source;
        let ghost b = self@.current;
        let line0 = self.line;
        proof {
            lemma_string_body_end_props(src, b);
            lemma_newline_count_bounds(src, b, string_body_end(src, b));
        }
        while self.current < self.source.len() && self.source[self.current] != 34
            invariant
                self.wf(),
                self@.source == src,
                self@.start == old(self)@.start,
                b <= self@.current,
                string_body_end(src, self@.current) == string_body_end(src, b),
                self@.line == old(self)@.line + newline_count(src, b, self@.current),
            decreases src.len() - self@.current,
        {
            proof {
                lemma_newline_count_bounds(src, b, self@.current);
                assert(newline_count(src, b, self@.current + 1) == newline_count(
                    src,
                    b,
                    self@.current,
                ) + if src[self@.current] == 10 {
                    1int
                } else {
                    0int
                });
            }
            if self.source[self.current] == 10 {
                self.line = self.line + 1;
            }
            let _ = self.advance();
        }
        proof {
            assert(string_body_end(src, self@.current) == self@.current);
            assert(self@.current == string_body_end(src, b));
        }
        if self.current >= self.source.len() {
            let msg = unterminated_string_vec();
            return Token::new(TokenType::ERROR, msg, line0);
        }
        let _ = self.advance();
        let lexeme = self.copy_range(self.start + 1, self.current - 1);
        Token::new(TokenType::STRING, lexeme, line0)
    }

    /// Decide whether the identifier just scanned is a keyword.
    fn identifier_type(&mut self) -> (r: Token)
        requires
            old(self).wf(),
            old(self)@.start <= old(self)@.current,
        ensures
            *final(self) == *old(self),
            r.token_type == keyword_or_identifier(
                old(self)@.source.subrange(old(self)@.start, old(self)@.current),
            ),
            r.lexeme@ == old(self)@.source.subrange(old(self)@.start, old(self)@.current),
            r.line == old(self)@.line,
    {
        let lexeme = self.copy_range(self.start, self.current);
        let token_type = keyword_lookup(&lexeme);
        Token::new(token_type, lexeme, self.line)
    }

    /// Produce the next token. Whitespace and comments are skipped first;
    /// at the end of the source this returns EOF, repeatedly.
    pub fn scan_token(&mut self) -> (r: Token)
        requires
            old(self).wf(),
        ensures
            final(self).wf(),
            final(self)@.source == old(self)@.source,
            ({
                let st = spec_next_token(
                    old(self)@.source,
                    old(self)@.current,
                    old(self)@.line,
                );
                &&& r.token_type == st.token_type
                &&& r.lexeme@ == st.lexeme
                &&& r.line == st.line
                &&& final(self)@.start == st.start
                &&& final(self)@.current == st.end
                &&& final(self)@.line == st.end_line
            }),
    {
        let ghost src = self@.source;
        let ghost pos0 = self@.current;
        let ghost line0 = self@.line;
        proof {
            lemma_skip_ws_bounds(src, pos0, line0);
            lemma_next_token_progress(src, pos0, line0);
        }
        self.skip_whitespace();
        self.start = self.current;
        if self.is_at_end() {
            let r = self.make_token(TokenType::EOF);
            proof {
                assert(src.subrange(self@.start, self@.current) =~= Seq::<u8>::empty());
            }
            return r;
        }
        let c = self.advance();
        if c == 40 {
            self.make_token(TokenType::LEFTPAREN)
        } else if c == 41 {
            self.make_token(TokenType::RIGHTPAREN)
        } else if c == 123 {
            self.make_token(TokenType::LEFTBRACE)
        } else if c == 125 {
            self.make_token(TokenType::RIGHTBRACE)
        } else if c == 59 {
            self.make_token(TokenType::SEMICOLON)
        } else if c == 44 {
            self.make_token(TokenType::COMMA)
        } else if c == 46 {
            self.make_token(TokenType::DOT)
        } else if c == 45 {
            self.make_token(TokenType::MINUS)
        } else if c == 43 {
            self.make_token(TokenType::PLUS)
        } else if c == 47 {
            self.make_token(TokenType::SLASH)
        } else if c == 42 {
            self.make_token(TokenType::STAR)
        } else if c == 33 {
            if self.match_token(61) {
                self.make_token(TokenType::BANGEQUAL)
            } else {
                self.make_token(TokenType::BANG)
            }
        } else if c == 61 {
            if self.match_token(61) {
                self.make_token(TokenType::EQUALEQUAL)
            } else {
                self.make_token(TokenType::EQUAL)
            }
        } else if c == 60 {
            if self.match_token(61) {
                self.make_token(TokenType::LESSEQUAL)
            } else {
                self.make_token(TokenType::LESS)
            }
        } else if c == 62 {
            if self.match_token(61) {
                self.make_token(TokenType::GREATEREQUAL)
            } else {
                self.make_token(TokenType::GREATER)
            }
        } else if c == 34 {
            self.match_string()
        } else if digit_byte(c) {
            self.match_number()
        } else if alpha_byte(c) {
            let ghost s = self@.start;
            proof {
                lemma_ident_end_props(src, s + 1);
            }
            while self.current < self.source.len() && ident_byte(self.source[self.current])
                invariant
                    self.wf(),
                    self@.source == src,
                    self@.start == s,
                    self@.line == spec_skip_ws(src, pos0, line0).1,
                    s < self@.current,
                    ident_end(src, self@.current) == ident_end(src, s + 1),
                decreases src.len() - self@.current,
            {
                let _ = self.advance();
            }
            proof {
                assert(ident_end(src, self@.current) == self@.current);
            }
            self.identifier_type()
        } else {
            let msg = unexpected_character_vec();
            self.error_token(msg)
        }
    }
}

/// The keyword table as executable code: compare the lexeme against each
/// keyword's bytes.
fn keyword_lookup(lex: &Vec<u8>) -> (r: TokenType)
    ensures
        r == keyword_or_identifier(lex@),
{
    let n = lex.len();
    if n == 3 && lex[0] == 97 && lex[1] == 110 && lex[2] == 100 {
        proof {
            assert(lex@ =~= seq![97u8, 110u8, 100u8]);
        }
        TokenType::AND
    } else if n == 5 && lex[0] == 99 && lex[1] == 108 && lex[2] == 97 && lex[3] == 115 && lex[4]
        == 115 {
        proof {
            assert(lex@ =~= seq![99u8, 108u8, 97u8, 115u8, 115u8]);
        }
        TokenType::CLASS
    } else if n == 4 && lex[0] == 101 && lex[1] == 108 && lex[2] == 115 && lex[3] == 101 {
        proof {
            assert(lex@ =~= seq![101u8, 108u8, 115u8, 101u8]);
        }
        TokenType::ELSE
    } else if n == 5 && lex[0] == 102 && lex[1] == 97 && lex[2] == 108 && lex[3] == 115 && lex[4]
        == 101 {
        proof {
            assert(lex@ =~= seq![102u8, 97u8, 108u8, 115u8, 101u8]);
        }
        TokenType::FALSE
    } else if n == 3 && lex[0] == 102 && lex[1] == 111 && lex[2] == 114 {
        proof {
            assert(lex@ =~= seq![102u8, 111u8, 114u8]);
        }
        TokenType::FOR
    } else if n == 3 && lex[0] == 102 && lex[1] == 117 && lex[2] == 110 {
        proof {
            assert(lex@ =~= seq![102u8, 117u8, 110u8]);
        }
        TokenType::FUN
    } else if n == 2 && lex[0] == 105 && lex[1] == 102 {
        proof {
            assert(lex@ =~= seq![105u8, 102u8]);
        }
        TokenType::IF
    } else if n == 3 && lex[0] == 110 && lex[1] == 105 && lex[2] == 108 {
        proof {
            assert(lex@ =~= seq![110u8, 105u8, 108u8]);
        }
        TokenType::NIL
    } else if n == 2 && lex[0] == 111 && lex[1] == 114 {
        proof {
            assert(lex@ =~= seq![111u8, 114u8]);
        }
        TokenType::OR
    } else if n == 5 && lex[0] == 112 && lex[1] == 114 && lex[2] == 105 && lex[3] == 110 && lex[4]
        == 116 {
        proof {
            assert(lex@ =~= seq![112u8, 114u8, 105u8, 110u8, 116u8]);
        }
        TokenType::PRINT
    } else if n == 6 && lex[0] == 114 && lex[1] == 101 && lex[2] == 116 && lex[3] == 117 && lex[4]
        == 114 && lex[5] == 110 {
        proof {
            assert(lex@ =~= seq![114u8, 101u8, 116u8, 117u8, 114u8, 110u8]);
        }
        TokenType::RETURN
    } else if n == 5 && lex[0] == 115 && lex[1] == 117 && lex[2] == 112 && lex[3] == 101 && lex[4]
        == 114 {
        proof {
            assert(lex@ =~= seq![115u8, 117u8, 112u8, 101u8, 114u8]);
        }
        TokenType::SUPER
    } else if n == 4 && lex[0] == 116 && lex[1] == 104 && lex[2] == 105 && lex[3] == 115 {
        proof {
            assert(lex@ =~= seq![116u8, 104u8, 105u8, 115u8]);
        }
        TokenType::THIS
    } else if n == 4 && lex[0] == 116 && lex[1] == 114 && lex[2] == 117 && lex[3] == 101 {
        proof {
            assert(lex@ =~= seq![116u8, 114u8, 117u8, 101u8]);
        }
        TokenType::TRUE
    } else if n == 3 && lex[0] == 118 && lex[1] == 97 && lex[2] == 114 {
        proof {
            assert(lex@ =~= seq![118u8, 97u8, 114u8]);
        }
        TokenType::VAR
    } else if n == 5 && lex[0] == 119 && lex[1] == 104 && lex[2] == 105 && lex[3] == 108 && lex[4]
        == 101 {
        proof {
            assert(lex@ =~= seq![119u8, 104u8, 105u8, 108u8, 101u8]);
        }
        TokenType::WHILE
    } else {
        TokenType::IDENTIFIER
    }
}

/// The bytes of the message for an unexpected character.
fn unexpected_character_vec() -> (r: Vec<u8>)
    ensures
        r@ == unexpected_character_msg(),
{
    let r = vec![
        85u8, 110u8, 101u8, 120u8, 112u8, 101u8, 99u8, 116u8, 101u8, 100u8, 32u8, 99u8, 104u8,
        97u8, 114u8, 97u8, 99u8, 116u8, 101u8, 114u8, 46u8,
    ];
    proof {
        assert(r@ =~= unexpected_character_msg());
    }
    r
}

/// The bytes of the message for an unterminated string.
fn unterminated_string_vec() -> (r: Vec<u8>)
    ensures
        r@ == unterminated_string_msg(),
{
    let r = vec![
        85u8, 110u8, 116u8, 101u8, 114u8, 109u8, 105u8, 110u8, 97u8, 116u8, 101u8, 100u8, 32u8,
        115u8, 116u8, 114u8, 105u8, 110u8, 103u8,
    ];
    proof {
        assert(r@ =~= unterminated_string_msg());
    }
    r
}

} // verus!
