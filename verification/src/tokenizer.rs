//! CSS-syntax tokenizer.
//!
//! The input declaration text is scanned byte by byte (each byte is
//! taken as one character, so multi-byte UTF-8 sequences are handled
//! byte-wise). The scan never fails: an unrecognized byte becomes a
//! `Delimeter` token, and the stream always ends with exactly one
//! `EndOfInput` token.
//!
//! The whole scan is specified by [`spec_tokenize`], a recursive
//! mathematical model over the input byte sequence; every public
//! tokenizing function is proved to return exactly what the model says.

use vstd::prelude::*;

verus! {

use vstd::string::StringSliceAdditionalSpecFns;
use vstd::string::StrSliceExecFns;
use vstd::string::StringExecFns;

/// The lexical class of a [`Token`].
#[derive(Debug, Clone, Copy, PartialEq, Eq, Structural)]
pub enum TokenKind {
    Identifier,
    Function,
    At,
    Hash,
    String,
    Url,
    Delimeter,
    Integer,
    Number,
    Percentage,
    Dimension,
    CDO,
    CDC,
    Colon,
    Semicolon,
    Comma,
    SquareParenthesisOpen,
    SquareParenthesisClose,
    ParenthesisOpen,
    ParenthesisClose,
    BracketOpen,
    BracketClose,
    EndOfInput,
}

/// The display name of each token kind, used in diagnostics.
pub open spec fn spec_kind_name(kind: TokenKind) -> Seq<char> {
    match kind {
        TokenKind::Identifier => "identifier"@,
        TokenKind::Function => "function"@,
        TokenKind::At => "@"@,
        TokenKind::Hash => "#"@,
        TokenKind::String => "string"@,
        TokenKind::Url => "url"@,
        TokenKind::Delimeter => "delimeter"@,
        TokenKind::Integer => "integer"@,
        TokenKind::Number => "number"@,
        TokenKind::Percentage => "%"@,
        TokenKind::Dimension => "dimension"@,
        TokenKind::CDO => "<!--"@,
        TokenKind::CDC => "-->"@,
        TokenKind::Colon => ":"@,
        TokenKind::Semicolon => ";"@,
        TokenKind::Comma => ","@,
        TokenKind::SquareParenthesisOpen => "["@,
        TokenKind::SquareParenthesisClose => "]"@,
        TokenKind::ParenthesisOpen => "("@,
        TokenKind::ParenthesisClose => ")"@,
        TokenKind::BracketOpen => "{"@,
        TokenKind::BracketClose => "}"@,
        TokenKind::EndOfInput => "end of input"@,
    }
}

impl TokenKind {
    /// The display name of this token kind.
    pub fn to_string(&self) -> (s: String)
        ensures
            s@ == spec_kind_name(*self),
    {
        match self {
            TokenKind::Identifier => String::from_str("identifier"),
            TokenKind::Function => String::from_str("function"),
            TokenKind::At => String::from_str("@"),
            TokenKind::Hash => String::from_str("#"),
            TokenKind::String => String::from_str("string"),
            TokenKind::Url => String::from_str("url"),
            TokenKind::Delimeter => String::from_str("delimeter"),
            TokenKind::Integer => String::from_str("integer"),
            TokenKind::Number => String::from_str("number"),
            TokenKind::Percentage => String::from_str("%"),
            TokenKind::Dimension => String::from_str("dimension"),
            TokenKind::CDO => String::from_str("<!--"),
            TokenKind::CDC => String::from_str("-->"),
            TokenKind::Colon => String::from_str(":"),
            TokenKind::Semicolon => String::from_str(";"),
            TokenKind::Comma => String::from_str(","),
            TokenKind::SquareParenthesisOpen => String::from_str("["),
            TokenKind::SquareParenthesisClose => String::from_str("]"),
            TokenKind::ParenthesisOpen => String::from_str("("),
            TokenKind::ParenthesisClose => String::from_str(")"),
            TokenKind::BracketOpen => String::from_str("{"),
            TokenKind::BracketClose => String::from_str("}"),
            TokenKind::EndOfInput => String::from_str("end of input"),
        }
    }
}

/// One lexical token: its kind, its literal text, and (for `Dimension`
/// tokens only) its unit text.
#[derive(Debug, Clone)]
pub struct Token {
    pub kind: TokenKind,
    pub value: String,
    pub unit: String,
}

/// Mathematical model of a [`Token`].
#[verifier::ext_equal]
pub struct TokenModel {
    pub kind: TokenKind,
    pub value: Seq<char>,
    pub unit: Seq<char>,
}

impl View for Token {
    type V = TokenModel;

    open spec fn view(&self) -> TokenModel {
        TokenModel { kind: self.kind, value: self.value@, unit: self.unit@ }
    }
}

/// Appends one character to a string.
///
/// Relies on `String::push`, which appends exactly the given character.
#[verifier::external_body]
fn push_char(s: &mut String, c: char)
    ensures
        final(s)@ == old(s)@ + seq![c],
{
    s.push(c);
}

/// Membership in a sequence extended by one element.
proof fn lemma_append_one_contains(s: Seq<char>, c: char, x: char)
    ensures
        (s + seq![c]).contains(x) <==> (s.contains(x) || c == x),
{
    let t = s + seq![c];
    if t.contains(x) {
        let i = choose|i: int| 0 <= i < t.len() && t[i] == x;
        if i < s.len() {
            assert(s[i] == x);
        }
    }
    if s.contains(x) {
        let i = choose|i: int| 0 <= i < s.len() && s[i] == x;
        assert(t[i] == x);
    }
    if c == x {
        assert(t[s.len() as int] == x);
    }
}

impl Token {
    /// Whether the token's literal text is an integer reading: it
    /// carries no decimal point.
    pub fn is_int(&self) -> (r: bool)
        ensures
            r == !self@.value.contains('.'),
    {
        let text = self.value.as_str();
        let n = text.unicode_len();
        let mut i: usize = 0;
        while i < n
            invariant
                text@ == self.value@,
                n == text@.len(),
                i <= n,
                forall|j: int| 0 <= j < i ==> text@[j] != '.',
            decreases n - i,
        {
            if text.get_char(i) == '.' {
                assert(self@.value.contains('.')) by {
                    assert(self@.value[i as int] == '.');
                }
                return false;
            }
            i += 1;
        }
        assert(!self@.value.contains('.')) by {
            if self@.value.contains('.') {
                let j = choose|j: int| 0 <= j < self@.value.len() && self@.value[j] == '.';
                assert(text@[j] != '.');
            }
        }
        return true;
    }

    /// A token with no literal text.
    pub fn simple(kind: TokenKind) -> (t: Token)
        ensures
            t@.kind == kind,
            t@.value == Seq::<char>::empty(),
            t@.unit == Seq::<char>::empty(),
    {
        Token { kind: kind, value: String::new(), unit: String::new() }
    }

    /// A token whose literal text is one character.
    pub fn for_char(kind: TokenKind, value: char) -> (t: Token)
        ensures
            t@.kind == kind,
            t@.value == seq![value],
            t@.unit == Seq::<char>::empty(),
    {
        let mut text = String::new();
        push_char(&mut text, value);
        assert(text@ =~= seq![value]);
        Token { kind: kind, value: text, unit: String::new() }
    }

    /// A token with the given literal text.
    pub fn for_string(kind: TokenKind, value: String) -> (t: Token)
        ensures
            t@.kind == kind,
            t@.value == value@,
            t@.unit == Seq::<char>::empty(),
    {
        Token { kind: kind, value: value, unit: String::new() }
    }

    /// A `Dimension` token with the given magnitude text and unit text.
    pub fn for_dimension(value: String, unit: String) -> (t: Token)
        ensures
            t@.kind == TokenKind::Dimension,
            t@.value == value@,
            t@.unit == unit@,
    {
        Token { kind: TokenKind::Dimension, value: value, unit: unit }
    }
}

/// Whitespace bytes, as `char::is_whitespace` classifies the
/// corresponding characters below `0x100`.
pub open spec fn is_whitespace_byte(b: u8) -> bool {
    b == 0x09 || b == 0x0a || b == 0x0b || b == 0x0c || b == 0x0d || b == 0x20 || b == 0x85
        || b == 0xa0
}

/// Alphabetic bytes, as `char::is_alphabetic` classifies the
/// corresponding characters below `0x100`.
pub open spec fn is_alphabetic_byte(b: u8) -> bool {
    (0x41 <= b && b <= 0x5a) || (0x61 <= b && b <= 0x7a) || b == 0xaa || b == 0xb5 || b == 0xba
        || (0xc0 <= b && b <= 0xd6) || (0xd8 <= b && b <= 0xf6) || 0xf8 <= b
}

/// Numeric bytes, as `char::is_numeric` classifies the corresponding
/// characters below `0x100` (the decimal digits plus the Latin-1
/// superscript and fraction characters).
pub open spec fn is_numeric_byte(b: u8) -> bool {
    (0x30 <= b && b <= 0x39) || b == 0xb2 || b == 0xb3 || b == 0xb9 || b == 0xbc || b == 0xbd
        || b == 0xbe
}

/// Alphanumeric bytes: alphabetic or numeric.
pub open spec fn is_alphanumeric_byte(b: u8) -> bool {
    is_alphabetic_byte(b) || is_numeric_byte(b)
}

/// Bytes that may continue an identifier: alphanumeric, `_` or `-`.
pub open spec fn spec_is_allowed_identifier_char(b: u8) -> bool {
    is_alphanumeric_byte(b) || b == 0x5f || b == 0x2d
}

fn whitespace_byte(b: u8) -> (r: bool)
    ensures
        r == is_whitespace_byte(b),
{
    b == 0x09 || b == 0x0a || b == 0x0b || b == 0x0c || b == 0x0d || b == 0x20 || b == 0x85
        || b == 0xa0
}

fn alphabetic_byte(b: u8) -> (r: bool)
    ensures
        r == is_alphabetic_byte(b),
{
    (0x41 <= b && b <= 0x5a) || (0x61 <= b && b <= 0x7a) || b == 0xaa || b == 0xb5 || b == 0xba
        || (0xc0 <= b && b <= 0xd6) || (0xd8 <= b && b <= 0xf6) || 0xf8 <= b
}

fn numeric_byte(b: u8) -> (r: bool)
    ensures
        r == is_numeric_byte(b),
{
    (0x30 <= b && b <= 0x39) || b == 0xb2 || b == 0xb3 || b == 0xb9 || b == 0xbc || b == 0xbd
        || b == 0xbe
}

fn alphanumeric_byte(b: u8) -> (r: bool)
    ensures
        r == is_alphanumeric_byte(b),
{
    alphabetic_byte(b) || numeric_byte(b)
}

/// The byte at position `p`, or `0` past either end of the input.
pub open spec fn peek_byte(b: Seq<u8>, p: int) -> u8 {
    if 0 <= p < b.len() {
        b[p]
    } else {
        0
    }
}

/// The bytes of `b` in `[from, to)`, each read as one character.
pub open spec fn chars_of(b: Seq<u8>, from: int, to: int) -> Seq<char> {
    Seq::new(if to >= from { (to - from) as nat } else { 0 }, |i: int| b[from + i] as char)
}

/// The first position at or after `p` whose byte cannot continue an
/// identifier (or the end of the input).
pub open spec fn ident_end(b: Seq<u8>, p: int) -> int
    decreases b.len() - p,
{
    if !(0 <= p < b.len()) {
        p
    } else if spec_is_allowed_identifier_char(b[p]) {
        ident_end(b, p + 1)
    } else {
        p
    }
}

/// The position where a numeric run scanned from `p` stops: at the
/// first byte that is neither a digit nor a first decimal point.
pub open spec fn num_end(b: Seq<u8>, p: int, has_dot: bool) -> int
    decreases b.len() - p,
{
    if !(0 <= p < b.len()) {
        p
    } else if b[p] == 0x2e {
        if has_dot {
            p
        } else {
            num_end(b, p + 1, true)
        }
    } else if is_numeric_byte(b[p]) {
        num_end(b, p + 1, has_dot)
    } else {
        p
    }
}

/// The position of the byte that terminates a quoted string scanned
/// from `p` (the closing quote or a line break), or the end of the
/// input when the string is unterminated.
pub open spec fn string_value_end(b: Seq<u8>, p: int, quote: u8) -> int
    decreases b.len() - p,
{
    if !(0 <= p < b.len()) {
        p
    } else if b[p] == quote || b[p] == 0x0d || b[p] == 0x0a {
        p
    } else {
        string_value_end(b, p + 1, quote)
    }
}

/// Whether the bytes at `p` would start an identifier after a number:
/// a dash or an alphanumeric byte.
pub open spec fn spec_would_start_identifier(b: Seq<u8>, p: int) -> bool {
    peek_byte(b, p) == 0x2d || is_alphanumeric_byte(peek_byte(b, p))
}

/// An identifier read whose first character sits at `pos - 1`: up to
/// two leading dashes are consumed as a custom-property prefix, then
/// the run of allowed identifier characters. Returns the text and the
/// position after it.
pub open spec fn spec_read_identifier(b: Seq<u8>, pos: int) -> (Seq<char>, int)
    recommends
        1 <= pos <= b.len(),
{
    let (cur, p) = if b[pos - 1] == 0x2d && pos < b.len() {
        if b[pos] == 0x2d && pos + 1 < b.len() {
            (pos + 1, pos + 2)
        } else {
            (pos, pos + 1)
        }
    } else {
        (pos - 1, pos)
    };
    let e = ident_end(b, p);
    (chars_of(b, cur, e), e)
}

/// A numeric run whose first character sits at `pos - 1`. Returns the
/// text (sign, digits and at most one dot) and the position after it.
pub open spec fn spec_read_number(b: Seq<u8>, pos: int) -> (Seq<char>, int)
    recommends
        1 <= pos <= b.len(),
{
    let e = num_end(b, pos, false);
    (chars_of(b, pos - 1, e), e)
}

/// Model of an `EndOfInput` token.
pub open spec fn eoi_model() -> TokenModel {
    TokenModel {
        kind: TokenKind::EndOfInput,
        value: Seq::<char>::empty(),
        unit: Seq::<char>::empty(),
    }
}

/// Model of a token with the given text and no unit.
pub open spec fn text_model(kind: TokenKind, value: Seq<char>) -> TokenModel {
    TokenModel { kind: kind, value: value, unit: Seq::<char>::empty() }
}

/// Model of a token whose text is the single character read from `ch`.
pub open spec fn char_model(kind: TokenKind, ch: u8) -> TokenModel {
    text_model(kind, seq![ch as char])
}

/// The next token of `b` when scanning starts at `pos`, and the
/// position right after it. Scanning skips whitespace and comments; at
/// or past the end of the input the token is `EndOfInput` and the
/// position does not move.
pub open spec fn spec_next(b: Seq<u8>, pos: int) -> (TokenModel, int)
    decreases b.len() - pos, 1int,
{
    if !(0 <= pos < b.len()) {
        (eoi_model(), pos)
    } else {
        let ch = b[pos];
        let p = pos + 1;
        if is_whitespace_byte(ch) {
            spec_next(b, p)
        } else if (is_alphabetic_byte(ch) || ch == 0x2d) && !is_numeric_byte(peek_byte(b, p)) {
            let (value, e) = spec_read_identifier(b, p);
            if peek_byte(b, e) == 0x28 {
                (text_model(TokenKind::Function, value), e + 1)
            } else {
                (text_model(TokenKind::Identifier, value), e)
            }
        } else if is_numeric_byte(ch) || ch == 0x2b || ch == 0x2d {
            let (value, e) = spec_read_number(b, pos + 1);
            if spec_would_start_identifier(b, e) {
                let (unit, e2) = spec_read_identifier(b, e + 1);
                (TokenModel { kind: TokenKind::Dimension, value: value, unit: unit }, e2)
            } else if peek_byte(b, e) == 0x25 {
                (text_model(TokenKind::Percentage, value), e + 1)
            } else if !value.contains('.') {
                (text_model(TokenKind::Integer, value), e)
            } else {
                (text_model(TokenKind::Number, value), e)
            }
        } else if ch == 0x22 || ch == 0x27 {
            let ve = string_value_end(b, p, ch);
            let value = chars_of(b, p, ve);
            (text_model(TokenKind::String, value), if ve < b.len() { ve + 1 } else { ve })
        } else if ch == 0x40 {
            let (value, e) = spec_read_identifier(b, p);
            (text_model(TokenKind::At, value), e)
        } else if ch == 0x23 {
            if p < b.len() && spec_is_allowed_identifier_char(b[p]) {
                let (value, e) = spec_read_identifier(b, p + 1);
                (text_model(TokenKind::Hash, value), e)
            } else {
                (char_model(TokenKind::Delimeter, ch), p)
            }
        } else if ch == 0x2f && peek_byte(b, p) == 0x2a {
            spec_next_in_comment(b, p)
        } else if ch == 0x2c {
            (char_model(TokenKind::Comma, ch), p)
        } else if ch == 0x3a {
            (char_model(TokenKind::Colon, ch), p)
        } else if ch == 0x3b {
            (char_model(TokenKind::Semicolon, ch), p)
        } else {
            (char_model(TokenKind::Delimeter, ch), p)
        }
    }
}

/// The next token when the scan stands inside a comment opened before
/// `pos`: bytes are consumed up to and past the closing `*/`, then the
/// ordinary scan resumes; an unterminated comment runs to the end of
/// the input.
pub open spec fn spec_next_in_comment(b: Seq<u8>, pos: int) -> (TokenModel, int)
    decreases b.len() - pos, 0int,
{
    if !(0 <= pos < b.len()) {
        (eoi_model(), if pos < 0 { pos } else { b.len() as int })
    } else if b[pos] == 0x2a && peek_byte(b, pos + 1) == 0x2f {
        spec_next(b, pos + 2)
    } else {
        spec_next_in_comment(b, pos + 1)
    }
}

/// `ident_end` never moves backwards and never passes the end.
pub proof fn lemma_ident_end_bounds(b: Seq<u8>, p: int)
    requires
        0 <= p <= b.len(),
    ensures
        p <= ident_end(b, p) <= b.len(),
    decreases b.len() - p,
{
    if p < b.len() && spec_is_allowed_identifier_char(b[p]) {
        lemma_ident_end_bounds(b, p + 1);
    }
}

/// `num_end` never moves backwards and never passes the end.
pub proof fn lemma_num_end_bounds(b: Seq<u8>, p: int, has_dot: bool)
    requires
        0 <= p <= b.len(),
    ensures
        p <= num_end(b, p, has_dot) <= b.len(),
    decreases b.len() - p,
{
    if p < b.len() {
        if b[p] == 0x2e && !has_dot {
            lemma_num_end_bounds(b, p + 1, true);
        } else if b[p] != 0x2e && is_numeric_byte(b[p]) {
            lemma_num_end_bounds(b, p + 1, has_dot);
        }
    }
}

/// `string_value_end` never moves backwards and never passes the end.
pub proof fn lemma_string_value_end_bounds(b: Seq<u8>, p: int, quote: u8)
    requires
        0 <= p <= b.len(),
    ensures
        p <= string_value_end(b, p, quote) <= b.len(),
    decreases b.len() - p,
{
    if p < b.len() && !(b[p] == quote || b[p] == 0x0d || b[p] == 0x0a) {
        lemma_string_value_end_bounds(b, p + 1, quote);
    }
}

/// The scan makes progress: the position after a token never goes
/// backwards nor past the end, and strictly advances unless the token
/// is `EndOfInput`; `EndOfInput` comes exactly at the end of the input.
pub proof fn lemma_next_progress(b: Seq<u8>, pos: int)
    requires
        0 <= pos <= b.len(),
    ensures
        pos <= spec_next(b, pos).1 <= b.len(),
        spec_next(b, pos).0.kind != TokenKind::EndOfInput ==> spec_next(b, pos).1 > pos,
        spec_next(b, pos).0.kind == TokenKind::EndOfInput ==> spec_next(b, pos).1 == b.len(),
    decreases b.len() - pos, 1int,
{
    if 0 <= pos < b.len() {
        let ch = b[pos];
        let p = pos + 1;
        if is_whitespace_byte(ch) {
            lemma_next_progress(b, p);
        } else if (is_alphabetic_byte(ch) || ch == 0x2d) && !is_numeric_byte(peek_byte(b, p)) {
            lemma_read_identifier_bounds(b, p);
        } else if is_numeric_byte(ch) || ch == 0x2b || ch == 0x2d {
            lemma_num_end_bounds(b, p, false);
            let e = num_end(b, p, false);
            if spec_would_start_identifier(b, e) {
                assert(peek_byte(b, e) != 0);
                assert(e < b.len());
                lemma_read_identifier_bounds(b, e + 1);
            }
        } else if ch == 0x22 || ch == 0x27 {
            lemma_string_value_end_bounds(b, p, ch);
        } else if ch == 0x40 {
            lemma_read_identifier_bounds(b, p);
        } else if ch == 0x23 {
            if p < b.len() && spec_is_allowed_identifier_char(b[p]) {
                lemma_read_identifier_bounds(b, p + 1);
            }
        } else if ch == 0x2f && peek_byte(b, p) == 0x2a {
            lemma_next_in_comment_progress(b, p);
        }
    }
}

/// Progress of the scan inside a comment, as in [`lemma_next_progress`].
pub proof fn lemma_next_in_comment_progress(b: Seq<u8>, pos: int)
    requires
        0 <= pos <= b.len(),
    ensures
        pos <= spec_next_in_comment(b, pos).1 <= b.len(),
        spec_next_in_comment(b, pos).0.kind != TokenKind::EndOfInput ==> spec_next_in_comment(
            b,
            pos,
        ).1 > pos,
        spec_next_in_comment(b, pos).0.kind == TokenKind::EndOfInput ==> spec_next_in_comment(
            b,
            pos,
        ).1 == b.len(),
    decreases b.len() - pos, 0int,
{
    if 0 <= pos < b.len() {
        if b[pos] == 0x2a && peek_byte(b, pos + 1) == 0x2f {
            lemma_next_progress(b, pos + 2);
        } else {
            lemma_next_in_comment_progress(b, pos + 1);
        }
    }
}

/// Bounds of [`spec_read_identifier`]: the end position lies between
/// the scan position and the end of the input.
pub proof fn lemma_read_identifier_bounds(b: Seq<u8>, pos: int)
    requires
        1 <= pos <= b.len(),
    ensures
        pos <= spec_read_identifier(b, pos).1 <= b.len(),
{
    if b[pos - 1] == 0x2d && pos < b.len() {
        if b[pos] == 0x2d && pos + 1 < b.len() {
            lemma_ident_end_bounds(b, pos + 2);
        } else {
            lemma_ident_end_bounds(b, pos + 1);
        }
    } else {
        lemma_ident_end_bounds(b, pos);
    }
}

/// The token sequence of `b` from `pos` on: tokens as [`spec_next`]
/// yields them, ended by the one `EndOfInput` token.
pub open spec fn spec_tokens_from(b: Seq<u8>, pos: int) -> Seq<TokenModel>
    decreases b.len() - pos,
        via spec_tokens_from_decreases
{
    let (t, p2) = spec_next(b, pos);
    if t.kind == TokenKind::EndOfInput {
        seq![t]
    } else {
        seq![t] + spec_tokens_from(b, p2)
    }
}

#[via_fn]
proof fn spec_tokens_from_decreases(b: Seq<u8>, pos: int) {
    let (t, p2) = spec_next(b, pos);
    if t.kind != TokenKind::EndOfInput {
        if pos < 0 || pos >= b.len() {
            assert(false);
        } else {
            lemma_next_progress(b, pos);
        }
    }
}

/// The full token sequence of the input bytes `b`.
pub open spec fn spec_tokenize(b: Seq<u8>) -> Seq<TokenModel> {
    spec_tokens_from(b, 0)
}

/// Every tokenized stream holds at least the terminal token, its last
/// token is `EndOfInput`, and no earlier token is.
pub proof fn lemma_tokens_terminated(b: Seq<u8>, pos: int)
    requires
        0 <= pos <= b.len(),
    ensures
        spec_tokens_from(b, pos).len() >= 1,
        spec_tokens_from(b, pos).last().kind == TokenKind::EndOfInput,
        forall|i: int|
            0 <= i < spec_tokens_from(b, pos).len() - 1 ==> spec_tokens_from(b, pos)[i].kind
                != TokenKind::EndOfInput,
    decreases b.len() - pos,
{
    let (t, p2) = spec_next(b, pos);
    if t.kind != TokenKind::EndOfInput {
        lemma_next_progress(b, pos);
        lemma_tokens_terminated(b, p2);
    }
}

/// The byte-by-byte scanner over one input string.
pub struct Tokenizer {
    input: Vec<u8>,
    buffer_pos: usize,
    buffer_len: usize,
}

impl Tokenizer {
    /// The scanner's recorded length matches its buffer and the
    /// position has not run past the end.
    pub closed spec fn wf(&self) -> bool {
        self.buffer_len == self.input@.len() && self.buffer_pos <= self.buffer_len
    }

    /// The bytes being scanned.
    pub closed spec fn bytes(&self) -> Seq<u8> {
        self.input@
    }

    /// The current scan position.
    pub closed spec fn pos(&self) -> int {
        self.buffer_pos as int
    }

    /// A scanner over the bytes of `input`, positioned at its start.
    pub fn new(input: &str) -> (t: Tokenizer)
        ensures
            t.wf(),
            t.bytes() == input.spec_bytes(),
            t.pos() == 0,
    {
        let bytes = input.as_bytes_vec();
        let n = bytes.len();
        Tokenizer { input: bytes, buffer_pos: 0, buffer_len: n }
    }

    /// Whether the whole input has been consumed.
    pub fn is_out_of_bounds(&self) -> (r: bool)
        requires
            self.wf(),
        ensures
            r == (self.pos() >= self.bytes().len()),
    {
        self.buffer_pos >= self.buffer_len
    }

    /// The byte just consumed.
    fn current_char(&self) -> (c: u8)
        requires
            self.wf(),
            1 <= self.pos(),
        ensures
            c == self.bytes()[self.pos() - 1],
    {
        self.input[self.buffer_pos - 1]
    }

    /// The next byte, without consuming it; `0` at the end of the
    /// input.
    fn peek_char(&self) -> (c: u8)
        requires
            self.wf(),
        ensures
            c == peek_byte(self.bytes(), self.pos()),
    {
        if self.is_out_of_bounds() {
            return 0;
        }
        self.input[self.buffer_pos]
    }

    /// Consumes and returns the next byte.
    fn next_char(&mut self) -> (c: u8)
        requires
            old(self).wf(),
            old(self).pos() < old(self).bytes().len(),
        ensures
            final(self).wf(),
            final(self).bytes() == old(self).bytes(),
            final(self).pos() == old(self).pos() + 1,
            c == old(self).bytes()[old(self).pos()],
    {
        let c = self.input[self.buffer_pos];
        self.buffer_pos += 1;
        c
    }

    /// Steps one byte back.
    fn previous_char(&mut self)
        requires
            old(self).wf(),
            1 <= old(self).pos(),
        ensures
            final(self).wf(),
            final(self).bytes() == old(self).bytes(),
            final(self).pos() == old(self).pos() - 1,
    {
        self.buffer_pos -= 1;
    }

    /// Line-break bytes, which close a string early.
    fn is_newline(&self, ch: u8) -> (r: bool)
        ensures
            r == (ch == 0x0d || ch == 0x0a),
    {
        ch == 0x0d || ch == 0x0a
    }

    /// Bytes that may continue an identifier.
    fn is_allowed_identifier_char(&self, c: u8) -> (r: bool)
        ensures
            r == spec_is_allowed_identifier_char(c),
    {
        alphanumeric_byte(c) || c == 0x5f || c == 0x2d
    }

    /// Whether the upcoming bytes would start an identifier (so that a
    /// number is followed by a unit). Never consumes on a negative
    /// answer.
    fn would_start_identifier(&mut self) -> (r: bool)
        requires
            old(self).wf(),
        ensures
            final(self).wf(),
            final(self).bytes() == old(self).bytes(),
            final(self).pos() == old(self).pos(),
            r == spec_would_start_identifier(old(self).bytes(), old(self).pos()),
    {
        let x1 = self.peek_char();
        if x1 == 0x2d {
            let x2 = self.next_char();
            if alphanumeric_byte(x2) || x2 == 0x2d {
                self.previous_char();
                return true;
            }
            self.previous_char();
        } else {
            if alphanumeric_byte(x1) {
                return true;
            }
        }
        return false;
    }

    /// Reads the identifier whose first character was just consumed;
    /// see [`spec_read_identifier`].
    fn read_identifier(&mut self) -> (value: String)
        requires
            old(self).wf(),
            1 <= old(self).pos(),
        ensures
            final(self).wf(),
            final(self).bytes() == old(self).bytes(),
            value@ == spec_read_identifier(old(self).bytes(), old(self).pos()).0,
            final(self).pos() == spec_read_identifier(old(self).bytes(), old(self).pos()).1,
    {
        let ghost b = self.bytes();
        let ghost pos0 = self.pos();
        if self.current_char() == 0x2d && !self.is_out_of_bounds() {
            self.next_char();
            if self.current_char() == 0x2d && !self.is_out_of_bounds() {
                self.next_char();
            }
        }
        let ghost cur = self.pos() - 1;
        let ghost p = self.pos();
        let mut identifier = String::new();
        push_char(&mut identifier, self.current_char() as char);
        assert(identifier@ =~= chars_of(b, cur, p));
        while !self.is_out_of_bounds()
            invariant
                self.wf(),
                self.bytes() == b,
                cur == p - 1,
                1 <= p,
                p <= self.pos() <= b.len(),
                identifier@ =~= chars_of(b, cur, self.pos()),
                ident_end(b, p) == ident_end(b, self.pos()),
            ensures
                self.wf(),
                self.bytes() == b,
                identifier@ =~= chars_of(b, cur, self.pos()),
                self.pos() == ident_end(b, p),
            decreases b.len() - self.pos(),
        {
            let ch = self.next_char();
            if !self.is_allowed_identifier_char(ch) {
                self.previous_char();
                assert(ident_end(b, self.pos()) == self.pos());
                break ;
            }
            assert(identifier@ + seq![ch as char] =~= chars_of(b, cur, self.pos()));
            push_char(&mut identifier, ch as char);
        }
        identifier
    }

    /// Reads the numeric run whose first character was just consumed;
    /// see [`spec_read_number`]. The flag reports whether no decimal
    /// point was seen.
    fn read_number(&mut self) -> (r: (String, bool))
        requires
            old(self).wf(),
            1 <= old(self).pos(),
            old(self).bytes()[old(self).pos() - 1] != 0x2e,
        ensures
            final(self).wf(),
            final(self).bytes() == old(self).bytes(),
            r.0@ == spec_read_number(old(self).bytes(), old(self).pos()).0,
            final(self).pos() == spec_read_number(old(self).bytes(), old(self).pos()).1,
            r.1 == !r.0@.contains('.'),
    {
        let ghost b = self.bytes();
        let ghost pos0 = self.pos();
        let mut value = String::new();
        push_char(&mut value, self.current_char() as char);
        let mut has_dot = false;
        let mut is_int = true;
        assert(value@ =~= chars_of(b, pos0 - 1, pos0));
        assert(!value@.contains('.')) by {
            if value@.contains('.') {
                let i = choose|i: int| 0 <= i < value@.len() && value@[i] == '.';
                assert(value@[0] == b[pos0 - 1] as char);
            }
        }
        while !self.is_out_of_bounds()
            invariant
                self.wf(),
                self.bytes() == b,
                1 <= pos0,
                b[pos0 - 1] != 0x2e,
                pos0 <= self.pos() <= b.len(),
                value@ =~= chars_of(b, pos0 - 1, self.pos()),
                num_end(b, pos0, false) == num_end(b, self.pos(), has_dot),
                is_int == !has_dot,
                has_dot == value@.contains('.'),
            ensures
                self.wf(),
                self.bytes() == b,
                value@ =~= chars_of(b, pos0 - 1, self.pos()),
                self.pos() == num_end(b, pos0, false),
                is_int == !has_dot,
                has_dot == value@.contains('.'),
            decreases b.len() - self.pos(),
        {
            let ch = self.next_char();
            if ch == 0x2e {
                if has_dot {
                    self.previous_char();
                    assert(num_end(b, self.pos(), has_dot) == self.pos());
                    break ;
                } else {
                    is_int = false;
                    has_dot = true;
                }
            } else {
                if !numeric_byte(ch) {
                    self.previous_char();
                    assert(num_end(b, self.pos(), has_dot) == self.pos());
                    break ;
                }
            }
            assert(value@ + seq![ch as char] =~= chars_of(b, pos0 - 1, self.pos()));
            proof {
                lemma_append_one_contains(value@, ch as char, '.');
            }
            push_char(&mut value, ch as char);
        }
        (value, is_int)
    }

    /// Reads a quoted string's contents after its opening quote:
    /// characters up to the matching quote or a line break, either of
    /// which is consumed, or to the end of the input.
    fn read_string(&mut self, end_char: u8) -> (value: String)
        requires
            old(self).wf(),
        ensures
            final(self).wf(),
            final(self).bytes() == old(self).bytes(),
            value@ == chars_of(
                old(self).bytes(),
                old(self).pos(),
                string_value_end(old(self).bytes(), old(self).pos(), end_char),
            ),
            final(self).pos() == ({
                let ve = string_value_end(old(self).bytes(), old(self).pos(), end_char);
                if ve < old(self).bytes().len() {
                    ve + 1
                } else {
                    ve
                }
            }),
    {
        let ghost b = self.bytes();
        let ghost pos0 = self.pos();
        let mut value = String::new();
        assert(value@ =~= chars_of(b, pos0, pos0));
        while !self.is_out_of_bounds()
            invariant_except_break
                value@ =~= chars_of(b, pos0, self.pos()),
                string_value_end(b, pos0, end_char) == string_value_end(
                    b,
                    self.pos(),
                    end_char,
                ),
            invariant
                self.wf(),
                self.bytes() == b,
                0 <= pos0,
                pos0 <= self.pos() <= b.len(),
            ensures
                self.wf(),
                self.bytes() == b,
                value@ =~= chars_of(b, pos0, string_value_end(b, pos0, end_char)),
                self.pos() == ({
                    let ve = string_value_end(b, pos0, end_char);
                    if ve < b.len() {
                        ve + 1
                    } else {
                        ve
                    }
                }),
            decreases b.len() - self.pos(),
        {
            let ch = self.next_char();
            if self.is_newline(ch) || ch == end_char {
                assert(string_value_end(b, self.pos() - 1, end_char) == self.pos() - 1);
                break ;
            }
            assert(value@ + seq![ch as char] =~= chars_of(b, pos0, self.pos()));
            push_char(&mut value, ch as char);
        }
        value
    }

    /// Produces the next token; see [`spec_next`].
    #[verifier::rlimit(100)]
    fn next(&mut self) -> (t: Token)
        requires
            old(self).wf(),
        ensures
            final(self).wf(),
            final(self).bytes() == old(self).bytes(),
            t@ == spec_next(old(self).bytes(), old(self).pos()).0,
            final(self).pos() == spec_next(old(self).bytes(), old(self).pos()).1,
        decreases old(self).buffer_len - old(self).buffer_pos,
    {
        let ghost b = self.bytes();
        let ghost pos0 = self.pos();
        if self.is_out_of_bounds() {
            let t = Token::simple(TokenKind::EndOfInput);
            assert(t@ =~= eoi_model());
            return t;
        }
        let ch = self.next_char();

        if whitespace_byte(ch) {
            return self.next();
        }
        // <ident-token>
        if alphabetic_byte(ch) || ch == 0x2d {
            if !numeric_byte(self.peek_char()) {
                let value = self.read_identifier();
                // might become <function-token>
                if self.peek_char() == 0x28 {
                    self.next_char();
                    let t = Token::for_string(TokenKind::Function, value);
                    assert(t@ =~= spec_next(b, pos0).0);
                    return t;
                }
                let t = Token::for_string(TokenKind::Identifier, value);
                assert(t@ =~= spec_next(b, pos0).0);
                return t;
            }
        }
        if numeric_byte(ch) || ch == 0x2b || ch == 0x2d {
            let (value, is_int) = self.read_number();

            if self.would_start_identifier() {
                assert(peek_byte(b, self.pos()) != 0);
                self.next_char();
                let dimension = self.read_identifier();
                let t = Token::for_dimension(value, dimension);
                assert(t@ =~= spec_next(b, pos0).0);
                return t;
            }
            if self.peek_char() == 0x25 {
                self.next_char();
                let t = Token::for_string(TokenKind::Percentage, value);
                assert(t@ =~= spec_next(b, pos0).0);
                return t;
            }
            if is_int {
                let t = Token::for_string(TokenKind::Integer, value);
                assert(t@ =~= spec_next(b, pos0).0);
                return t;
            } else {
                let t = Token::for_string(TokenKind::Number, value);
                assert(t@ =~= spec_next(b, pos0).0);
                return t;
            }
        }
        // <string-token>
        if ch == 0x22 || ch == 0x27 {
            let value = self.read_string(ch);
            let t = Token::for_string(TokenKind::String, value);
            assert(t@ =~= spec_next(b, pos0).0);
            return t;
        }
        if ch == 0x40 {
            let value = self.read_identifier();
            let t = Token::for_string(TokenKind::At, value);
            assert(t@ =~= spec_next(b, pos0).0);
            return t;
        }
        if ch == 0x23 {
            if !self.is_out_of_bounds() {
                let nx = self.peek_char();
                if self.is_allowed_identifier_char(nx) {
                    self.next_char();
                    let value = self.read_identifier();
                    let t = Token::for_string(TokenKind::Hash, value);
                    assert(t@ =~= spec_next(b, pos0).0);
                    return t;
                }
            }
            let t = Token::for_char(TokenKind::Delimeter, ch as char);
            assert(t@ =~= spec_next(b, pos0).0);
            return t;
        }
        if ch == 0x2f && self.peek_char() == 0x2a {
            while !self.is_out_of_bounds()
                invariant_except_break
                    spec_next_in_comment(b, pos0 + 1) == spec_next_in_comment(b, self.pos()),
                invariant
                    self.wf(),
                    self.bytes() == b,
                    0 <= pos0,
                    pos0 + 1 <= self.pos() <= b.len(),
                ensures
                    self.wf(),
                    self.bytes() == b,
                    pos0 + 1 <= self.pos() <= b.len(),
                    spec_next_in_comment(b, pos0 + 1) == spec_next(b, self.pos()),
                decreases b.len() - self.pos(),
            {
                let ch2 = self.next_char();
                if ch2 == 0x2a && self.peek_char() == 0x2f {
                    self.next_char();
                    assert(spec_next_in_comment(b, self.pos() - 2) == spec_next(b, self.pos()));
                    break ;
                }
            }
            return self.next();
        }
        // other possibilities
        let t = if ch == 0x2c {
            Token::for_char(TokenKind::Comma, ch as char)
        } else if ch == 0x3a {
            Token::for_char(TokenKind::Colon, ch as char)
        } else if ch == 0x3b {
            Token::for_char(TokenKind::Semicolon, ch as char)
        } else {
            Token::for_char(TokenKind::Delimeter, ch as char)
        };
        assert(t@ =~= spec_next(b, pos0).0);
        t
    }

    /// Tokenizes the whole input: the token sequence of
    /// [`spec_tokenize`], ending with the one `EndOfInput` token, with
    /// every input byte consumed.
    pub fn tokenize(&mut self) -> (tokens: Vec<Token>)
        requires
            old(self).wf(),
        ensures
            final(self).wf(),
            final(self).bytes() == old(self).bytes(),
            tokens@.map_values(|t: Token| t@) == spec_tokens_from(
                old(self).bytes(),
                old(self).pos(),
            ),
            final(self).pos() == final(self).bytes().len(),
    {
        let ghost b = self.bytes();
        let ghost pos0 = self.pos();
        let mut tokens = Vec::<Token>::new();
        loop
            invariant_except_break
                tokens@.map_values(|t: Token| t@) + spec_tokens_from(b, self.pos())
                    =~= spec_tokens_from(b, pos0),
            invariant
                self.wf(),
                self.bytes() == b,
                0 <= pos0,
                0 <= self.pos() <= b.len(),
            ensures
                self.pos() == b.len(),
                tokens@.map_values(|t: Token| t@) =~= spec_tokens_from(b, pos0),
            decreases b.len() - self.pos() + 1,
        {
            let ghost pos_here = self.pos();
            proof {
                lemma_next_progress(b, pos_here);
            }
            let token = self.next();
            let is_end = token.kind == TokenKind::EndOfInput;
            let ghost toks_old = tokens@;
            tokens.push(token);
            proof {
                assert(tokens@.map_values(|t: Token| t@) =~= toks_old.map_values(|t: Token| t@)
                    + seq![token@]);
            }
            if is_end {
                proof {
                    assert(spec_tokens_from(b, pos_here) =~= seq![token@]);
                    assert(tokens@.map_values(|t: Token| t@) =~= spec_tokens_from(b, pos0));
                }
                break ;
            }
            proof {
                assert(spec_tokens_from(b, pos_here) =~= seq![token@] + spec_tokens_from(
                    b,
                    self.pos(),
                ));
                assert(tokens@.map_values(|t: Token| t@) + spec_tokens_from(b, self.pos())
                    =~= spec_tokens_from(b, pos0));
            }
        }
        tokens
    }
}

/// Tokenizes `input`: yields exactly the token sequence of
/// [`spec_tokenize`] over the input's bytes.
pub fn tokenize(input: &str) -> (tokens: Vec<Token>)
    ensures
        tokens@.map_values(|t: Token| t@) == spec_tokenize(input.spec_bytes()),
{
    let mut tokenizer = Tokenizer::new(input);
    tokenizer.tokenize()
}

} // verus!
