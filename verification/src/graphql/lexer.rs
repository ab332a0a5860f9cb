//! The token stream of a GraphQL document.
//!
//! Whitespace, commas and `#` comments separate tokens. A token is a
//! punctuator, `...`, a name, a number, or a string with the usual escapes.
//! A float literal is kept as its text; it is checked against the decimal
//! float syntax (digits with an optional fraction, at least one digit, and
//! an exponent with at least one digit when there is one).

use vstd::prelude::*;
use vstd::string::{StrSliceExecFns, StringExecFns};
use crate::graphql::parser::ParseError;
use crate::text::{is_alphabetic, is_alphanumeric, is_whitespace, push_char, unicode_alphabetic, unicode_alphanumeric,
    unicode_whitespace};

verus! {

/// The kind of a token, with its payload.
pub enum TokKind {
    Name(String),
    Int(i64),
    /// A float literal, as written.
    Float(String),
    /// A string literal, escapes resolved.
    Str(String),
    Bang,
    Dollar,
    LParen,
    RParen,
    Spread,
    Colon,
    Eq,
    At,
    LBracket,
    RBracket,
    LBrace,
    RBrace,
    Pipe,
}

/// A token and the offset (in characters) where it starts.
pub struct Token {
    pub kind: TokKind,
    pub pos: usize,
}

/// A token kind as plain values.
pub enum TokView {
    Name(Seq<char>),
    Int(int),
    Float(Seq<char>),
    Str(Seq<char>),
    Bang,
    Dollar,
    LParen,
    RParen,
    Spread,
    Colon,
    Eq,
    At,
    LBracket,
    RBracket,
    LBrace,
    RBrace,
    Pipe,
}

impl View for TokKind {
    type V = TokView;

    open spec fn view(&self) -> TokView {
        match self {
            TokKind::Name(s) => TokView::Name(s@),
            TokKind::Int(i) => TokView::Int(*i as int),
            TokKind::Float(s) => TokView::Float(s@),
            TokKind::Str(s) => TokView::Str(s@),
            TokKind::Bang => TokView::Bang,
            TokKind::Dollar => TokView::Dollar,
            TokKind::LParen => TokView::LParen,
            TokKind::RParen => TokView::RParen,
            TokKind::Spread => TokView::Spread,
            TokKind::Colon => TokView::Colon,
            TokKind::Eq => TokView::Eq,
            TokKind::At => TokView::At,
            TokKind::LBracket => TokView::LBracket,
            TokKind::RBracket => TokView::RBracket,
            TokKind::LBrace => TokView::LBrace,
            TokKind::RBrace => TokView::RBrace,
            TokKind::Pipe => TokView::Pipe,
        }
    }
}

/// Whether a character separates tokens: white space or a comma.
pub open spec fn is_trivia(c: char) -> bool {
    unicode_whitespace(c) || c == ','
}

/// Whether a character may continue a name.
pub open spec fn is_name_char(c: char) -> bool {
    unicode_alphanumeric(c) || c == '_'
}

/// Whether a character is an ASCII digit.
pub open spec fn is_digit(c: char) -> bool {
    '0' <= c && c <= '9'
}

/// The end of a comment body from `p`: the next line feed, or the end.
pub open spec fn comment_end(src: Seq<char>, p: int) -> int
    decreases src.len() - p,
{
    if p < 0 || p >= src.len() {
        if p < 0 {
            p
        } else {
            src.len() as int
        }
    } else if src[p] == '\n' {
        p
    } else {
        comment_end(src, p + 1)
    }
}

pub proof fn lemma_comment_end(src: Seq<char>, p: int)
    requires
        0 <= p <= src.len(),
    ensures
        p <= comment_end(src, p) <= src.len(),
    decreases src.len() - p,
{
    if p < src.len() && src[p] != '\n' {
        lemma_comment_end(src, p + 1);
    }
}

/// The first position at or after `p` that is not white space, a comma or
/// part of a comment.
pub open spec fn trivia_end(src: Seq<char>, p: int) -> int
    decreases src.len() - p,
{
    if p < 0 || p >= src.len() {
        p
    } else if is_trivia(src[p]) {
        trivia_end(src, p + 1)
    } else if src[p] == '#' {
        proof {
            lemma_comment_end(src, p + 1);
        }
        trivia_end(src, comment_end(src, p + 1))
    } else {
        p
    }
}

proof fn lemma_trivia_end(src: Seq<char>, p: int)
    requires
        0 <= p <= src.len(),
    ensures
        p <= trivia_end(src, p) <= src.len(),
        trivia_end(src, p) < src.len() ==> !is_trivia(src[trivia_end(src, p)]) && src[trivia_end(src, p)] != '#',
    decreases src.len() - p,
{
    if p < src.len() {
        if is_trivia(src[p]) {
            lemma_trivia_end(src, p + 1);
        } else if src[p] == '#' {
            lemma_comment_end(src, p + 1);
            lemma_trivia_end(src, comment_end(src, p + 1));
        }
    }
}

/// The end of the run of name characters from `p`.
pub open spec fn name_end(src: Seq<char>, p: int) -> int
    decreases src.len() - p,
{
    if 0 <= p < src.len() && is_name_char(src[p]) {
        name_end(src, p + 1)
    } else {
        p
    }
}

proof fn lemma_name_end(src: Seq<char>, p: int)
    requires
        0 <= p <= src.len(),
    ensures
        p <= name_end(src, p) <= src.len(),
    decreases src.len() - p,
{
    if p < src.len() && is_name_char(src[p]) {
        lemma_name_end(src, p + 1);
    }
}

/// The end of the run of ASCII digits from `p`.
pub open spec fn digits_end(src: Seq<char>, p: int) -> int
    decreases src.len() - p,
{
    if 0 <= p < src.len() && is_digit(src[p]) {
        digits_end(src, p + 1)
    } else {
        p
    }
}

proof fn lemma_digits_end(src: Seq<char>, p: int)
    requires
        0 <= p <= src.len(),
    ensures
        p <= digits_end(src, p) <= src.len(),
        forall|k: int| p <= k < digits_end(src, p) ==> is_digit(#[trigger] src[k]),
    decreases src.len() - p,
{
    if p < src.len() && is_digit(src[p]) {
        lemma_digits_end(src, p + 1);
    }
}

/// The shape of a number literal at `p`: an optional minus, digits, an
/// optional `.` and digits, an optional exponent marker, sign and digits.
pub struct NumberShape {
    /// After the sign.
    pub int_start: int,
    /// After the integer digits.
    pub int_end: int,
    /// After the fraction (equal to `int_end` when there is no `.`).
    pub frac_end: int,
    /// After the exponent's sign, when there is an exponent.
    pub exp_digits_start: int,
    /// After the whole literal.
    pub end: int,
    pub has_dot: bool,
    pub has_exp: bool,
}

/// The number literal at `p`.
pub open spec fn number_shape(src: Seq<char>, p: int) -> NumberShape {
    let p1 = if p < src.len() && src[p] == '-' {
        p + 1
    } else {
        p
    };
    let p2 = digits_end(src, p1);
    let has_dot = p2 < src.len() && src[p2] == '.';
    let p3 = if has_dot {
        digits_end(src, p2 + 1)
    } else {
        p2
    };
    let has_exp = p3 < src.len() && (src[p3] == 'e' || src[p3] == 'E');
    let q = if has_exp {
        if p3 + 1 < src.len() && (src[p3 + 1] == '+' || src[p3 + 1] == '-') {
            p3 + 2
        } else {
            p3 + 1
        }
    } else {
        p3
    };
    let p4 = if has_exp {
        digits_end(src, q)
    } else {
        p3
    };
    NumberShape { int_start: p1, int_end: p2, frac_end: p3, exp_digits_start: q, end: p4, has_dot, has_exp }
}

/// The value of a run of ASCII digits.
pub open spec fn digits_value(s: Seq<char>) -> nat
    decreases s.len(),
{
    if s.len() == 0 {
        0
    } else {
        digits_value(s.drop_last()) * 10 + ((s.last() as nat) - 48) as nat
    }
}

/// Whether a number of this shape is a valid float: some digit before or
/// after the point, and digits in the exponent when there is one.
pub open spec fn float_ok(n: NumberShape) -> bool {
    &&& (n.int_end > n.int_start || (n.has_dot && n.frac_end > n.int_end + 1))
    &&& (n.has_exp ==> n.end > n.exp_digits_start)
}

/// The signed value of an integer literal of this shape.
pub open spec fn int_value(src: Seq<char>, p: int, n: NumberShape) -> int {
    let v = digits_value(src.subrange(n.int_start, n.int_end)) as int;
    if n.int_start > p {
        -v
    } else {
        v
    }
}

/// The outcome of decoding a string body.
pub enum StrScan {
    /// The decoded characters and the position after the closing quote.
    Done(Seq<char>, int),
    /// The message of the failure.
    Fail(Seq<char>),
}

/// Whether a character is a hexadecimal digit.
pub open spec fn is_hex(c: char) -> bool {
    ('0' <= c && c <= '9') || ('a' <= c && c <= 'f') || ('A' <= c && c <= 'F')
}

/// The value of a hexadecimal digit.
pub open spec fn hex_value(c: char) -> nat {
    if '0' <= c && c <= '9' {
        ((c as nat) - 48) as nat
    } else if 'a' <= c && c <= 'f' {
        ((c as nat) - 87) as nat
    } else {
        ((c as nat) - 55) as nat
    }
}

/// The value of four characters read as a hexadecimal number the way
/// `u32::from_str_radix` reads them (a leading `+` is allowed), if they are
/// one.
pub open spec fn hex4(h: Seq<char>) -> Option<nat> {
    if is_hex(h[0]) && is_hex(h[1]) && is_hex(h[2]) && is_hex(h[3]) {
        Some(hex_value(h[0]) * 4096 + hex_value(h[1]) * 256 + hex_value(h[2]) * 16 + hex_value(h[3]))
    } else if h[0] == '+' && is_hex(h[1]) && is_hex(h[2]) && is_hex(h[3]) {
        Some(hex_value(h[1]) * 256 + hex_value(h[2]) * 16 + hex_value(h[3]))
    } else {
        None
    }
}

/// Whether a code point is a Unicode scalar value.
pub open spec fn is_scalar(code: nat) -> bool {
    code <= 0x10FFFF && !(0xD800 <= code && code <= 0xDFFF)
}

/// `c` in front of a decoded rest.
pub open spec fn prepend(c: char, rest: StrScan) -> StrScan {
    match rest {
        StrScan::Done(s, e) => StrScan::Done(seq![c] + s, e),
        StrScan::Fail(m) => StrScan::Fail(m),
    }
}

/// The characters of an escape other than `\u`, if it is a valid one.
pub open spec fn simple_escape(e: char) -> Option<char> {
    if e == '"' || e == '\\' || e == '/' {
        Some(e)
    } else if e == 'b' {
        Some('\u{8}')
    } else if e == 'f' {
        Some('\u{c}')
    } else if e == 'n' {
        Some('\n')
    } else if e == 'r' {
        Some('\r')
    } else if e == 't' {
        Some('\t')
    } else {
        None
    }
}

/// Decodes a string body from `q` up to and including the closing quote.
pub open spec fn decode_string(src: Seq<char>, q: int) -> StrScan
    decreases src.len() - q,
{
    if q < 0 || q >= src.len() {
        StrScan::Fail("unterminated string"@)
    } else if src[q] == '"' {
        StrScan::Done(Seq::empty(), q + 1)
    } else if src[q] == '\\' {
        if q + 1 >= src.len() {
            StrScan::Fail("unterminated string"@)
        } else if src[q + 1] == 'u' {
            if q + 6 > src.len() {
                StrScan::Fail("unterminated \\u escape"@)
            } else {
                let h = src.subrange(q + 2, q + 6);
                match hex4(h) {
                    None => StrScan::Fail("invalid \\u escape '\\u"@ + h + "'"@),
                    Some(code) => if is_scalar(code) {
                        prepend(code as char, decode_string(src, q + 6))
                    } else {
                        StrScan::Fail("invalid unicode escape"@)
                    },
                }
            }
        } else {
            match simple_escape(src[q + 1]) {
                Some(c) => prepend(c, decode_string(src, q + 2)),
                None => StrScan::Fail("invalid escape '\\"@ + seq![src[q + 1]] + "'"@),
            }
        }
    } else {
        prepend(src[q], decode_string(src, q + 1))
    }
}

/// One step of the lexer at a position holding no separator: a token and
/// the position after it, or a message and where it applies.
pub enum LexStep {
    Tok(TokView, int),
    Fail(Seq<char>, int),
}

/// The punctuator a character stands for, if any.
pub open spec fn punctuator(c: char) -> Option<TokView> {
    if c == '!' {
        Some(TokView::Bang)
    } else if c == '$' {
        Some(TokView::Dollar)
    } else if c == '(' {
        Some(TokView::LParen)
    } else if c == ')' {
        Some(TokView::RParen)
    } else if c == ':' {
        Some(TokView::Colon)
    } else if c == '=' {
        Some(TokView::Eq)
    } else if c == '@' {
        Some(TokView::At)
    } else if c == '[' {
        Some(TokView::LBracket)
    } else if c == ']' {
        Some(TokView::RBracket)
    } else if c == '{' {
        Some(TokView::LBrace)
    } else if c == '}' {
        Some(TokView::RBrace)
    } else if c == '|' {
        Some(TokView::Pipe)
    } else {
        None
    }
}

/// The number token at `p`, or why the literal is invalid.
pub open spec fn number_step(src: Seq<char>, p: int) -> LexStep {
    let n = number_shape(src, p);
    let text = src.subrange(p, n.end);
    if text == "-"@ {
        LexStep::Fail("invalid number literal"@, p)
    } else if n.has_dot || n.has_exp {
        if float_ok(n) {
            LexStep::Tok(TokView::Float(text), n.end)
        } else {
            LexStep::Fail("invalid float literal '"@ + text + "'"@, p)
        }
    } else {
        let v = int_value(src, p, n);
        if i64::MIN <= v <= i64::MAX {
            LexStep::Tok(TokView::Int(v), n.end)
        } else {
            LexStep::Fail("invalid int literal '"@ + text + "'"@, p)
        }
    }
}

/// The token at `p`, a position holding no separator.
pub open spec fn next_token(src: Seq<char>, p: int) -> LexStep {
    let c = src[p];
    match punctuator(c) {
        Some(t) => LexStep::Tok(t, p + 1),
        None => if c == '.' {
            if p + 3 <= src.len() && src[p + 1] == '.' && src[p + 2] == '.' {
                LexStep::Tok(TokView::Spread, p + 3)
            } else {
                LexStep::Fail("unexpected '.'"@, p)
            }
        } else if c == '"' {
            match decode_string(src, p + 1) {
                StrScan::Done(s, e) => LexStep::Tok(TokView::Str(s), e),
                StrScan::Fail(m) => LexStep::Fail(m, p),
            }
        } else if c == '-' || is_digit(c) {
            number_step(src, p)
        } else if unicode_alphabetic(c) || c == '_' {
            LexStep::Tok(TokView::Name(src.subrange(p, name_end(src, p))), name_end(src, p))
        } else {
            LexStep::Fail("unexpected character '"@ + seq![c] + "'"@, p)
        },
    }
}

/// The outcome of lexing: the tokens with their positions, or a message
/// and where it applies.
pub enum LexResult {
    Tokens(Seq<(TokView, int)>),
    Fail(Seq<char>, int),
}

/// Whether a token found at `p` ends after `p` (within the text).
pub open spec fn step_advances(src: Seq<char>, p: int) -> bool {
    next_token(src, p) matches LexStep::Tok(_, e) ==> p < e <= src.len()
}

/// The tokens of `src` from `p` on.
pub open spec fn lex_from(src: Seq<char>, p: int) -> LexResult
    decreases src.len() - p,
{
    if p < 0 || p > src.len() {
        LexResult::Tokens(Seq::empty())
    } else {
        let q = trivia_end(src, p);
        if q >= src.len() || q < p {
            LexResult::Tokens(Seq::empty())
        } else {
            match next_token(src, q) {
                LexStep::Fail(m, at) => LexResult::Fail(m, at),
                LexStep::Tok(t, e) => if q < e <= src.len() {
                    match lex_from(src, e) {
                        LexResult::Tokens(ts) => LexResult::Tokens(seq![(t, q)] + ts),
                        LexResult::Fail(m, at) => LexResult::Fail(m, at),
                    }
                } else {
                    LexResult::Tokens(Seq::empty())
                },
            }
        }
    }
}

/// The tokens of a whole text.
pub open spec fn lex_spec(src: Seq<char>) -> LexResult {
    lex_from(src, 0)
}

/// Whether an exec lexing result is the one the specification gives.
pub open spec fn lex_matches(r: Result<Vec<Token>, ParseError>, spec: LexResult) -> bool {
    match spec {
        LexResult::Tokens(ts) => r matches Ok(v) && v@.map_values(|t: Token| (t.kind@, t.pos as int)) == ts,
        LexResult::Fail(m, at) => r matches Err(e) && e.message@ == m && e.position as int == at,
    }
}

/// The tokens of `prefix` in front of the rest of a lexing result.
pub open spec fn after(prefix: Seq<(TokView, int)>, r: LexResult) -> LexResult {
    match r {
        LexResult::Tokens(ts) => LexResult::Tokens(prefix + ts),
        LexResult::Fail(m, at) => LexResult::Fail(m, at),
    }
}

/// The decoded characters of `prefix` in front of the rest of a string.
pub open spec fn decoded_after(prefix: Seq<char>, r: StrScan) -> StrScan {
    match r {
        StrScan::Done(s, e) => StrScan::Done(prefix + s, e),
        StrScan::Fail(m) => StrScan::Fail(m),
    }
}

/// `char::from_u32`: the character with code `code`, when `code` is a
/// Unicode scalar value (at most `0x10FFFF` and not a surrogate).
#[verifier::external_body]
fn char_from_u32(code: u32) -> (r: Option<char>)
    ensures
        r is Some <==> is_scalar(code as nat),
        r matches Some(c) ==> c == (code as nat) as char,
{
    char::from_u32(code)
}

/// The characters of a string.
pub fn chars_of(input: &str) -> (v: Vec<char>)
    ensures
        v@ == input@,
{
    let n = input.unicode_len();
    let mut v: Vec<char> = Vec::new();
    let mut i: usize = 0;
    while i < n
        invariant
            n == input@.len(),
            i <= n,
            v@ == input@.take(i as int),
        decreases n - i,
    {
        v.push(input.get_char(i));
        assert(v@ =~= input@.take(i + 1));
        i = i + 1;
    }
    assert(input@.take(n as int) =~= input@);
    v
}

/// The text of `src` from `a` to `b`.
fn slice_text(src: &Vec<char>, a: usize, b: usize) -> (r: String)
    requires
        a <= b <= src@.len(),
    ensures
        r@ == src@.subrange(a as int, b as int),
{
    let mut r = String::new();
    let mut i: usize = a;
    while i < b
        invariant
            a <= i <= b <= src@.len(),
            r@ == src@.subrange(a as int, i as int),
        decreases b - i,
    {
        push_char(&mut r, src[i]);
        assert(r@ =~= src@.subrange(a as int, i + 1));
        i = i + 1;
    }
    r
}

/// The first position at or after `p` that is not a separator.
fn skip_trivia(src: &Vec<char>, p: usize) -> (q: usize)
    requires
        p <= src@.len(),
    ensures
        q as int == trivia_end(src@, p as int),
        p <= q <= src@.len(),
{
    proof {
        lemma_trivia_end(src@, p as int);
    }
    let mut q = p;
    while q < src.len()
        invariant
            p <= q <= src@.len(),
            trivia_end(src@, p as int) == trivia_end(src@, q as int),
        decreases src@.len() - q,
    {
        let c = src[q];
        if is_whitespace(c) || c == ',' {
            q = q + 1;
        } else if c == '#' {
            q = q + 1;
            let ghost start = q;
            proof {
                lemma_comment_end(src@, start as int);
            }
            while q < src.len() && src[q] != '\n'
                invariant
                    p <= start <= q <= src@.len(),
                    trivia_end(src@, p as int) == trivia_end(src@, comment_end(src@, start as int)),
                    comment_end(src@, start as int) == comment_end(src@, q as int),
                decreases src@.len() - q,
            {
                q = q + 1;
            }
        } else {
            return q;
        }
    }
    q
}

/// Whether `c` may continue a name.
fn name_char(c: char) -> (b: bool)
    ensures
        b == is_name_char(c),
{
    is_alphanumeric(c) || c == '_'
}

/// Whether `c` is an ASCII digit.
fn digit(c: char) -> (b: bool)
    ensures
        b == is_digit(c),
{
    '0' <= c && c <= '9'
}

/// The end of the run of digits from `p`.
fn skip_digits(src: &Vec<char>, p: usize) -> (q: usize)
    requires
        p <= src@.len(),
    ensures
        q as int == digits_end(src@, p as int),
        p <= q <= src@.len(),
{
    let mut q = p;
    while q < src.len() && digit(src[q])
        invariant
            p <= q <= src@.len(),
            digits_end(src@, p as int) == digits_end(src@, q as int),
        decreases src@.len() - q,
    {
        q = q + 1;
    }
    q
}

/// The name at `p` and the position after it.
fn lex_name(src: &Vec<char>, p: usize) -> (r: (String, usize))
    requires
        p <= src@.len(),
    ensures
        r.1 as int == name_end(src@, p as int),
        r.0@ == src@.subrange(p as int, r.1 as int),
{
    let mut out = String::new();
    let mut q = p;
    while q < src.len() && name_char(src[q])
        invariant
            p <= q <= src@.len(),
            name_end(src@, p as int) == name_end(src@, q as int),
            out@ == src@.subrange(p as int, q as int),
        decreases src@.len() - q,
    {
        push_char(&mut out, src[q]);
        assert(out@ =~= src@.subrange(p as int, q + 1));
        q = q + 1;
    }
    (out, q)
}

proof fn lemma_digits_value_push(s: Seq<char>, c: char)
    ensures
        digits_value(s.push(c)) == digits_value(s) * 10 + ((c as nat) - 48) as nat,
{
    assert(s.push(c).drop_last() =~= s);
}

proof fn lemma_digits_value_grows(s: Seq<char>, j: int)
    requires
        0 <= j <= s.len(),
    ensures
        digits_value(s.take(j)) <= digits_value(s),
    decreases s.len() - j,
{
    if j < s.len() {
        lemma_digits_value_grows(s, j + 1);
        assert(s.take(j + 1).drop_last() =~= s.take(j));
        assert(digits_value(s.take(j + 1)) == digits_value(s.take(j)) * 10 + ((s.take(j + 1).last() as nat) - 48) as nat);
    } else {
        assert(s.take(j) =~= s);
    }
}

/// The number token at `p`, or why its literal is invalid.
fn lex_number(src: &Vec<char>, p: usize) -> (r: Result<(TokKind, usize), ParseError>)
    requires
        p < src@.len(),
        src@[p as int] == '-' || is_digit(src@[p as int]),
    ensures
        match number_step(src@, p as int) {
            LexStep::Tok(t, e) => r matches Ok((k, e2)) && k@ == t && e2 as int == e,
            LexStep::Fail(m, at) => r matches Err(err) && err.message@ == m && err.position as int == at,
        },
{
    let len = src.len();
    let ghost n = number_shape(src@, p as int);
    let p1 = if src[p] == '-' {
        p + 1
    } else {
        p
    };
    proof {
        if src@[p as int] != '-' {
            lemma_digits_end(src@, p + 1);
        }
    }
    let p2 = skip_digits(src, p1);
    let has_dot = p2 < src.len() && src[p2] == '.';
    let p3 = if has_dot {
        skip_digits(src, p2 + 1)
    } else {
        p2
    };
    let has_exp = p3 < src.len() && (src[p3] == 'e' || src[p3] == 'E');
    let q = if has_exp {
        if p3 + 1 < len && (src[p3 + 1] == '+' || src[p3 + 1] == '-') {
            p3 + 2
        } else {
            p3 + 1
        }
    } else {
        p3
    };
    let p4 = if has_exp {
        skip_digits(src, q)
    } else {
        p3
    };
    assert(n.int_start == p1 && n.int_end == p2 && n.frac_end == p3 && n.end == p4);
    assert(n.has_dot == has_dot && n.has_exp == has_exp);
    assert(has_exp ==> n.exp_digits_start == q);
    let text = slice_text(src, p, p4);
    proof {
        reveal_strlit("-");
        assert(p4 > p);
    }
    if p4 == p + 1 && src[p] == '-' {
        assert(text@ =~= "-"@);
        return Err(ParseError { message: crate::text::owned("invalid number literal"), position: p });
    }
    assert(text@ != "-"@) by {
        if text@ == "-"@ {
            assert(text@.len() == 1 && text@[0] == '-');
        }
    }
    if has_dot || has_exp {
        if (p2 > p1 || (has_dot && p3 > p2 + 1)) && (!has_exp || p4 > q) {
            return Ok((TokKind::Float(text), p4));
        }
        let mut m = crate::text::owned("invalid float literal '");
        m.append(text.as_str());
        m.append("'");
        return Err(ParseError { message: m, position: p });
    }
    let neg = p1 > p;
    let limit: u64 = if neg {
        9223372036854775808
    } else {
        9223372036854775807
    };
    let ghost digits = src@.subrange(p1 as int, p2 as int);
    proof {
        lemma_digits_end(src@, p1 as int);
    }
    let mut v: u64 = 0;
    let mut k: usize = p1;
    assert(digits.take(0) =~= Seq::<char>::empty());
    while k < p2
        invariant
            p1 <= k <= p2 <= src@.len(),
            digits == src@.subrange(p1 as int, p2 as int),
            forall|j: int| p1 <= j < p2 ==> is_digit(#[trigger] src@[j]),
            v as nat == digits_value(digits.take(k - p1)),
            v <= limit,
            p <= p1,
            neg == (p1 > p),
            limit == (if neg { 9223372036854775808u64 } else { 9223372036854775807u64 }),
            text@ == src@.subrange(p as int, p4 as int),
            n == number_shape(src@, p as int),
            n.int_start == p1 && n.int_end == p2 && n.end == p4,
            !n.has_dot && !n.has_exp,
            text@ != "-"@,
        decreases p2 - k,
    {
        let ch = src[k];
        proof {
            assert(is_digit(src@[k as int]));
        }
        let d = (ch as u32 - 48) as u64;
        assert(d <= 9);
        proof {
            assert(digits.take(k + 1 - p1) =~= digits.take(k - p1).push(src@[k as int]));
            lemma_digits_value_push(digits.take(k - p1), src@[k as int]);
        }
        if v > (limit - d) / 10 {
            proof {
                assert(v * 10 + d > limit) by (nonlinear_arith)
                    requires
                        v > (limit - d) / 10,
                        d <= 9,
                        d <= limit,
                ;
                lemma_digits_value_grows(digits, k + 1 - p1);
                assert(digits.take(digits.len() as int) =~= digits);
            }
            let mut m = crate::text::owned("invalid int literal '");
            m.append(text.as_str());
            m.append("'");
            return Err(ParseError { message: m, position: p });
        }
        proof {
            assert(v * 10 + d <= limit) by (nonlinear_arith)
                requires
                    v <= (limit - d) / 10,
                    d <= 9,
                    d <= limit,
            ;
        }
        v = v * 10 + d;
        k = k + 1;
    }
    assert(digits.take(p2 - p1) =~= digits);
    let value: i64 = if neg {
        if v == 9223372036854775808 {
            i64::MIN
        } else {
            -(v as i64)
        }
    } else {
        v as i64
    };
    Ok((TokKind::Int(value), p4))
}

/// The decoded string whose opening quote is at `p`, and the position
/// after its closing quote.
fn lex_string(src: &Vec<char>, p: usize) -> (r: Result<(String, usize), ParseError>)
    requires
        p < src@.len(),
    ensures
        match decode_string(src@, p + 1) {
            StrScan::Done(s, e) => r matches Ok((out, e2)) && out@ == s && e2 as int == e,
            StrScan::Fail(m) => r matches Err(err) && err.message@ == m && err.position == p,
        },
{
    let len = src.len();
    let mut out = String::new();
    let mut q = p + 1;
    assert(decode_string(src@, p + 1) == decoded_after(out@, decode_string(src@, q as int))) by {
        assert(out@ =~= Seq::<char>::empty());
        match decode_string(src@, q as int) {
            StrScan::Done(s, e) => {
                assert(Seq::<char>::empty() + s =~= s);
            },
            StrScan::Fail(m) => {},
        }
    }
    loop
        invariant
            len == src@.len(),
            p < q <= src@.len() + 1,
            decode_string(src@, p + 1) == decoded_after(out@, decode_string(src@, q as int)),
        decreases src@.len() + 1 - q,
    {
        if q >= src.len() {
            return Err(ParseError { message: crate::text::owned("unterminated string"), position: p });
        }
        let c = src[q];
        if c == '"' {
            assert(out@ + Seq::<char>::empty() =~= out@);
            return Ok((out, q + 1));
        }
        let ghost before = out@;
        if c == '\\' {
            if q + 1 >= src.len() {
                return Err(ParseError { message: crate::text::owned("unterminated string"), position: p });
            }
            let e = src[q + 1];
            if e == 'u' {
                if len - q < 6 {
                    return Err(ParseError { message: crate::text::owned("unterminated \\u escape"), position: p });
                }
                let h = slice_text(src, q + 2, q + 6);
                let code = hex4_exec(src[q + 2], src[q + 3], src[q + 4], src[q + 5]);
                proof {
                    let hs = src@.subrange(q + 2, q + 6);
                    assert(hs[0] == src@[q + 2] && hs[1] == src@[q + 3] && hs[2] == src@[q + 4] && hs[3] == src@[q + 5]);
                }
                match code {
                    None => {
                        let mut m = crate::text::owned("invalid \\u escape '\\u");
                        m.append(h.as_str());
                        m.append("'");
                        return Err(ParseError { message: m, position: p });
                    },
                    Some(v) => {
                        match char_from_u32(v) {
                            None => {
                                return Err(ParseError { message: crate::text::owned("invalid unicode escape"), position: p });
                            },
                            Some(ch) => {
                                push_char(&mut out, ch);
                                proof {
                                    match decode_string(src@, q + 6) {
                                        StrScan::Done(s, e2) => {
                                            assert(before + (seq![ch] + s) =~= before.push(ch) + s);
                                        },
                                        StrScan::Fail(m) => {},
                                    }
                                }
                                q = q + 6;
                            },
                        }
                    },
                }
            } else {
                let mapped: Option<char> = if e == '"' || e == '\\' || e == '/' {
                    Some(e)
                } else if e == 'b' {
                    Some('\u{8}')
                } else if e == 'f' {
                    Some('\u{c}')
                } else if e == 'n' {
                    Some('\n')
                } else if e == 'r' {
                    Some('\r')
                } else if e == 't' {
                    Some('\t')
                } else {
                    None
                };
                match mapped {
                    None => {
                        let mut m = crate::text::owned("invalid escape '\\");
                        push_char(&mut m, e);
                        m.append("'");
                        return Err(ParseError { message: m, position: p });
                    },
                    Some(ch) => {
                        push_char(&mut out, ch);
                        proof {
                            match decode_string(src@, q + 2) {
                                StrScan::Done(s, e2) => {
                                    assert(before + (seq![ch] + s) =~= before.push(ch) + s);
                                },
                                StrScan::Fail(m) => {},
                            }
                        }
                        q = q + 2;
                    },
                }
            }
        } else {
            push_char(&mut out, c);
            proof {
                match decode_string(src@, q + 1) {
                    StrScan::Done(s, e2) => {
                        assert(before + (seq![c] + s) =~= before.push(c) + s);
                    },
                    StrScan::Fail(m) => {},
                }
            }
            q = q + 1;
        }
    }
}

/// The value of a hexadecimal digit, if `c` is one.
fn hex_digit_value(c: char) -> (r: Option<u32>)
    ensures
        r is Some <==> is_hex(c),
        r matches Some(v) ==> v as nat == hex_value(c) && v < 16,
{
    if '0' <= c && c <= '9' {
        Some(c as u32 - 48)
    } else if 'a' <= c && c <= 'f' {
        Some(c as u32 - 87)
    } else if 'A' <= c && c <= 'F' {
        Some(c as u32 - 55)
    } else {
        None
    }
}

/// Four characters read as `u32::from_str_radix(_, 16)` reads them.
fn hex4_exec(a: char, b: char, c: char, d: char) -> (r: Option<u32>)
    ensures
        r matches Some(v) ==> hex4(seq![a, b, c, d]) == Some(v as nat),
        r is None ==> hex4(seq![a, b, c, d]) is None,
{
    let hb = hex_digit_value(b);
    let hc = hex_digit_value(c);
    let hd = hex_digit_value(d);
    match (hb, hc, hd) {
        (Some(vb), Some(vc), Some(vd)) => {
            if a == '+' {
                Some(vb * 256 + vc * 16 + vd)
            } else {
                match hex_digit_value(a) {
                    Some(va) => Some(va * 4096 + vb * 256 + vc * 16 + vd),
                    None => None,
                }
            }
        },
        _ => None,
    }
}

/// The token at `p`, a position holding no separator, and the position
/// after it.
fn lex_token(src: &Vec<char>, p: usize) -> (r: Result<(TokKind, usize), ParseError>)
    requires
        p < src@.len(),
    ensures
        match next_token(src@, p as int) {
            LexStep::Tok(t, e) => r matches Ok((k, e2)) && k@ == t && e2 as int == e && p < e <= src@.len(),
            LexStep::Fail(m, at) => r matches Err(err) && err.message@ == m && err.position as int == at,
        },
{
    let len = src.len();
    let c = src[p];
    let punct: Option<TokKind> = if c == '!' {
        Some(TokKind::Bang)
    } else if c == '$' {
        Some(TokKind::Dollar)
    } else if c == '(' {
        Some(TokKind::LParen)
    } else if c == ')' {
        Some(TokKind::RParen)
    } else if c == ':' {
        Some(TokKind::Colon)
    } else if c == '=' {
        Some(TokKind::Eq)
    } else if c == '@' {
        Some(TokKind::At)
    } else if c == '[' {
        Some(TokKind::LBracket)
    } else if c == ']' {
        Some(TokKind::RBracket)
    } else if c == '{' {
        Some(TokKind::LBrace)
    } else if c == '}' {
        Some(TokKind::RBrace)
    } else if c == '|' {
        Some(TokKind::Pipe)
    } else {
        None
    };
    match punct {
        Some(k) => {
            return Ok((k, p + 1));
        },
        None => {},
    }
    if c == '.' {
        if len - p >= 3 && src[p + 1] == '.' && src[p + 2] == '.' {
            return Ok((TokKind::Spread, p + 3));
        }
        return Err(ParseError { message: crate::text::owned("unexpected '.'"), position: p });
    }
    if c == '"' {
        let r = lex_string(src, p);
        proof {
            lemma_decode_end(src@, p + 1);
        }
        return match r {
            Ok((s, e)) => Ok((TokKind::Str(s), e)),
            Err(e) => Err(e),
        };
    }
    if c == '-' || digit(c) {
        let r = lex_number(src, p);
        proof {
            let n = number_shape(src@, p as int);
            lemma_digits_end(src@, n.int_start);
            if src@[p as int] != '-' {
                lemma_digits_end(src@, p + 1);
            }
            if n.has_dot {
                lemma_digits_end(src@, n.int_end + 1);
            }
            if n.has_exp {
                lemma_digits_end(src@, n.exp_digits_start);
            }
        }
        return r;
    }
    if is_alphabetic(c) || c == '_' {
        let continues = is_alphanumeric(c);
        let r = lex_name(src, p);
        proof {
            assert(is_name_char(src@[p as int]));
            lemma_name_end(src@, p + 1);
        }
        return Ok((TokKind::Name(r.0), r.1));
    }
    let mut m = crate::text::owned("unexpected character '");
    push_char(&mut m, c);
    m.append("'");
    Err(ParseError { message: m, position: p })
}

proof fn lemma_decode_end(src: Seq<char>, q: int)
    requires
        0 <= q,
    ensures
        decode_string(src, q) matches StrScan::Done(_, e) ==> q < e <= src.len(),
    decreases src.len() - q,
{
    if 0 <= q < src.len() {
        if src[q] == '\\' {
            if q + 1 < src.len() {
                if src[q + 1] == 'u' {
                    if q + 6 <= src.len() {
                        lemma_decode_end(src, q + 6);
                    }
                } else {
                    lemma_decode_end(src, q + 2);
                }
            }
        } else if src[q] != '"' {
            lemma_decode_end(src, q + 1);
        }
    }
}

/// The tokens of `input`, or the first reason it has none.
pub fn lex(input: &str) -> (r: Result<Vec<Token>, ParseError>)
    ensures
        lex_matches(r, lex_spec(input@)),
{
    let src = chars_of(input);
    let mut tokens: Vec<Token> = Vec::new();
    let mut pos: usize = 0;
    assert(after(Seq::empty(), lex_from(src@, 0)) == lex_from(src@, 0)) by {
        match lex_from(src@, 0) {
            LexResult::Tokens(ts) => {
                assert(Seq::<(TokView, int)>::empty() + ts =~= ts);
            },
            LexResult::Fail(m, at) => {},
        }
    }
    loop
        invariant
            src@ == input@,
            pos <= src@.len(),
            lex_spec(src@) == after(tokens@.map_values(|t: Token| (t.kind@, t.pos as int)), lex_from(src@, pos as int)),
        decreases src@.len() - pos,
    {
        let q = skip_trivia(&src, pos);
        let ghost prefix = tokens@.map_values(|t: Token| (t.kind@, t.pos as int));
        if q >= src.len() {
            assert(prefix + Seq::<(TokView, int)>::empty() =~= prefix);
            return Ok(tokens);
        }
        match lex_token(&src, q) {
            Err(e) => {
                return Err(e);
            },
            Ok((kind, e)) => {
                let ghost t = kind@;
                tokens.push(Token { kind, pos: q });
                proof {
                    assert(tokens@.map_values(|t: Token| (t.kind@, t.pos as int)) =~= prefix.push((t, q as int)));
                    match lex_from(src@, e as int) {
                        LexResult::Tokens(ts) => {
                            assert(prefix + (seq![(t, q as int)] + ts) =~= prefix.push((t, q as int)) + ts);
                        },
                        LexResult::Fail(m, at) => {},
                    }
                }
                pos = e;
            },
        }
    }
}

} // verus!
