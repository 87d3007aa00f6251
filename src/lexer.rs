use vstd::prelude::*;
use vstd::string::StrSliceExecFns;
use vstd::string::StringSliceAdditionalSpecFns;
use vstd::utf8::*;

verus! {

/// A classified lexical unit. Literal payloads are already decoded; a float
/// literal keeps its source text, since the compiler never computes with it.
#[derive(Debug)]
pub enum Token {
    KeywordFn,
    KeywordLet,
    KeywordConst,
    KeywordReturn,
    KeywordIf,
    KeywordElse,
    KeywordWhile,
    KeywordFor,
    KeywordStruct,
    KeywordImpl,
    KeywordAsync,
    KeywordAwait,
    Ident(String),
    Int(i64),
    Float(String),
    StringLit(String),
    Bool(bool),
    Plus,
    Minus,
    Star,
    Slash,
    Percent,
    Equals,
    DoubleEquals,
    NotEquals,
    LessThan,
    LessOrEqual,
    GreaterThan,
    GreaterOrEqual,
    Bang,
    And,
    Or,
    LParen,
    RParen,
    LBrace,
    RBrace,
    LSquare,
    RSquare,
    Comma,
    Colon,
    Semicolon,
    Arrow,
    Dot,
    DoubleDot,
    End,
    Error,
}

// ---------------------------------------------------------------------------
// Byte classes
pub open spec fn is_space(c: u8) -> bool {
    c == 32 || c == 9 || c == 10 || c == 12 || c == 13
}

pub open spec fn is_alpha(c: u8) -> bool {
    (65 <= c <= 90) || (97 <= c <= 122) || c == 95
}

pub open spec fn is_digit(c: u8) -> bool {
    48 <= c <= 57
}

pub open spec fn is_word_byte(c: u8) -> bool {
    is_alpha(c) || is_digit(c)
}

// ---------------------------------------------------------------------------
// Whitespace and comments
/// Whether a `*/` starts at `j` or later.
pub open spec fn block_closed(b: Seq<u8>, j: int) -> bool
    decreases b.len() - j,
{
    if j < 0 || j + 1 >= b.len() {
        false
    } else if b[j] == 42 && b[j + 1] == 47 {
        true
    } else {
        block_closed(b, j + 1)
    }
}

pub open spec fn starts_line_comment(b: Seq<u8>, i: int) -> bool {
    0 <= i && i + 1 < b.len() && b[i] == 47 && b[i + 1] == 47
}

/// A block comment counts only when it is closed; otherwise its `/` is an operator.
pub open spec fn starts_block_comment(b: Seq<u8>, i: int) -> bool {
    0 <= i && i + 1 < b.len() && b[i] == 47 && b[i + 1] == 42 && block_closed(b, i + 2)
}

/// The first position at or after `i` that is not whitespace or inside a comment.
pub open spec fn skip_trivia(b: Seq<u8>, i: int) -> int
    decreases b.len() - i, 1int,
{
    if i < 0 || i >= b.len() {
        i
    } else if is_space(b[i]) {
        skip_trivia(b, i + 1)
    } else if starts_line_comment(b, i) {
        skip_line_comment(b, i + 2)
    } else if starts_block_comment(b, i) {
        skip_block_comment(b, i + 2)
    } else {
        i
    }
}

pub open spec fn skip_line_comment(b: Seq<u8>, j: int) -> int
    decreases b.len() - j, 0int,
{
    if j < 0 || j >= b.len() {
        j
    } else if b[j] == 10 {
        skip_trivia(b, j + 1)
    } else {
        skip_line_comment(b, j + 1)
    }
}

pub open spec fn skip_block_comment(b: Seq<u8>, j: int) -> int
    decreases b.len() - j, 0int,
{
    if j < 0 || j >= b.len() {
        j
    } else if j + 1 < b.len() && b[j] == 42 && b[j + 1] == 47 {
        skip_trivia(b, j + 2)
    } else {
        skip_block_comment(b, j + 1)
    }
}

// ---------------------------------------------------------------------------
// Token extents
pub open spec fn word_end(b: Seq<u8>, i: int) -> int
    decreases b.len() - i,
{
    if 0 <= i < b.len() && is_word_byte(b[i]) {
        word_end(b, i + 1)
    } else {
        i
    }
}

pub open spec fn digits_end(b: Seq<u8>, i: int) -> int
    decreases b.len() - i,
{
    if 0 <= i < b.len() && is_digit(b[i]) {
        digits_end(b, i + 1)
    } else {
        i
    }
}

/// Value of the decimal digits `b[i..j]`.
pub open spec fn digits_value(b: Seq<u8>, i: int, j: int) -> int
    decreases j - i,
{
    if j <= i {
        0
    } else {
        digits_value(b, i, j - 1) * 10 + (b[j - 1] - 48)
    }
}

pub open spec fn number_start(b: Seq<u8>, i: int) -> bool {
    0 <= i < b.len() && (is_digit(b[i]) || (b[i] == 45 && i + 1 < b.len() && is_digit(b[i + 1])))
}

/// End of the optional sign and integer digits of a number starting at `i`.
pub open spec fn int_part_end(b: Seq<u8>, i: int) -> int {
    if b[i] == 45 {
        digits_end(b, i + 1)
    } else {
        digits_end(b, i)
    }
}

/// Whether a `.` followed by a digit stands at `d`.
pub open spec fn has_fraction(b: Seq<u8>, d: int) -> bool {
    0 <= d && d + 1 < b.len() && b[d] == 46 && is_digit(b[d + 1])
}

pub open spec fn number_end(b: Seq<u8>, i: int) -> int {
    let d = int_part_end(b, i);
    if has_fraction(b, d) {
        digits_end(b, d + 1)
    } else {
        d
    }
}

/// Position of the quote closing a string whose body starts at `j`, or -1.
pub open spec fn string_close(b: Seq<u8>, j: int) -> int
    decreases b.len() - j,
{
    if j < 0 || j >= b.len() {
        -1
    } else if b[j] == 34 {
        j
    } else if b[j] == 92 {
        if j + 1 < b.len() {
            string_close(b, j + 2)
        } else {
            -1
        }
    } else {
        string_close(b, j + 1)
    }
}

/// The byte that the escape `\c` stands for.
pub open spec fn escape_byte(c: u8) -> u8 {
    if c == 110 {
        10u8
    } else if c == 116 {
        9u8
    } else if c == 114 {
        13u8
    } else if c == 48 {
        0u8
    } else {
        c
    }
}

/// The body `b[j..end]` of a string literal with its escapes decoded.
pub open spec fn unescape(b: Seq<u8>, j: int, end: int) -> Seq<u8>
    decreases end - j,
{
    if j >= end {
        Seq::empty()
    } else if b[j] == 92 && j + 1 < end {
        seq![escape_byte(b[j + 1])] + unescape(b, j + 2, end)
    } else {
        seq![b[j]] + unescape(b, j + 1, end)
    }
}

pub open spec fn op2_token(c0: u8, c1: u8) -> Option<Token> {
    if c0 == 61 && c1 == 61 {
        Some(Token::DoubleEquals)
    } else if c0 == 33 && c1 == 61 {
        Some(Token::NotEquals)
    } else if c0 == 60 && c1 == 61 {
        Some(Token::LessOrEqual)
    } else if c0 == 62 && c1 == 61 {
        Some(Token::GreaterOrEqual)
    } else if c0 == 38 && c1 == 38 {
        Some(Token::And)
    } else if c0 == 124 && c1 == 124 {
        Some(Token::Or)
    } else if c0 == 45 && c1 == 62 {
        Some(Token::Arrow)
    } else if c0 == 46 && c1 == 46 {
        Some(Token::DoubleDot)
    } else {
        None
    }
}

pub open spec fn op1_token(c: u8) -> Option<Token> {
    if c == 43 {
        Some(Token::Plus)
    } else if c == 45 {
        Some(Token::Minus)
    } else if c == 42 {
        Some(Token::Star)
    } else if c == 47 {
        Some(Token::Slash)
    } else if c == 37 {
        Some(Token::Percent)
    } else if c == 61 {
        Some(Token::Equals)
    } else if c == 60 {
        Some(Token::LessThan)
    } else if c == 62 {
        Some(Token::GreaterThan)
    } else if c == 33 {
        Some(Token::Bang)
    } else if c == 40 {
        Some(Token::LParen)
    } else if c == 41 {
        Some(Token::RParen)
    } else if c == 123 {
        Some(Token::LBrace)
    } else if c == 125 {
        Some(Token::RBrace)
    } else if c == 91 {
        Some(Token::LSquare)
    } else if c == 93 {
        Some(Token::RSquare)
    } else if c == 44 {
        Some(Token::Comma)
    } else if c == 58 {
        Some(Token::Colon)
    } else if c == 59 {
        Some(Token::Semicolon)
    } else if c == 46 {
        Some(Token::Dot)
    } else {
        None
    }
}

/// The reserved words, and the token each one stands for.
pub open spec fn reserved_word(w: Seq<u8>) -> Option<Token> {
    if w == seq![102u8, 110u8] {
        Some(Token::KeywordFn)
    } else if w == seq![108u8, 101u8, 116u8] {
        Some(Token::KeywordLet)
    } else if w == seq![99u8, 111u8, 110u8, 115u8, 116u8] {
        Some(Token::KeywordConst)
    } else if w == seq![114u8, 101u8, 116u8, 117u8, 114u8, 110u8] {
        Some(Token::KeywordReturn)
    } else if w == seq![105u8, 102u8] {
        Some(Token::KeywordIf)
    } else if w == seq![101u8, 108u8, 115u8, 101u8] {
        Some(Token::KeywordElse)
    } else if w == seq![119u8, 104u8, 105u8, 108u8, 101u8] {
        Some(Token::KeywordWhile)
    } else if w == seq![102u8, 111u8, 114u8] {
        Some(Token::KeywordFor)
    } else if w == seq![115u8, 116u8, 114u8, 117u8, 99u8, 116u8] {
        Some(Token::KeywordStruct)
    } else if w == seq![105u8, 109u8, 112u8, 108u8] {
        Some(Token::KeywordImpl)
    } else if w == seq![97u8, 115u8, 121u8, 110u8, 99u8] {
        Some(Token::KeywordAsync)
    } else if w == seq![97u8, 119u8, 97u8, 105u8, 116u8] {
        Some(Token::KeywordAwait)
    } else if w == seq![116u8, 114u8, 117u8, 101u8] {
        Some(Token::Bool(true))
    } else if w == seq![102u8, 97u8, 108u8, 115u8, 101u8] {
        Some(Token::Bool(false))
    } else {
        None
    }
}

/// End of the token that starts at `i` (a position that is not trivia).
/// Operators take the longest match; a byte that starts nothing is a
/// one-byte invalid token; an unterminated string runs to the end.
pub open spec fn token_end(b: Seq<u8>, i: int) -> int {
    let c = b[i];
    if is_alpha(c) {
        word_end(b, i)
    } else if number_start(b, i) {
        number_end(b, i)
    } else if c == 34 {
        let k = string_close(b, i + 1);
        if k >= 0 {
            k + 1
        } else {
            b.len() as int
        }
    } else if i + 1 < b.len() && op2_token(c, b[i + 1]) is Some {
        i + 2
    } else {
        i + 1
    }
}

/// The integer a number token without fraction denotes.
pub open spec fn int_literal_value(b: Seq<u8>, i: int) -> int {
    if b[i] == 45 {
        -digits_value(b, i + 1, int_part_end(b, i))
    } else {
        digits_value(b, i, int_part_end(b, i))
    }
}

pub open spec fn fits_i64(v: int) -> bool {
    i64::MIN <= v <= i64::MAX
}

/// The token that the bytes from `i` (not trivia) up to `token_end(b, i)` give.
#[verifier::opaque]
pub open spec fn token_is(b: Seq<u8>, i: int, t: Token) -> bool {
    let c = b[i];
    let s = b.subrange(i, token_end(b, i));
    if is_alpha(c) {
        match reserved_word(s) {
            Some(k) => t == k,
            None => t matches Token::Ident(n) && n@ == decode_utf8(s),
        }
    } else if number_start(b, i) {
        if has_fraction(b, int_part_end(b, i)) {
            t matches Token::Float(x) && x@ == decode_utf8(s)
        } else if fits_i64(int_literal_value(b, i)) {
            t == Token::Int(int_literal_value(b, i) as i64)
        } else {
            t == Token::Error
        }
    } else if c == 34 {
        let k = string_close(b, i + 1);
        if k >= 0 && valid_utf8(unescape(b, i + 1, k)) {
            t matches Token::StringLit(x) && x@ == decode_utf8(unescape(b, i + 1, k))
        } else {
            t == Token::Error
        }
    } else if i + 1 < b.len() && op2_token(c, b[i + 1]) is Some {
        t == op2_token(c, b[i + 1])->0
    } else if op1_token(c) is Some {
        t == op1_token(c)->0
    } else {
        t == Token::Error
    }
}

// ---------------------------------------------------------------------------
// Facts used by the scanner
proof fn lemma_ascii_valid_utf8(s: Seq<u8>)
    requires
        forall|k: int| 0 <= k < s.len() ==> s[k] < 128,
    ensures
        valid_utf8(s),
    decreases s.len(),
{
    if s.len() > 0 {
        let x = s[0];
        assert((x & 0x7f) <= 0x7f) by (bit_vector);
        assert(valid_first_scalar(s));
        let rest = pop_first_scalar(s);
        assert(rest =~= s.subrange(1, s.len() as int));
        lemma_ascii_valid_utf8(rest);
    }
}

proof fn lemma_digits_value_monotone(b: Seq<u8>, s: int, k: int, e: int)
    requires
        s <= k <= e <= b.len(),
        0 <= s,
        forall|j: int| s <= j < e ==> is_digit(b[j]),
    ensures
        0 <= digits_value(b, s, k) <= digits_value(b, s, e),
    decreases e - s,
{
    if e > s {
        if k < e {
            lemma_digits_value_monotone(b, s, k, e - 1);
        } else {
            lemma_digits_value_monotone(b, s, k - 1, e - 1);
        }
    }
}

// ---------------------------------------------------------------------------
// The scanner
/// Relies on `String::from_utf8`: it succeeds exactly on valid UTF-8, and the
/// string then holds the characters that the bytes encode.
#[verifier::external_body]
fn string_from_utf8(v: Vec<u8>) -> (r: Option<String>)
    ensures
        r is Some <==> valid_utf8(v@),
        r matches Some(x) ==> x@ == decode_utf8(v@),
{
    String::from_utf8(v).ok()
}

fn copy_range(b: &Vec<u8>, s: usize, e: usize) -> (r: Vec<u8>)
    requires
        s <= e <= b@.len(),
    ensures
        r@ == b@.subrange(s as int, e as int),
{
    let mut out: Vec<u8> = Vec::new();
    let mut k: usize = s;
    while k < e
        invariant
            s <= k <= e <= b@.len(),
            out@ == b@.subrange(s as int, k as int),
        decreases e - k,
    {
        out.push(b[k]);
        k += 1;
        assert(out@ =~= b@.subrange(s as int, k as int));
    }
    out
}

fn word_eq(b: &Vec<u8>, s: usize, e: usize, w: &Vec<u8>) -> (r: bool)
    requires
        s <= e <= b@.len(),
    ensures
        r == (b@.subrange(s as int, e as int) == w@),
{
    if e - s != w.len() {
        return false;
    }
    let mut k: usize = 0;
    while k < w.len()
        invariant
            s <= e <= b@.len(),
            e - s == w@.len(),
            k <= w@.len(),
            forall|j: int| 0 <= j < k ==> b@[s + j] == w@[j],
        decreases w@.len() - k,
    {
        if b[s + k] != w[k] {
            assert(b@.subrange(s as int, e as int)[k as int] != w@[k as int]);
            return false;
        }
        k += 1;
    }
    assert(b@.subrange(s as int, e as int) =~= w@);
    true
}

fn block_closed_from(b: &Vec<u8>, j0: usize) -> (r: bool)
    requires
        j0 <= b@.len(),
    ensures
        r == block_closed(b@, j0 as int),
{
    let mut j = j0;
    while j < b.len() && j + 1 < b.len()
        invariant
            j0 <= j <= b@.len(),
            block_closed(b@, j0 as int) == block_closed(b@, j as int),
        decreases b@.len() - j,
    {
        if b[j] == 42 && b[j + 1] == 47 {
            return true;
        }
        j += 1;
    }
    false
}

/// Skips whitespace and comments from `i0`.
pub fn skip_trivia_from(b: &Vec<u8>, i0: usize) -> (r: usize)
    requires
        i0 <= b@.len(),
    ensures
        r as int == skip_trivia(b@, i0 as int),
        i0 <= r <= b@.len(),
{
    let len = b.len();
    let mut i = i0;
    loop
        invariant
            len == b@.len(),
            i0 <= i <= len,
            skip_trivia(b@, i0 as int) == skip_trivia(b@, i as int),
        decreases len - i,
    {
        if i >= len {
            return i;
        }
        let c = b[i];
        if c == 32 || c == 9 || c == 10 || c == 12 || c == 13 {
            i += 1;
        } else if i + 1 < len && c == 47 && b[i + 1] == 47 {
            let mut j = i + 2;
            while j < len && b[j] != 10
                invariant
                    len == b@.len(),
                    i < j <= len,
                    skip_trivia(b@, i0 as int) == skip_line_comment(b@, j as int),
                decreases len - j,
            {
                j += 1;
            }
            if j < len {
                i = j + 1;
            } else {
                i = j;
            }
        } else if i + 1 < len && c == 47 && b[i + 1] == 42 && block_closed_from(b, i + 2) {
            let mut j = i + 2;
            while j < len && !(j + 1 < len && b[j] == 42 && b[j + 1] == 47)
                invariant
                    len == b@.len(),
                    i < j <= len,
                    skip_trivia(b@, i0 as int) == skip_block_comment(b@, j as int),
                decreases len - j,
            {
                j += 1;
            }
            if j < len {
                i = j + 2;
            } else {
                i = j;
            }
        } else {
            return i;
        }
    }
}

fn word_end_from(b: &Vec<u8>, i0: usize) -> (r: usize)
    requires
        i0 <= b@.len(),
    ensures
        r as int == word_end(b@, i0 as int),
        i0 <= r <= b@.len(),
        forall|k: int| i0 <= k < r ==> is_word_byte(b@[k]),
        i0 < b@.len() && is_word_byte(b@[i0 as int]) ==> i0 < r,
{
    let mut i = i0;
    while i < b.len() && ((b[i] >= 65 && b[i] <= 90) || (b[i] >= 97 && b[i] <= 122) || b[i] == 95
        || (b[i] >= 48 && b[i] <= 57))
        invariant
            i0 <= i <= b@.len(),
            word_end(b@, i0 as int) == word_end(b@, i as int),
            forall|k: int| i0 <= k < i ==> is_word_byte(b@[k]),
        decreases b@.len() - i,
    {
        i += 1;
    }
    i
}

fn digits_end_from(b: &Vec<u8>, i0: usize) -> (r: usize)
    requires
        i0 <= b@.len(),
    ensures
        r as int == digits_end(b@, i0 as int),
        i0 <= r <= b@.len(),
        forall|k: int| i0 <= k < r ==> is_digit(b@[k]),
        i0 < b@.len() && is_digit(b@[i0 as int]) ==> i0 < r,
{
    let mut i = i0;
    while i < b.len() && b[i] >= 48 && b[i] <= 57
        invariant
            i0 <= i <= b@.len(),
            digits_end(b@, i0 as int) == digits_end(b@, i as int),
            forall|k: int| i0 <= k < i ==> is_digit(b@[k]),
        decreases b@.len() - i,
    {
        i += 1;
    }
    i
}

fn string_close_from(b: &Vec<u8>, j0: usize) -> (r: Option<usize>)
    requires
        j0 <= b@.len(),
    ensures
        match r {
            Some(k) => k as int == string_close(b@, j0 as int) && j0 <= k < b@.len(),
            None => string_close(b@, j0 as int) == -1,
        },
{
    let len = b.len();
    let mut j = j0;
    while j < len
        invariant
            len == b@.len(),
            j0 <= j <= len,
            string_close(b@, j0 as int) == string_close(b@, j as int),
        decreases len - j,
    {
        if b[j] == 34 {
            return Some(j);
        } else if b[j] == 92 {
            if j + 1 < len {
                j += 2;
            } else {
                return None;
            }
        } else {
            j += 1;
        }
    }
    None
}

fn unescape_range(b: &Vec<u8>, j0: usize, end: usize) -> (r: Vec<u8>)
    requires
        j0 <= end <= b@.len(),
    ensures
        r@ == unescape(b@, j0 as int, end as int),
{
    let mut out: Vec<u8> = Vec::new();
    let mut j = j0;
    while j < end
        invariant
            j0 <= j <= end <= b@.len(),
            out@ + unescape(b@, j as int, end as int) == unescape(b@, j0 as int, end as int),
        decreases end - j,
    {
        let ghost before = out@;
        let ghost j_before = j as int;
        if b[j] == 92 && j + 1 < end {
            let c = b[j + 1];
            let x: u8 = if c == 110 {
                10
            } else if c == 116 {
                9
            } else if c == 114 {
                13
            } else if c == 48 {
                0
            } else {
                c
            };
            out.push(x);
            j += 2;
            assert(unescape(b@, j_before, end as int) == seq![x] + unescape(b@, j as int, end as int));
        } else {
            out.push(b[j]);
            j += 1;
            assert(unescape(b@, j_before, end as int) == seq![b@[j_before]] + unescape(b@, j as int, end as int));
        }
        assert(out@ + unescape(b@, j as int, end as int) =~= before + unescape(b@, j_before, end as int));
    }
    assert(unescape(b@, j as int, end as int) =~= Seq::<u8>::empty());
    assert(out@ =~= out@ + Seq::<u8>::empty());
    out
}

/// The value of the digits `b[s..e]`, or `None` when it exceeds 2^63.
fn digits_value_capped(b: &Vec<u8>, s: usize, e: usize) -> (r: Option<u64>)
    requires
        s <= e <= b@.len(),
        forall|k: int| s <= k < e ==> is_digit(b@[k]),
    ensures
        match r {
            Some(v) => v as int == digits_value(b@, s as int, e as int) && v <= 0x8000_0000_0000_0000,
            None => digits_value(b@, s as int, e as int) > 0x8000_0000_0000_0000,
        },
{
    let mut acc: u64 = 0;
    let mut k: usize = s;
    while k < e
        invariant
            s <= k <= e <= b@.len(),
            forall|j: int| s <= j < e ==> is_digit(b@[j]),
            acc as int == digits_value(b@, s as int, k as int),
            acc <= 0x8000_0000_0000_0000,
        decreases e - k,
    {
        let d = (b[k] - 48) as u64;
        if acc > 922_337_203_685_477_580 {
            proof {
                lemma_digits_value_monotone(b@, s as int, k as int + 1, e as int);
            }
            return None;
        }
        let next = acc * 10 + d;
        if next > 0x8000_0000_0000_0000 {
            proof {
                lemma_digits_value_monotone(b@, s as int, k as int + 1, e as int);
            }
            return None;
        }
        acc = next;
        k += 1;
    }
    Some(acc)
}

fn reserved_word_of(b: &Vec<u8>, s: usize, e: usize) -> (r: Option<Token>)
    requires
        s <= e <= b@.len(),
    ensures
        r == reserved_word(b@.subrange(s as int, e as int)),
{
    let ghost w = b@.subrange(s as int, e as int);
    let kw_fn = vec![102u8, 110u8];
    assert(kw_fn@ =~= seq![102u8, 110u8]);
    if word_eq(b, s, e, &kw_fn) {
        return Some(Token::KeywordFn);
    }
    let kw_let = vec![108u8, 101u8, 116u8];
    assert(kw_let@ =~= seq![108u8, 101u8, 116u8]);
    if word_eq(b, s, e, &kw_let) {
        return Some(Token::KeywordLet);
    }
    let kw_const = vec![99u8, 111u8, 110u8, 115u8, 116u8];
    assert(kw_const@ =~= seq![99u8, 111u8, 110u8, 115u8, 116u8]);
    if word_eq(b, s, e, &kw_const) {
        return Some(Token::KeywordConst);
    }
    let kw_return = vec![114u8, 101u8, 116u8, 117u8, 114u8, 110u8];
    assert(kw_return@ =~= seq![114u8, 101u8, 116u8, 117u8, 114u8, 110u8]);
    if word_eq(b, s, e, &kw_return) {
        return Some(Token::KeywordReturn);
    }
    let kw_if = vec![105u8, 102u8];
    assert(kw_if@ =~= seq![105u8, 102u8]);
    if word_eq(b, s, e, &kw_if) {
        return Some(Token::KeywordIf);
    }
    let kw_else = vec![101u8, 108u8, 115u8, 101u8];
    assert(kw_else@ =~= seq![101u8, 108u8, 115u8, 101u8]);
    if word_eq(b, s, e, &kw_else) {
        return Some(Token::KeywordElse);
    }
    let kw_while = vec![119u8, 104u8, 105u8, 108u8, 101u8];
    assert(kw_while@ =~= seq![119u8, 104u8, 105u8, 108u8, 101u8]);
    if word_eq(b, s, e, &kw_while) {
        return Some(Token::KeywordWhile);
    }
    let kw_for = vec![102u8, 111u8, 114u8];
    assert(kw_for@ =~= seq![102u8, 111u8, 114u8]);
    if word_eq(b, s, e, &kw_for) {
        return Some(Token::KeywordFor);
    }
    let kw_struct = vec![115u8, 116u8, 114u8, 117u8, 99u8, 116u8];
    assert(kw_struct@ =~= seq![115u8, 116u8, 114u8, 117u8, 99u8, 116u8]);
    if word_eq(b, s, e, &kw_struct) {
        return Some(Token::KeywordStruct);
    }
    let kw_impl = vec![105u8, 109u8, 112u8, 108u8];
    assert(kw_impl@ =~= seq![105u8, 109u8, 112u8, 108u8]);
    if word_eq(b, s, e, &kw_impl) {
        return Some(Token::KeywordImpl);
    }
    let kw_async = vec![97u8, 115u8, 121u8, 110u8, 99u8];
    assert(kw_async@ =~= seq![97u8, 115u8, 121u8, 110u8, 99u8]);
    if word_eq(b, s, e, &kw_async) {
        return Some(Token::KeywordAsync);
    }
    let kw_await = vec![97u8, 119u8, 97u8, 105u8, 116u8];
    assert(kw_await@ =~= seq![97u8, 119u8, 97u8, 105u8, 116u8]);
    if word_eq(b, s, e, &kw_await) {
        return Some(Token::KeywordAwait);
    }
    let kw_true = vec![116u8, 114u8, 117u8, 101u8];
    assert(kw_true@ =~= seq![116u8, 114u8, 117u8, 101u8]);
    if word_eq(b, s, e, &kw_true) {
        return Some(Token::Bool(true));
    }
    let kw_false = vec![102u8, 97u8, 108u8, 115u8, 101u8];
    assert(kw_false@ =~= seq![102u8, 97u8, 108u8, 115u8, 101u8]);
    if word_eq(b, s, e, &kw_false) {
        return Some(Token::Bool(false));
    }
    None
}

fn op2_of(c0: u8, c1: u8) -> (r: Option<Token>)
    ensures
        r == op2_token(c0, c1),
{
    if c0 == 61 && c1 == 61 {
        Some(Token::DoubleEquals)
    } else if c0 == 33 && c1 == 61 {
        Some(Token::NotEquals)
    } else if c0 == 60 && c1 == 61 {
        Some(Token::LessOrEqual)
    } else if c0 == 62 && c1 == 61 {
        Some(Token::GreaterOrEqual)
    } else if c0 == 38 && c1 == 38 {
        Some(Token::And)
    } else if c0 == 124 && c1 == 124 {
        Some(Token::Or)
    } else if c0 == 45 && c1 == 62 {
        Some(Token::Arrow)
    } else if c0 == 46 && c1 == 46 {
        Some(Token::DoubleDot)
    } else {
        None
    }
}

fn op1_of(c: u8) -> (r: Option<Token>)
    ensures
        r == op1_token(c),
{
    if c == 43 {
        Some(Token::Plus)
    } else if c == 45 {
        Some(Token::Minus)
    } else if c == 42 {
        Some(Token::Star)
    } else if c == 47 {
        Some(Token::Slash)
    } else if c == 37 {
        Some(Token::Percent)
    } else if c == 61 {
        Some(Token::Equals)
    } else if c == 60 {
        Some(Token::LessThan)
    } else if c == 62 {
        Some(Token::GreaterThan)
    } else if c == 33 {
        Some(Token::Bang)
    } else if c == 40 {
        Some(Token::LParen)
    } else if c == 41 {
        Some(Token::RParen)
    } else if c == 123 {
        Some(Token::LBrace)
    } else if c == 125 {
        Some(Token::RBrace)
    } else if c == 91 {
        Some(Token::LSquare)
    } else if c == 93 {
        Some(Token::RSquare)
    } else if c == 44 {
        Some(Token::Comma)
    } else if c == 58 {
        Some(Token::Colon)
    } else if c == 59 {
        Some(Token::Semicolon)
    } else if c == 46 {
        Some(Token::Dot)
    } else {
        None
    }
}

/// Scans the token that starts at `i`, a position that is not trivia.
pub fn scan_token(b: &Vec<u8>, i: usize) -> (r: (Token, usize))
    requires
        i < b@.len(),
    ensures
        r.1 as int == token_end(b@, i as int),
        i < r.1 <= b@.len(),
        token_is(b@, i as int, r.0),
        r.0 != Token::End,
{
    reveal(token_is);
    let len = b.len();
    let c = b[i];
    if (c >= 65 && c <= 90) || (c >= 97 && c <= 122) || c == 95 {
        let e = word_end_from(b, i);
        match reserved_word_of(b, i, e) {
            Some(k) => (k, e),
            None => {
                let bytes = copy_range(b, i, e);
                proof {
                    lemma_ascii_valid_utf8(bytes@);
                }
                match string_from_utf8(bytes) {
                    Some(name) => (Token::Ident(name), e),
                    None => (Token::Error, e),
                }
            },
        }
    } else if (c >= 48 && c <= 57) || (c == 45 && i + 1 < len && b[i + 1] >= 48 && b[i + 1] <= 57) {
        let negative = c == 45;
        let ds = if negative { i + 1 } else { i };
        let d = digits_end_from(b, ds);
        if d < len && d + 1 < len && b[d] == 46 && b[d + 1] >= 48 && b[d + 1] <= 57 {
            let e = digits_end_from(b, d + 1);
            let bytes = copy_range(b, i, e);
            proof {
                lemma_ascii_valid_utf8(bytes@);
            }
            match string_from_utf8(bytes) {
                Some(text) => (Token::Float(text), e),
                None => (Token::Error, e),
            }
        } else {
            match digits_value_capped(b, ds, d) {
                Some(v) => {
                    if negative {
                        if v == 0x8000_0000_0000_0000 {
                            (Token::Int(i64::MIN), d)
                        } else {
                            (Token::Int(-(v as i64)), d)
                        }
                    } else if v <= 0x7fff_ffff_ffff_ffff {
                        (Token::Int(v as i64), d)
                    } else {
                        (Token::Error, d)
                    }
                },
                None => (Token::Error, d),
            }
        }
    } else if c == 34 {
        match string_close_from(b, i + 1) {
            Some(k) => {
                let body = unescape_range(b, i + 1, k);
                match string_from_utf8(body) {
                    Some(text) => (Token::StringLit(text), k + 1),
                    None => (Token::Error, k + 1),
                }
            },
            None => (Token::Error, len),
        }
    } else if i + 1 < len && op2_of(c, b[i + 1]).is_some() {
        match op2_of(c, b[i + 1]) {
            Some(t) => (t, i + 2),
            None => (Token::Error, i + 2),
        }
    } else {
        match op1_of(c) {
            Some(t) => (t, i + 1),
            None => (Token::Error, i + 1),
        }
    }
}

// ---------------------------------------------------------------------------
// The token stream
/// Where the token after position `pos` lies: the end marker sits at the end
/// of the input once nothing but trivia is left.
pub open spec fn next_span(b: Seq<u8>, pos: int) -> (int, int) {
    let s = skip_trivia(b, pos);
    if s >= b.len() {
        (b.len() as int, b.len() as int)
    } else {
        (s, token_end(b, s))
    }
}

/// Where the token at index `k` of a stream that starts at `from` begins to
/// look: the end of the token before it, or `from` itself.
pub open spec fn prev_end(ts: Seq<(Token, (usize, usize))>, from: int, k: int) -> int {
    if k == 0 {
        from
    } else {
        ts[k - 1].1.1 as int
    }
}

/// The token `t` spanning `start..end` is the one scanned after position `prev`.
#[verifier::opaque]
pub open spec fn scanned_after(b: Seq<u8>, prev: int, start: int, end: int, t: Token) -> bool {
    &&& start == skip_trivia(b, prev)
    &&& end == token_end(b, start)
    &&& token_is(b, start, t)
}

/// Nothing but whitespace and comments follows position `from`.
#[verifier::opaque]
pub open spec fn only_trivia_after(b: Seq<u8>, from: int) -> bool {
    skip_trivia(b, from) == b.len()
}

/// The spans of `ts` run forward from `from` without overlapping, and
/// the last one is the empty span at its end.
pub open spec fn spans_in_order(b: Seq<u8>, from: int, ts: Seq<(Token, (usize, usize))>) -> bool {
    &&& ts.len() >= 1
    &&& ts.last().1.0 as int == b.len()
    &&& ts.last().1.1 as int == b.len()
    &&& prev_end(ts, from, ts.len() - 1) <= b.len()
    &&& forall|k: int|
        #![trigger prev_end(ts, from, k)]
        0 <= k < ts.len() - 1 ==> prev_end(ts, from, k) <= ts[k].1.0 < ts[k].1.1 <= b.len()
}

/// `ts` is the complete token stream of the input `b` read from position
/// `from`: each token starts where
/// the whitespace and comments after the previous one end and is the one
/// `token_is` describes, and the stream closes with exactly one end marker,
/// at the end of the input, once only trivia is left.
pub open spec fn token_stream(b: Seq<u8>, from: int, ts: Seq<(Token, (usize, usize))>) -> bool {
    &&& spans_in_order(b, from, ts)
    &&& ts.last().0 == Token::End
    &&& only_trivia_after(b, prev_end(ts, from, ts.len() - 1))
    &&& forall|k: int|
        #![trigger prev_end(ts, from, k)]
        0 <= k < ts.len() - 1 ==> {
            &&& ts[k].0 != Token::End
            &&& scanned_after(b, prev_end(ts, from, k), ts[k].1.0 as int, ts[k].1.1 as int, ts[k].0)
        }
}

/// The source slices of the tokens from index `k` on, concatenated.
pub open spec fn token_text(b: Seq<u8>, ts: Seq<(Token, (usize, usize))>, k: int) -> Seq<u8>
    decreases ts.len() - k,
{
    if k < 0 || k >= ts.len() {
        Seq::empty()
    } else {
        b.subrange(ts[k].1.0 as int, ts[k].1.1 as int) + token_text(b, ts, k + 1)
    }
}

/// The input from position `i` on with its whitespace and comments left out:
/// the bytes of each token that scanning finds, in order.
pub open spec fn without_trivia(b: Seq<u8>, i: int) -> Seq<u8>
    decreases b.len() - i,
{
    let s = skip_trivia(b, i);
    if i < 0 || s < i || s >= b.len() {
        Seq::empty()
    } else {
        let e = token_end(b, s);
        if s < e <= b.len() {
            b.subrange(s, e) + without_trivia(b, e)
        } else {
            Seq::empty()
        }
    }
}

proof fn lemma_token_text_suffix(b: Seq<u8>, ts: Seq<(Token, (usize, usize))>, k: int)
    requires
        token_stream(b, 0, ts),
        0 <= k < ts.len(),
    ensures
        token_text(b, ts, k) == without_trivia(b, prev_end(ts, 0, k)),
    decreases ts.len() - k,
{
    let n = ts.len() as int;
    if k == n - 1 {
        reveal(only_trivia_after);
        assert(token_text(b, ts, k + 1) == Seq::<u8>::empty());
        assert(b.subrange(b.len() as int, b.len() as int) =~= Seq::<u8>::empty());
        assert(token_text(b, ts, k) =~= Seq::<u8>::empty());
    } else {
        lemma_token_text_suffix(b, ts, k + 1);
        reveal(scanned_after);
        assert(prev_end(ts, 0, k) <= ts[k].1.0);
        assert(scanned_after(b, prev_end(ts, 0, k), ts[k].1.0 as int, ts[k].1.1 as int, ts[k].0));
        assert(prev_end(ts, 0, k + 1) == ts[k].1.1);
    }
}

/// The first `n` tokens' slices, each preceded by the trivia skipped before it.
pub open spec fn text_with_trivia(b: Seq<u8>, ts: Seq<(Token, (usize, usize))>, n: int) -> Seq<u8>
    decreases n,
{
    if n <= 0 {
        Seq::empty()
    } else {
        text_with_trivia(b, ts, n - 1) + b.subrange(prev_end(ts, 0, n - 1), ts[n - 1].1.0 as int)
            + b.subrange(ts[n - 1].1.0 as int, ts[n - 1].1.1 as int)
    }
}

proof fn lemma_text_with_trivia_prefix(b: Seq<u8>, ts: Seq<(Token, (usize, usize))>, n: int)
    requires
        spans_in_order(b, 0, ts),
        0 <= n <= ts.len(),
    ensures
        text_with_trivia(b, ts, n) == b.subrange(0, prev_end(ts, 0, n)),
    decreases n,
{
    if n > 0 {
        lemma_text_with_trivia_prefix(b, ts, n - 1);
        let k = n - 1;
        if k < ts.len() - 1 {
            assert(ts[k].1.0 < ts[k].1.1);
        }
        assert(b.subrange(0, prev_end(ts, 0, k)) + b.subrange(prev_end(ts, 0, k), ts[k].1.0 as int)
            + b.subrange(ts[k].1.0 as int, ts[k].1.1 as int) =~= b.subrange(0, prev_end(ts, 0, n)));
    } else {
        assert(b.subrange(0, 0) =~= Seq::<u8>::empty());
    }
}

/// The tokenizer loses nothing but trivia: the tokens' source slices,
/// concatenated in order, are the input with its whitespace and comments left
/// out; put back between the tokens, the skipped bytes give the input itself.
pub proof fn lemma_token_slices_rebuild_source(b: Seq<u8>, ts: Seq<(Token, (usize, usize))>)
    requires
        token_stream(b, 0, ts),
    ensures
        token_text(b, ts, 0) == without_trivia(b, 0),
        text_with_trivia(b, ts, ts.len() as int) == b,
        forall|k: int|
            0 <= k < ts.len() ==> skip_trivia(b, prev_end(ts, 0, k)) == #[trigger] ts[k].1.0,
{
    lemma_token_text_suffix(b, ts, 0);
    lemma_text_with_trivia_prefix(b, ts, ts.len() as int);
    assert(b.subrange(0, b.len() as int) =~= b);
    assert forall|k: int| 0 <= k < ts.len() implies skip_trivia(b, prev_end(ts, 0, k)) == #[trigger] ts[k].1.0 by {
        if k < ts.len() - 1 {
            reveal(scanned_after);
        } else {
            reveal(only_trivia_after);
        }
    }
}

/// A pull-based tokenizer over one source text. It can be restarted by making
/// a new one; `next_token` keeps returning the end marker once the input is
/// exhausted.
pub struct Lexer {
    src: Vec<u8>,
    pos: usize,
    span_start: usize,
    span_end: usize,
}

impl Lexer {
    pub closed spec fn source(&self) -> Seq<u8> {
        self.src@
    }

    /// How far the lexer has read.
    pub closed spec fn position(&self) -> int {
        self.pos as int
    }

    /// The span of the token returned last.
    pub closed spec fn current_span(&self) -> (int, int) {
        (self.span_start as int, self.span_end as int)
    }

    pub closed spec fn wf(&self) -> bool {
        &&& self.pos <= self.src@.len()
        &&& self.span_start <= self.span_end <= self.src@.len()
    }

    pub fn new(input: &str) -> (r: Lexer)
        ensures
            r.wf(),
            r.source() == input.spec_bytes(),
            r.position() == 0,
            r.current_span() == (0int, 0int),
    {
        Lexer { src: input.as_bytes_vec(), pos: 0, span_start: 0, span_end: 0 }
    }

    pub fn span(&self) -> (r: (usize, usize))
        requires
            self.wf(),
        ensures
            (r.0 as int, r.1 as int) == self.current_span(),
    {
        (self.span_start, self.span_end)
    }

    /// The source bytes of the token returned last.
    pub fn slice(&self) -> (r: Vec<u8>)
        requires
            self.wf(),
        ensures
            r@ == self.source().subrange(self.current_span().0, self.current_span().1),
    {
        copy_range(&self.src, self.span_start, self.span_end)
    }

    /// Returns the next token and its half-open byte span.
    pub fn next_token(&mut self) -> (r: (Token, (usize, usize)))
        requires
            old(self).wf(),
        ensures
            final(self).wf(),
            final(self).source() == old(self).source(),
            (r.1.0 as int, r.1.1 as int) == next_span(old(self).source(), old(self).position()),
            final(self).position() == r.1.1,
            final(self).current_span() == (r.1.0 as int, r.1.1 as int),
            old(self).position() <= r.1.0 <= r.1.1 <= old(self).source().len(),
            r.0 == Token::End <==> skip_trivia(old(self).source(), old(self).position())
                == old(self).source().len(),
            r.0 != Token::End ==> r.1.0 < r.1.1 && token_is(old(self).source(), r.1.0 as int, r.0),
    {
        let s = skip_trivia_from(&self.src, self.pos);
        if s >= self.src.len() {
            let len = self.src.len();
            self.pos = len;
            self.span_start = len;
            self.span_end = len;
            (Token::End, (len, len))
        } else {
            let (t, e) = scan_token(&self.src, s);
            self.pos = e;
            self.span_start = s;
            self.span_end = e;
            (t, (s, e))
        }
    }
}

/// The whole token stream of `input`, end marker included.
pub fn tokenize(input: &str) -> (r: Vec<(Token, (usize, usize))>)
    ensures
        token_stream(input.spec_bytes(), 0, r@),
{
    collect_tokens(Lexer::new(input))
}

/// Drains a lexer: the rest of its token stream, end marker included.
#[verifier::rlimit(60)]
pub fn collect_tokens(lexer: Lexer) -> (r: Vec<(Token, (usize, usize))>)
    requires
        lexer.wf(),
    ensures
        token_stream(lexer.source(), lexer.position(), r@),
{
    let ghost b = lexer.source();
    let ghost from = lexer.position();
    let mut lx = lexer;
    let mut out: Vec<(Token, (usize, usize))> = Vec::new();
    loop
        invariant
            b == lexer.source(),
            from == lexer.position(),
            lx.wf(),
            lx.source() == b,
            lx.position() == prev_end(out@, from, out@.len() as int),
            forall|k: int|
                #![trigger prev_end(out@, from, k)]
                0 <= k < out@.len() ==> {
                    &&& out@[k].0 != Token::End
                    &&& prev_end(out@, from, k) <= out@[k].1.0
                    &&& out@[k].1.0 < out@[k].1.1 <= b.len()
                    &&& scanned_after(b, prev_end(out@, from, k), out@[k].1.0 as int, out@[k].1.1 as int, out@[k].0)
                },
        decreases b.len() - lx.position(),
    {
        let ghost before = out@;
        let (t, span) = lx.next_token();
        let done = match t {
            Token::End => true,
            _ => false,
        };
        let ghost p = prev_end(before, from, before.len() as int);
        proof {
            if !done {
                reveal(scanned_after);
                assert(scanned_after(b, p, span.0 as int, span.1 as int, t));
            }
        }
        out.push((t, span));
        assert(prev_end(out@, from, before.len() as int) == p);
        assert forall|k: int| 0 <= k < before.len() implies prev_end(out@, from, k) == prev_end(before, from, k)
            && out@[k] == before[k] by {}
        if done {
            assert(out@.last().0 == Token::End);
            proof {
                reveal(only_trivia_after);
            }
            assert forall|k: int| #![trigger prev_end(out@, from, k)] 0 <= k < out@.len() - 1 implies {
                &&& out@[k].0 != Token::End
                &&& prev_end(out@, from, k) <= out@[k].1.0
                &&& out@[k].1.0 < out@[k].1.1 <= b.len()
                &&& scanned_after(b, prev_end(out@, from, k), out@[k].1.0 as int, out@[k].1.1 as int, out@[k].0)
            } by {
                assert(prev_end(before, from, k) == prev_end(out@, from, k));
            }
            assert(prev_end(out@, from, out@.len() - 1) == p);
            return out;
        }
        assert forall|k: int| #![trigger prev_end(out@, from, k)] 0 <= k < out@.len() implies {
            &&& out@[k].0 != Token::End
            &&& prev_end(out@, from, k) <= out@[k].1.0
            &&& out@[k].1.0 < out@[k].1.1 <= b.len()
            &&& scanned_after(b, prev_end(out@, from, k), out@[k].1.0 as int, out@[k].1.1 as int, out@[k].0)
        } by {
            if k < before.len() {
                assert(prev_end(before, from, k) == prev_end(out@, from, k));
            }
        }
    }
}

} // verus!
