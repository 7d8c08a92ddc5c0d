//! Character classes and string predicates of the notation's grammar.
//!
//! A string value may be written without quotes only when it cannot be
//! confused with punctuation, a comment, a keyword literal or a number,
//! and contains none of the characters that force quoting.

use vstd::prelude::*;
use vstd::string::StrSliceExecFns;

verus! {

/// Characters that force a string into quotes: controls, DEL and the C1
/// block, and a fixed set of Unicode format and separator characters.
pub open spec fn needs_quotes_char(c: char) -> bool {
    let u = c as u32;
    ||| u < 0x20
    ||| (0x7f <= u && u <= 0x9f)
    ||| u == 0xad
    ||| (0x600 <= u && u <= 0x604)
    ||| u == 0x70f
    ||| u == 0x17b4
    ||| u == 0x17b5
    ||| (0x200c <= u && u <= 0x200f)
    ||| (0x2028 <= u && u <= 0x202f)
    ||| (0x2060 <= u && u <= 0x206f)
    ||| u == 0xfeff
    ||| (0xfff0 <= u && u <= 0xffff)
}

/// Characters that must be rewritten inside a quoted string: the quote and
/// backslash on top of the quote-forcing set.
pub open spec fn needs_escape_char(c: char) -> bool {
    c == '"' || c == '\\' || needs_quotes_char(c)
}

/// Characters that are unsafe inside a multi-line block: the quote-forcing
/// set except the line breaks the block keeps literally.
pub open spec fn needs_escape_ml_char(c: char) -> bool {
    needs_quotes_char(c) && c != '\n' && c != '\r'
}

/// Whitespace, as the quoting rules see it (the Unicode white-space set).
pub open spec fn is_space(c: char) -> bool {
    let u = c as u32;
    ||| (0x09 <= u && u <= 0x0d)
    ||| u == 0x20
    ||| u == 0x85
    ||| u == 0xa0
    ||| u == 0x1680
    ||| (0x2000 <= u && u <= 0x200a)
    ||| u == 0x2028
    ||| u == 0x2029
    ||| u == 0x202f
    ||| u == 0x205f
    ||| u == 0x3000
}

pub open spec fn is_digit(c: char) -> bool {
    let u = c as u32;
    0x30 <= u && u <= 0x39
}

pub open spec fn contains_needs_quotes(s: Seq<char>) -> bool {
    exists|i: int| 0 <= i < s.len() && needs_quotes_char(s[i])
}

pub open spec fn contains_needs_escape(s: Seq<char>) -> bool {
    exists|i: int| 0 <= i < s.len() && needs_escape_char(s[i])
}

/// A multi-line block opener or closer starts at position `i`.
pub open spec fn triple_quote_at(s: Seq<char>, i: int) -> bool {
    &&& i + 3 <= s.len()
    &&& s[i] == '\''
    &&& s[i + 1] == '\''
    &&& s[i + 2] == '\''
}

pub open spec fn contains_triple_quote(s: Seq<char>) -> bool {
    exists|i: int| 0 <= i && triple_quote_at(s, i)
}

/// The string cannot be written as a multi-line block.
pub open spec fn needs_escape_ml(s: Seq<char>) -> bool {
    ||| contains_triple_quote(s)
    ||| exists|i: int| 0 <= i < s.len() && needs_escape_ml_char(s[i])
}

/// Structural reasons to quote: a confusing first character (whitespace, a
/// quote, a block opener, a comment opener, a brace or bracket) or trailing
/// whitespace.
pub open spec fn needs_quotes2(s: Seq<char>) -> bool {
    s.len() > 0 && {
        ||| is_space(s[0])
        ||| s[0] == '"'
        ||| s[0] == '#'
        ||| s[0] == '{'
        ||| s[0] == '['
        ||| triple_quote_at(s, 0)
        ||| (s.len() >= 2 && s[0] == '/' && (s[1] == '/' || s[1] == '*'))
        ||| is_space(s[s.len() - 1])
    }
}

/// At position `i` stands a separator or a comment opener, which ends a
/// quoteless candidate when it follows a keyword or a number.
pub open spec fn is_punct_start(s: Seq<char>, i: int) -> bool {
    &&& 0 <= i < s.len()
    &&& {
        ||| s[i] == ','
        ||| s[i] == ']'
        ||| s[i] == '}'
        ||| s[i] == '#'
        ||| (i + 2 <= s.len() && s[i] == '/' && (s[i + 1] == '/' || s[i + 1] == '*'))
    }
}

/// From position `i` on, the string holds only whitespace, optionally
/// followed by a separator or comment opener and arbitrary text.
pub open spec fn keyword_tail(s: Seq<char>, i: int) -> bool
    decreases s.len() - i,
{
    if i >= s.len() {
        true
    } else if is_punct_start(s, i) {
        true
    } else if 0 <= i && is_space(s[i]) {
        keyword_tail(s, i + 1)
    } else {
        false
    }
}

pub open spec fn starts_with_true(s: Seq<char>) -> bool {
    s.len() >= 4 && s[0] == 't' && s[1] == 'r' && s[2] == 'u' && s[3] == 'e' && keyword_tail(s, 4)
}

pub open spec fn starts_with_false(s: Seq<char>) -> bool {
    s.len() >= 5 && s[0] == 'f' && s[1] == 'a' && s[2] == 'l' && s[3] == 's' && s[4] == 'e'
        && keyword_tail(s, 5)
}

pub open spec fn starts_with_null(s: Seq<char>) -> bool {
    s.len() >= 4 && s[0] == 'n' && s[1] == 'u' && s[2] == 'l' && s[3] == 'l' && keyword_tail(s, 4)
}

/// The string is a keyword literal, optionally followed only by whitespace
/// and a separator or comment continuation.
pub open spec fn starts_with_keyword(s: Seq<char>) -> bool {
    starts_with_true(s) || starts_with_false(s) || starts_with_null(s)
}

/// First index at or after `i` that holds no decimal digit.
pub open spec fn skip_digits(s: Seq<char>, i: int) -> int
    decreases s.len() - i,
{
    if 0 <= i < s.len() && is_digit(s[i]) {
        skip_digits(s, i + 1)
    } else {
        i
    }
}

/// First index at or after `i` that holds no whitespace.
pub open spec fn skip_spaces(s: Seq<char>, i: int) -> int
    decreases s.len() - i,
{
    if 0 <= i < s.len() && is_space(s[i]) {
        skip_spaces(s, i + 1)
    } else {
        i
    }
}

/// The string reads as a numeric literal: an optional minus, an integer
/// part without a superfluous leading zero, an optional fraction, an
/// optional exponent with at least one digit, then only whitespace and at
/// most a trailing separator or comment.
pub open spec fn is_number(s: Seq<char>) -> bool {
    let i0: int = if s.len() > 0 && s[0] == '-' {
        1
    } else {
        0
    };
    let j = skip_digits(s, i0);
    if j == i0 {
        false
    } else if s[i0] == '0' && j > i0 + 1 {
        false
    } else {
        let k = if j < s.len() && s[j] == '.' {
            skip_digits(s, j + 1)
        } else {
            j
        };
        let e: int = if k < s.len() && (s[k] == 'e' || s[k] == 'E') {
            let m: int = if k + 1 < s.len() && (s[k + 1] == '+' || s[k + 1] == '-') {
                k + 2
            } else {
                k + 1
            };
            let d = skip_digits(s, m);
            if d == m {
                -1
            } else {
                d
            }
        } else {
            k
        };
        if e < 0 {
            false
        } else {
            let t = skip_spaces(s, e);
            t == s.len() || is_punct_start(s, t)
        }
    }
}

pub fn is_needs_quotes_char(c: char) -> (r: bool)
    ensures
        r == needs_quotes_char(c),
{
    let u = c as u32;
    u < 0x20 || (0x7f <= u && u <= 0x9f) || u == 0xad || (0x600 <= u && u <= 0x604) || u == 0x70f
        || u == 0x17b4 || u == 0x17b5 || (0x200c <= u && u <= 0x200f) || (0x2028 <= u && u
        <= 0x202f) || (0x2060 <= u && u <= 0x206f) || u == 0xfeff || (0xfff0 <= u && u <= 0xffff)
}

pub fn is_needs_escape_char(c: char) -> (r: bool)
    ensures
        r == needs_escape_char(c),
{
    c == '"' || c == '\\' || is_needs_quotes_char(c)
}

pub fn is_needs_escape_ml_char(c: char) -> (r: bool)
    ensures
        r == needs_escape_ml_char(c),
{
    is_needs_quotes_char(c) && c != '\n' && c != '\r'
}

pub fn is_space_char(c: char) -> (r: bool)
    ensures
        r == is_space(c),
{
    let u = c as u32;
    (0x09 <= u && u <= 0x0d) || u == 0x20 || u == 0x85 || u == 0xa0 || u == 0x1680 || (0x2000 <= u
        && u <= 0x200a) || u == 0x2028 || u == 0x2029 || u == 0x202f || u == 0x205f || u == 0x3000
}

pub fn is_digit_char(c: char) -> (r: bool)
    ensures
        r == is_digit(c),
{
    let u = c as u32;
    0x30 <= u && u <= 0x39
}

pub fn contains_needs_quotes_str(s: &str) -> (r: bool)
    ensures
        r == contains_needs_quotes(s@),
{
    let n = s.unicode_len();
    let mut i: usize = 0;
    while i < n
        invariant
            n == s@.len(),
            i <= n,
            forall|j: int| 0 <= j < i ==> !needs_quotes_char(s@[j]),
        decreases n - i,
    {
        if is_needs_quotes_char(s.get_char(i)) {
            assert(needs_quotes_char(s@[i as int]));
            return true;
        }
        i += 1;
    }
    false
}

pub fn contains_needs_escape_str(s: &str) -> (r: bool)
    ensures
        r == contains_needs_escape(s@),
{
    let n = s.unicode_len();
    let mut i: usize = 0;
    while i < n
        invariant
            n == s@.len(),
            i <= n,
            forall|j: int| 0 <= j < i ==> !needs_escape_char(s@[j]),
        decreases n - i,
    {
        if is_needs_escape_char(s.get_char(i)) {
            assert(needs_escape_char(s@[i as int]));
            return true;
        }
        i += 1;
    }
    false
}

pub fn contains_triple_quote_str(s: &str) -> (r: bool)
    ensures
        r == contains_triple_quote(s@),
{
    let n = s.unicode_len();
    if n < 3 {
        assert(forall|i: int| 0 <= i ==> !triple_quote_at(s@, i));
        return false;
    }
    let mut i: usize = 0;
    while i <= n - 3
        invariant
            n == s@.len(),
            3 <= n,
            i <= n - 3 + 1,
            forall|j: int| 0 <= j < i ==> !triple_quote_at(s@, j),
        decreases n - i,
    {
        if s.get_char(i) == '\'' && s.get_char(i + 1) == '\'' && s.get_char(i + 2) == '\'' {
            assert(triple_quote_at(s@, i as int));
            return true;
        }
        i += 1;
    }
    assert(forall|j: int| 0 <= j && triple_quote_at(s@, j) ==> j < i);
    false
}

pub fn needs_escape_ml_str(s: &str) -> (r: bool)
    ensures
        r == needs_escape_ml(s@),
{
    if contains_triple_quote_str(s) {
        return true;
    }
    let n = s.unicode_len();
    let mut i: usize = 0;
    while i < n
        invariant
            n == s@.len(),
            i <= n,
            !contains_triple_quote(s@),
            forall|j: int| 0 <= j < i ==> !needs_escape_ml_char(s@[j]),
        decreases n - i,
    {
        if is_needs_escape_ml_char(s.get_char(i)) {
            assert(needs_escape_ml_char(s@[i as int]));
            return true;
        }
        i += 1;
    }
    false
}

pub fn needs_quotes2_str(s: &str) -> (r: bool)
    ensures
        r == needs_quotes2(s@),
{
    let n = s.unicode_len();
    if n == 0 {
        return false;
    }
    let c0 = s.get_char(0);
    if is_space_char(c0) || c0 == '"' || c0 == '#' || c0 == '{' || c0 == '[' {
        return true;
    }
    if n >= 3 && c0 == '\'' && s.get_char(1) == '\'' && s.get_char(2) == '\'' {
        assert(triple_quote_at(s@, 0));
        return true;
    }
    if n >= 2 && c0 == '/' {
        let c1 = s.get_char(1);
        if c1 == '/' || c1 == '*' {
            return true;
        }
    }
    if is_space_char(s.get_char(n - 1)) {
        return true;
    }
    assert(!triple_quote_at(s@, 0));
    false
}

fn is_punct_start_at(s: &str, i: usize) -> (r: bool)
    requires
        i < s@.len(),
    ensures
        r == is_punct_start(s@, i as int),
{
    let n = s.unicode_len();
    let c = s.get_char(i);
    if c == ',' || c == ']' || c == '}' || c == '#' {
        true
    } else if c == '/' && i + 1 < n {
        let d = s.get_char(i + 1);
        d == '/' || d == '*'
    } else {
        false
    }
}

fn keyword_tail_str(s: &str, i: usize) -> (r: bool)
    requires
        i <= s@.len(),
    ensures
        r == keyword_tail(s@, i as int),
    decreases s@.len() - i,
{
    let n = s.unicode_len();
    if i >= n {
        true
    } else if is_punct_start_at(s, i) {
        true
    } else if is_space_char(s.get_char(i)) {
        keyword_tail_str(s, i + 1)
    } else {
        false
    }
}

pub fn starts_with_keyword_str(s: &str) -> (r: bool)
    ensures
        r == starts_with_keyword(s@),
{
    let n = s.unicode_len();
    if n >= 4 && s.get_char(0) == 't' && s.get_char(1) == 'r' && s.get_char(2) == 'u' && s.get_char(
        3,
    ) == 'e' {
        if keyword_tail_str(s, 4) {
            return true;
        }
    }
    if n >= 5 && s.get_char(0) == 'f' && s.get_char(1) == 'a' && s.get_char(2) == 'l' && s.get_char(
        3,
    ) == 's' && s.get_char(4) == 'e' {
        if keyword_tail_str(s, 5) {
            return true;
        }
    }
    if n >= 4 && s.get_char(0) == 'n' && s.get_char(1) == 'u' && s.get_char(2) == 'l' && s.get_char(
        3,
    ) == 'l' {
        if keyword_tail_str(s, 4) {
            return true;
        }
    }
    false
}

fn skip_digits_str(s: &str, i: usize) -> (j: usize)
    requires
        i <= s@.len(),
    ensures
        j == skip_digits(s@, i as int),
        i <= j <= s@.len(),
    decreases s@.len() - i,
{
    let n = s.unicode_len();
    if i < n && is_digit_char(s.get_char(i)) {
        skip_digits_str(s, i + 1)
    } else {
        i
    }
}

fn skip_spaces_str(s: &str, i: usize) -> (j: usize)
    requires
        i <= s@.len(),
    ensures
        j == skip_spaces(s@, i as int),
        i <= j <= s@.len(),
    decreases s@.len() - i,
{
    let n = s.unicode_len();
    if i < n && is_space_char(s.get_char(i)) {
        skip_spaces_str(s, i + 1)
    } else {
        i
    }
}

pub fn is_number_str(s: &str) -> (r: bool)
    ensures
        r == is_number(s@),
{
    let n = s.unicode_len();
    let i0: usize = if n > 0 && s.get_char(0) == '-' {
        1
    } else {
        0
    };
    let j = skip_digits_str(s, i0);
    if j == i0 {
        return false;
    }
    if s.get_char(i0) == '0' && j > i0 + 1 {
        return false;
    }
    let k: usize = if j < n && s.get_char(j) == '.' {
        skip_digits_str(s, j + 1)
    } else {
        j
    };
    let e: usize = if k < n {
        let ck = s.get_char(k);
        if ck == 'e' || ck == 'E' {
            let m: usize = if k + 1 < n {
                let cm = s.get_char(k + 1);
                if cm == '+' || cm == '-' {
                    k + 2
                } else {
                    k + 1
                }
            } else {
                k + 1
            };
            let d = skip_digits_str(s, m);
            if d == m {
                return false;
            }
            d
        } else {
            k
        }
    } else {
        k
    };
    let t = skip_spaces_str(s, e);
    if t == n {
        true
    } else {
        is_punct_start_at(s, t)
    }
}

} // verus!
