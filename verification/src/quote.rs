//! String encoding: bare, quoted-and-escaped, or multi-line block form.
//!
//! A non-empty string that cannot be confused with punctuation, a comment,
//! a keyword literal or a number is written bare. One that needs quoting
//! but contains no character unsafe in a multi-line block is written
//! between triple quotes, keeping its line breaks literally; anything else
//! is quoted with the fixed escape table.

use vstd::prelude::*;
use vstd::string::StrSliceExecFns;
use vstd::string::StringExecFns;
use crate::classify::contains_needs_escape;
use crate::classify::contains_needs_escape_str;
use crate::classify::contains_needs_quotes;
use crate::classify::contains_needs_quotes_str;
use crate::classify::contains_triple_quote;
use crate::classify::is_number;
use crate::classify::is_number_str;
use crate::classify::is_space;
use crate::classify::needs_escape_ml;
use crate::classify::needs_escape_ml_str;
use crate::classify::needs_escape_char;
use crate::classify::needs_quotes_char;
use crate::classify::needs_quotes2;
use crate::classify::needs_quotes2_str;
use crate::classify::starts_with_keyword;
use crate::classify::starts_with_keyword_str;
use crate::classify::triple_quote_at;
use crate::fmt::FmtView;
use crate::fmt::Formatter;
use crate::fmt::HjsonFormatter;
use crate::fmt::nl_out;
use crate::fmt::nl_st;
use crate::fmt::sv_out;
use crate::fmt::sv_st;

verus! {

/// What one character becomes inside a quoted string.
pub open spec fn escape_char_seq(c: char) -> Seq<char> {
    if c == '"' {
        seq!['\\', '"']
    } else if c == '\\' {
        seq!['\\', '\\']
    } else if c == '\u{8}' {
        seq!['\\', 'b']
    } else if c == '\u{c}' {
        seq!['\\', 'f']
    } else if c == '\n' {
        seq!['\\', 'n']
    } else if c == '\r' {
        seq!['\\', 'r']
    } else if c == '\t' {
        seq!['\\', 't']
    } else {
        seq![c]
    }
}

/// The escape expansion of the characters of `s` from position `i` on.
pub open spec fn escaped_from(s: Seq<char>, i: int) -> Seq<char>
    decreases s.len() - i,
{
    if 0 <= i < s.len() {
        escape_char_seq(s[i]) + escaped_from(s, i + 1)
    } else {
        Seq::empty()
    }
}

/// The quoted-and-escaped form of `s`.
pub open spec fn quoted(s: Seq<char>) -> Seq<char> {
    seq!['"'] + escaped_from(s, 0) + seq!['"']
}

/// Relies on `String::push`: appends exactly the one character.
#[verifier::external_body]
fn push_char(wr: &mut String, c: char)
    ensures
        final (wr)@ == old(wr)@ + seq![c],
{
    wr.push(c);
}

/// Serializes and escapes a string into a quoted string.
pub fn escape_bytes(wr: &mut String, value: &str)
    ensures
        final (wr)@ == old(wr)@ + quoted(value@),
{
    wr.append("\"");
    proof {
        reveal_strlit("\"");
        assert("\""@ =~= seq!['"']);
    }
    let n = value.unicode_len();
    let mut i: usize = 0;
    proof {
        assert(wr@ + escaped_from(value@, 0) =~= old(wr)@ + seq!['"'] + escaped_from(value@, 0));
    }
    while i < n
        invariant
            n == value@.len(),
            i <= n,
            wr@ + escaped_from(value@, i as int) == old(wr)@ + seq!['"'] + escaped_from(value@, 0),
        decreases n - i,
    {
        let ghost r0 = wr@;
        let ghost rest = escaped_from(value@, i as int + 1);
        let c = value.get_char(i);
        escape_one(wr, c);
        proof {
            assert(escaped_from(value@, i as int) == escape_char_seq(value@[i as int]) + rest);
            assert((r0 + escape_char_seq(value@[i as int])) + rest =~= r0 + (escape_char_seq(
                value@[i as int],
            ) + rest));
        }
        i += 1;
    }
    wr.append("\"");
    proof {
        reveal_strlit("\"");
        assert(wr@ =~= old(wr)@ + quoted(value@));
    }
}

/// Appends the escape expansion of one character.
fn escape_one(wr: &mut String, c: char)
    ensures
        final (wr)@ == old(wr)@ + escape_char_seq(c),
{
    if c == '"' {
        wr.append("\\\"");
        proof {
            reveal_strlit("\\\"");
            assert(wr@ =~= old(wr)@ + escape_char_seq(c));
        }
    } else if c == '\\' {
        wr.append("\\\\");
        proof {
            reveal_strlit("\\\\");
            assert(wr@ =~= old(wr)@ + escape_char_seq(c));
        }
    } else if c == '\u{8}' {
        wr.append("\\b");
        proof {
            reveal_strlit("\\b");
            assert(wr@ =~= old(wr)@ + escape_char_seq(c));
        }
    } else if c == '\u{c}' {
        wr.append("\\f");
        proof {
            reveal_strlit("\\f");
            assert(wr@ =~= old(wr)@ + escape_char_seq(c));
        }
    } else if c == '\n' {
        wr.append("\\n");
        proof {
            reveal_strlit("\\n");
            assert(wr@ =~= old(wr)@ + escape_char_seq(c));
        }
    } else if c == '\r' {
        wr.append("\\r");
        proof {
            reveal_strlit("\\r");
            assert(wr@ =~= old(wr)@ + escape_char_seq(c));
        }
    } else if c == '\t' {
        wr.append("\\t");
        proof {
            reveal_strlit("\\t");
            assert(wr@ =~= old(wr)@ + escape_char_seq(c));
        }
    } else {
        push_char(wr, c);
        proof {
            assert(wr@ =~= old(wr)@ + escape_char_seq(c));
        }
    }
}

/// Serializes and escapes a single character as a quoted string.
pub fn escape_char(wr: &mut String, value: char)
    ensures
        final (wr)@ == old(wr)@ + quoted(seq![value]),
{
    wr.append("\"");
    escape_one(wr, value);
    wr.append("\"");
    proof {
        reveal_strlit("\"");
        assert("\""@ =~= seq!['"']);
        assert(escaped_from(seq![value], 0) =~= escape_char_seq(value) + escaped_from(
            seq![value],
            1,
        ));
        assert(escaped_from(seq![value], 0) =~= escape_char_seq(value));
        assert(wr@ =~= old(wr)@ + quoted(seq![value]));
    }
}

/// A character that forces a key into quotes.
pub open spec fn key_char(c: char) -> bool {
    ||| c == ','
    ||| c == '{'
    ||| c == '['
    ||| c == '}'
    ||| c == ']'
    ||| c == ':'
    ||| c == '#'
    ||| is_space(c)
}

/// A comment opener starts at position `i`.
pub open spec fn comment_at(s: Seq<char>, i: int) -> bool {
    &&& 0 <= i
    &&& i + 2 <= s.len()
    &&& s[i] == '/'
    &&& (s[i + 1] == '/' || s[i + 1] == '*')
}

/// A key must be quoted: it is empty, or holds punctuation, whitespace, a
/// comment opener or a triple quote.
pub open spec fn needs_escape_name(s: Seq<char>) -> bool {
    ||| s.len() == 0
    ||| exists|i: int| 0 <= i < s.len() && key_char(s[i])
    ||| exists|i: int| comment_at(s, i)
    ||| contains_triple_quote(s)
}

fn is_key_char(c: char) -> (r: bool)
    ensures
        r == key_char(c),
{
    c == ',' || c == '{' || c == '[' || c == '}' || c == ']' || c == ':' || c == '#'
        || crate::classify::is_space_char(c)
}

fn needs_escape_name_str(s: &str) -> (r: bool)
    ensures
        r == needs_escape_name(s@),
{
    let n = s.unicode_len();
    if n == 0 {
        return true;
    }
    let mut i: usize = 0;
    while i < n
        invariant
            n == s@.len(),
            i <= n,
            forall|j: int| 0 <= j < i ==> !key_char(s@[j]),
            forall|j: int| 0 <= j < i ==> !comment_at(s@, j),
            forall|j: int| 0 <= j < i ==> !triple_quote_at(s@, j),
        decreases n - i,
    {
        let c = s.get_char(i);
        if is_key_char(c) {
            assert(key_char(s@[i as int]));
            return true;
        }
        if c == '/' && i + 1 < n {
            let d = s.get_char(i + 1);
            if d == '/' || d == '*' {
                assert(comment_at(s@, i as int));
                return true;
            }
        }
        if c == '\'' && n - i > 2 {
            if s.get_char(i + 1) == '\'' && s.get_char(i + 2) == '\'' {
                assert(triple_quote_at(s@, i as int));
                return true;
            }
        }
        proof {
            assert(!comment_at(s@, i as int));
            assert(!triple_quote_at(s@, i as int));
        }
        i += 1;
    }
    proof {
        assert(forall|j: int| comment_at(s@, j) ==> 0 <= j < s@.len());
        assert(forall|j: int| 0 <= j && triple_quote_at(s@, j) ==> j < s@.len());
    }
    false
}

/// What a map key is written as: quoted when it must be, bare otherwise.
pub open spec fn key_out(s: Seq<char>) -> Seq<char> {
    if needs_escape_name(s) {
        quoted(s)
    } else {
        s
    }
}

/// Serializes and escapes a string as a map key.
pub fn escape_key(wr: &mut String, value: &str)
    ensures
        final (wr)@ == old(wr)@ + key_out(value@),
{
    if needs_escape_name_str(value) {
        escape_bytes(wr, value);
    } else {
        wr.append(value);
    }
}

/// The position of the line feed that ends the line starting at `i`, or
/// the length of `s` for the last line.
pub open spec fn line_end(s: Seq<char>, i: int) -> int
    decreases s.len() - i,
{
    if 0 <= i < s.len() && s[i] != '\n' {
        line_end(s, i + 1)
    } else {
        i
    }
}

pub proof fn lemma_line_end(s: Seq<char>, i: int)
    requires
        0 <= i <= s.len(),
    ensures
        i <= line_end(s, i) <= s.len(),
        forall|j: int| i <= j < line_end(s, i) ==> s[j] != '\n',
        line_end(s, i) < s.len() ==> s[line_end(s, i)] == '\n',
    decreases s.len() - i,
{
    if i < s.len() && s[i] != '\n' {
        lemma_line_end(s, i + 1);
    }
}

/// The lines of `s` from position `i` on, split on line feeds. Splitting
/// never yields an empty list: a string without a line feed is one line.
pub open spec fn split_lines_from(s: Seq<char>, i: int) -> Seq<Seq<char>>
    decreases s.len() - i,
        when 0 <= i <= s.len()
{
    let e = line_end(s, i);
    proof {
        lemma_line_end(s, i);
    }
    if e < s.len() {
        seq![s.subrange(i, e)] + split_lines_from(s, e + 1)
    } else {
        seq![s.subrange(i, s.len() as int)]
    }
}

pub open spec fn split_lines(s: Seq<char>) -> Seq<Seq<char>> {
    split_lines_from(s, 0)
}

pub proof fn lemma_split_lines_from_len(s: Seq<char>, i: int)
    requires
        0 <= i <= s.len(),
    ensures
        split_lines_from(s, i).len() >= 1,
{
    lemma_line_end(s, i);
}

/// The triple-quote delimiter.
pub open spec fn tq() -> Seq<char> {
    seq!['\'', '\'', '\'']
}

/// The body of a multi-line block from line index `i` on: each line on a
/// fresh line one level deeper, an empty line with no indentation at all.
pub open spec fn ml_lines_out(f: FmtView, lines: Seq<Seq<char>>, i: int) -> Seq<char>
    decreases lines.len() - i,
{
    if 0 <= i < lines.len() {
        nl_out(
            f,
            if lines[i].len() > 0 {
                1int
            } else {
                -999int
            },
        ) + lines[i] + ml_lines_out(f, lines, i + 1)
    } else {
        Seq::empty()
    }
}

/// The multi-line block form of `s`: inline between triple quotes for a
/// single line, otherwise opened on a fresh line one level deeper.
pub open spec fn ml_out(f: FmtView, s: Seq<char>) -> Seq<char> {
    let lines = split_lines(s);
    if lines.len() == 1 {
        sv_out(f) + tq() + lines[0] + tq()
    } else {
        nl_out(f, 1) + tq() + ml_lines_out(f, lines, 0) + nl_out(f, 1) + tq()
    }
}

fn line_end_str(s: &str, i: usize) -> (e: usize)
    requires
        i <= s@.len(),
    ensures
        e == line_end(s@, i as int),
        i <= e <= s@.len(),
    decreases s@.len() - i,
{
    let n = s.unicode_len();
    if i < n && s.get_char(i) != '\n' {
        line_end_str(s, i + 1)
    } else {
        i
    }
}

/// Serializes and escapes a string into a multi-line block.
pub fn ml_str<'a>(wr: &mut String, formatter: &mut HjsonFormatter<'a>, value: &str)
    requires
        old(formatter)@.current_indent < usize::MAX,
    ensures
        final (wr)@ == old(wr)@ + ml_out(old(formatter)@, value@),
        final (formatter)@ == sv_st(old(formatter)@),
{
    let ghost f = formatter@;
    let ghost lines = split_lines(value@);
    let n = value.unicode_len();
    let e0 = line_end_str(value, 0);
    proof {
        lemma_line_end(value@, 0);
    }
    if e0 == n {
        // A single line: the block still avoids escaping backslashes.
        proof {
            assert(lines =~= seq![value@.subrange(0, n as int)]);
            assert(lines[0] =~= value@);
        }
        formatter.start_value(wr);
        wr.append("'''");
        wr.append(value);
        wr.append("'''");
        proof {
            reveal_strlit("'''");
            assert("'''"@ =~= tq());
            assert(wr@ =~= old(wr)@ + ml_out(f, value@));
        }
    } else {
        formatter.newline(wr, 1);
        wr.append("'''");
        proof {
            reveal_strlit("'''");
            assert("'''"@ =~= tq());
            assert(wr@ =~= old(wr)@ + nl_out(f, 1) + tq());
        }
        let ghost head = old(wr)@ + nl_out(f, 1) + tq();
        proof {
            lemma_split_lines_from_len(value@, e0 as int + 1);
            assert(lines == seq![value@.subrange(0, e0 as int)] + split_lines_from(
                value@,
                e0 as int + 1,
            ));
            assert(lines.len() >= 2);
        }
        let mut i: usize = 0;
        let ghost mut li: int = 0;
        loop
            invariant_except_break
                n == value@.len(),
                0 <= i <= n,
                0 <= li < lines.len(),
                lines == split_lines(value@),
                split_lines_from(value@, i as int) =~= lines.subrange(li, lines.len() as int),
                wr@ + ml_lines_out(f, lines, li) == head + ml_lines_out(f, lines, 0),
                formatter@ == nl_st(f),
                formatter@.current_indent < usize::MAX,
            ensures
                wr@ == head + ml_lines_out(f, lines, 0),
                formatter@ == nl_st(f),
                formatter@.current_indent < usize::MAX,
            decreases n - i,
        {
            let ghost r0 = wr@;
            let e = line_end_str(value, i);
            proof {
                lemma_line_end(value@, i as int);
                assert(lines.subrange(li, lines.len() as int)[0] == lines[li]);
                if e < n {
                    assert(lines[li] =~= value@.subrange(i as int, e as int));
                } else {
                    assert(lines[li] =~= value@.subrange(i as int, n as int));
                }
            }
            let line = value.substring_char(i, e);
            if e > i {
                formatter.newline(wr, 1);
            } else {
                formatter.newline(wr, -999);
            }
            wr.append(line);
            proof {
                let add: int = if lines[li].len() > 0 {
                    1int
                } else {
                    -999int
                };
                assert(line@ == lines[li]);
                assert(ml_lines_out(f, lines, li) == nl_out(f, add) + lines[li] + ml_lines_out(
                    f,
                    lines,
                    li + 1,
                ));
                assert(nl_out(formatter@, add) == nl_out(f, add));
                assert(wr@ =~= r0 + nl_out(f, add) + lines[li]);
                assert(wr@ + ml_lines_out(f, lines, li + 1) =~= r0 + ml_lines_out(f, lines, li));
            }
            if e == n {
                proof {
                    assert(split_lines_from(value@, i as int) =~= seq![lines[li]]);
                    assert(lines.subrange(li, lines.len() as int).len() == 1);
                    assert(li == lines.len() - 1);
                    assert(ml_lines_out(f, lines, li + 1) =~= Seq::<char>::empty());
                    assert(wr@ =~= head + ml_lines_out(f, lines, 0));
                }
                break ;
            }
            let ghost start = i as int;
            i = e + 1;
            proof {
                let tail = lines.subrange(li, lines.len() as int);
                assert(split_lines_from(value@, start) == seq![value@.subrange(start, e as int)]
                    + split_lines_from(value@, e as int + 1));
                assert(split_lines_from(value@, e as int + 1) =~= tail.drop_first());
                assert(tail.drop_first() =~= lines.subrange(li + 1, lines.len() as int));
                li = li + 1;
            }
        }
        formatter.newline(wr, 1);
        wr.append("'''");
        proof {
            reveal_strlit("'''");
            assert("'''"@ =~= tq());
            assert(lines.len() > 1);
            assert(wr@ =~= old(wr)@ + ml_out(f, value@));
        }
    }
}

/// What a string value is written as, given the formatter state: bare,
/// quoted, or as a multi-line block.
pub open spec fn quote_out(f: FmtView, s: Seq<char>) -> Seq<char> {
    if s.len() == 0 {
        sv_out(f) + quoted(s)
    } else if is_number(s) || contains_needs_quotes(s) || needs_quotes2(s) || starts_with_keyword(
        s,
    ) {
        if contains_needs_escape(s) && !needs_escape_ml(s) {
            ml_out(f, s)
        } else {
            sv_out(f) + quoted(s)
        }
    } else {
        sv_out(f) + s
    }
}

/// Serializes a string value, choosing bare, quoted or multi-line block
/// form as the grammar demands.
pub fn quote_str<'a>(wr: &mut String, formatter: &mut HjsonFormatter<'a>, value: &str)
    requires
        old(formatter)@.current_indent < usize::MAX,
    ensures
        final (wr)@ == old(wr)@ + quote_out(old(formatter)@, value@),
        final (formatter)@ == sv_st(old(formatter)@),
{
    let ghost f = formatter@;
    let n = value.unicode_len();
    if n == 0 {
        formatter.start_value(wr);
        escape_bytes(wr, value);
        proof {
            assert(wr@ =~= old(wr)@ + quote_out(f, value@));
        }
        return ;
    }
    // The string must not read as a number, a keyword or punctuation if it
    // is to stand without quotes.
    let is_num = is_number_str(value);
    if is_num || contains_needs_quotes_str(value) || needs_quotes2_str(value)
        || starts_with_keyword_str(value) {
        // Prefer the multi-line block over backslash escapes where the
        // content allows it.
        if contains_needs_escape_str(value) && !needs_escape_ml_str(value) {
            ml_str(wr, formatter, value);
        } else {
            formatter.start_value(wr);
            escape_bytes(wr, value);
            proof {
                assert(wr@ =~= old(wr)@ + quote_out(f, value@));
            }
        }
    } else {
        // Without quotes.
        formatter.start_value(wr);
        wr.append(value);
        proof {
            assert(wr@ =~= old(wr)@ + quote_out(f, value@));
        }
    }
}

/// The character an escape code stands for: the inverse of the escape
/// table.
pub open spec fn unescape_char(c: char) -> char {
    if c == 'b' {
        '\u{8}'
    } else if c == 'f' {
        '\u{c}'
    } else if c == 'n' {
        '\n'
    } else if c == 'r' {
        '\r'
    } else if c == 't' {
        '\t'
    } else {
        c
    }
}

/// Reverses the escape table over a whole escaped text.
pub open spec fn unescape(s: Seq<char>) -> Seq<char>
    decreases s.len(),
{
    if s.len() == 0 {
        Seq::empty()
    } else if s[0] == '\\' && s.len() >= 2 {
        seq![unescape_char(s[1])] + unescape(s.subrange(2, s.len() as int))
    } else {
        seq![s[0]] + unescape(s.subrange(1, s.len() as int))
    }
}

proof fn lemma_unescape_escaped_from(s: Seq<char>, i: int)
    requires
        0 <= i <= s.len(),
    ensures
        unescape(escaped_from(s, i)) == s.subrange(i, s.len() as int),
    decreases s.len() - i,
{
    if i < s.len() {
        lemma_unescape_escaped_from(s, i + 1);
        let e = escaped_from(s, i);
        let ecs = escape_char_seq(s[i]);
        let rest = escaped_from(s, i + 1);
        assert(e == ecs + rest);
        if ecs.len() == 2 {
            assert(e[0] == '\\');
            assert(e.subrange(2, e.len() as int) =~= rest);
            assert(unescape_char(e[1]) == s[i]);
            assert(unescape(e) == seq![s[i]] + s.subrange(i + 1, s.len() as int));
            assert(seq![s[i]] + s.subrange(i + 1, s.len() as int) =~= s.subrange(
                i,
                s.len() as int,
            ));
        } else {
            assert(ecs =~= seq![s[i]]);
            assert(s[i] != '\\');
            assert(e[0] == s[i]);
            assert(e.subrange(1, e.len() as int) =~= rest);
            assert(unescape(e) == seq![s[i]] + s.subrange(i + 1, s.len() as int));
            assert(seq![s[i]] + s.subrange(i + 1, s.len() as int) =~= s.subrange(
                i,
                s.len() as int,
            ));
        }
    } else {
        assert(s.subrange(i, s.len() as int) =~= Seq::<char>::empty());
    }
}

/// Escaping round-trip: reversing the documented escape table on the
/// escaped text yields the original string.
pub proof fn lemma_escape_round_trip(s: Seq<char>)
    ensures
        unescape(escaped_from(s, 0)) == s,
{
    lemma_unescape_escaped_from(s, 0);
    assert(s.subrange(0, s.len() as int) =~= s);
}

/// The lines of a split joined back with line feeds.
pub open spec fn join_lines(lines: Seq<Seq<char>>) -> Seq<char>
    decreases lines.len(),
{
    if lines.len() == 0 {
        Seq::empty()
    } else if lines.len() == 1 {
        lines[0]
    } else {
        lines[0] + seq!['\n'] + join_lines(lines.drop_first())
    }
}

proof fn lemma_join_split_from(s: Seq<char>, i: int)
    requires
        0 <= i <= s.len(),
    ensures
        join_lines(split_lines_from(s, i)) == s.subrange(i, s.len() as int),
    decreases s.len() - i,
{
    lemma_line_end(s, i);
    let e = line_end(s, i);
    if e < s.len() {
        lemma_join_split_from(s, e + 1);
        lemma_split_lines_from_len(s, e + 1);
        let lines = split_lines_from(s, i);
        assert(lines == seq![s.subrange(i, e)] + split_lines_from(s, e + 1));
        assert(lines.drop_first() =~= split_lines_from(s, e + 1));
        assert(lines[0] == s.subrange(i, e));
        assert(join_lines(lines) == s.subrange(i, e) + seq!['\n'] + s.subrange(
            e + 1,
            s.len() as int,
        ));
        assert(s.subrange(i, e) + seq!['\n'] + s.subrange(e + 1, s.len() as int) =~= s.subrange(
            i,
            s.len() as int,
        ));
    } else {
        assert(split_lines_from(s, i) =~= seq![s.subrange(i, s.len() as int)]);
    }
}

/// Splitting a string on line feeds and joining the lines back with line
/// feeds is the identity.
pub proof fn lemma_split_lines_join(s: Seq<char>)
    ensures
        join_lines(split_lines(s)) == s,
{
    lemma_join_split_from(s, 0);
    assert(s.subrange(0, s.len() as int) =~= s);
}

/// A string holding a line feed and nothing unsafe in a multi-line block
/// is written as a multi-line block of at least two lines, and the lines
/// of the block joined on line feeds give back the string exactly.
pub proof fn lemma_multiline_block(f: FmtView, s: Seq<char>)
    requires
        exists|i: int| 0 <= i < s.len() && s[i] == '\n',
        !needs_escape_ml(s),
    ensures
        quote_out(f, s) == ml_out(f, s),
        split_lines(s).len() >= 2,
        join_lines(split_lines(s)) == s,
{
    let k = choose|i: int| 0 <= i < s.len() && s[i] == '\n';
    assert(needs_quotes_char(s[k]));
    assert(contains_needs_quotes(s));
    assert(needs_escape_char(s[k]));
    assert(contains_needs_escape(s));
    lemma_line_end(s, 0);
    let e = line_end(s, 0);
    assert(e <= k) by {
        if e > k {
            assert(s[k] != '\n');
        }
    }
    lemma_split_lines_from_len(s, e + 1);
    assert(split_lines(s) == seq![s.subrange(0, e)] + split_lines_from(s, e + 1));
    lemma_split_lines_join(s);
}

/// A non-empty string with no quote-forcing character, no structural lead
/// character, no leading or trailing whitespace, not reading as a number
/// and not starting with a keyword literal is written bare: the output is
/// the string itself, with no quotes added.
pub proof fn lemma_clean_string_bare(f: FmtView, s: Seq<char>)
    requires
        s.len() > 0,
        !is_number(s),
        !contains_needs_quotes(s),
        !needs_quotes2(s),
        !starts_with_keyword(s),
    ensures
        quote_out(f, s) == sv_out(f) + s,
{
}

/// A string that reads as one of the keyword literals or as a number is
/// never written bare: it is quoted, or becomes a multi-line block.
pub proof fn lemma_ambiguous_never_bare(f: FmtView, s: Seq<char>)
    requires
        ({
            ||| is_number(s)
            ||| s == seq!['t', 'r', 'u', 'e']
            ||| s == seq!['f', 'a', 'l', 's', 'e']
            ||| s == seq!['n', 'u', 'l', 'l']
        }),
    ensures
        quote_out(f, s) == sv_out(f) + quoted(s) || quote_out(f, s) == ml_out(f, s),
{
    if s == seq!['t', 'r', 'u', 'e'] {
        assert(crate::classify::keyword_tail(s, 4));
        assert(crate::classify::starts_with_true(s));
    } else if s == seq!['f', 'a', 'l', 's', 'e'] {
        assert(crate::classify::keyword_tail(s, 5));
        assert(crate::classify::starts_with_false(s));
    } else if s == seq!['n', 'u', 'l', 'l'] {
        assert(crate::classify::keyword_tail(s, 4));
        assert(crate::classify::starts_with_null(s));
    } else {
        assert(is_number(s));
        assert(s.len() > 0) by {
            if s.len() == 0 {
                assert(crate::classify::skip_digits(s, 0) == 0);
            }
        }
    }
}

} // verus!
