//! The value-visitor dispatcher: drives one depth-first traversal of a
//! value tree and writes the document through the formatter.

use vstd::prelude::*;
use vstd::string::StrSliceExecFns;
use vstd::string::StringExecFns;
use crate::fmt::FmtView;
use crate::fmt::Formatter;
use crate::fmt::HjsonFormatter;
use crate::fmt::close_out;
use crate::fmt::close_st;
use crate::fmt::colon_out;
use crate::fmt::colon_st;
use crate::fmt::comma_out;
use crate::fmt::open_out;
use crate::fmt::open_st;
use crate::fmt::sv_out;
use crate::fmt::sv_st;
use crate::num::dec_rep;
use crate::num::float_out;
use crate::num::int_rep;
use crate::quote::key_out;
use crate::quote::quote_out;
use crate::quote::quoted;
use crate::value::Error;
use crate::value::FloatText;
use crate::value::Value;
use crate::value::depth;
use crate::value::depth_entries;
use crate::value::depth_list;
use crate::value::keys_ok;
use crate::value::lemma_depth_entries_bound;
use crate::value::lemma_depth_list_bound;

verus! {

/// What a float leaf writes: `null` when not finite, else the chosen of
/// its two renderings.
pub open spec fn float_text_out(t: FloatText) -> Seq<char> {
    match t {
        FloatText::NonFinite => seq!['n', 'u', 'l', 'l'],
        FloatText::Finite { plain, exponential } => float_out(plain@, exponential@),
    }
}

/// The document a value encodes to, and the formatter state afterwards,
/// starting from formatter state `f`. Only meaningful when every map key
/// in the value is a string.
pub open spec fn enc(v: Value, f: FmtView) -> (Seq<char>, FmtView)
    decreases v, 0int, 0int,
{
    match v {
        Value::Bool(b) => (
            sv_out(f) + if b {
                seq!['t', 'r', 'u', 'e']
            } else {
                seq!['f', 'a', 'l', 's', 'e']
            },
            sv_st(f),
        ),
        Value::Int(n) => (sv_out(f) + int_rep(n as int), sv_st(f)),
        Value::Uint(n) => (sv_out(f) + dec_rep(n as nat), sv_st(f)),
        Value::Float(t) => (sv_out(f) + float_text_out(t), sv_st(f)),
        Value::Char(c) => (sv_out(f) + quoted(seq![c]), sv_st(f)),
        Value::Str(s) => (quote_out(f, s@), sv_st(f)),
        Value::Null => (sv_out(f) + seq!['n', 'u', 'l', 'l'], sv_st(f)),
        Value::Array(elems) => enc_seq(elems@, f),
        Value::Object(entries) => enc_map(entries@, f),
        Value::UnitVariant(name) => {
            let f1 = open_st(f, '{');
            let f2 = colon_st(f1);
            (
                open_out(f, '{') + comma_out(f1) + key_out(name@) + colon_out(f1) + seq!['[', ']']
                    + close_out(f2, '}'),
                close_st(f2, '}'),
            )
        },
        Value::NewtypeVariant(name, inner) => {
            let f1 = open_st(f, '{');
            let f2 = colon_st(f1);
            let (o, f3) = enc(*inner, f2);
            (
                open_out(f, '{') + comma_out(f1) + key_out(name@) + colon_out(f1) + o + close_out(
                    f3,
                    '}',
                ),
                close_st(f3, '}'),
            )
        },
        Value::TupleVariant(name, elems) => {
            let f1 = open_st(f, '{');
            let f2 = colon_st(f1);
            let (o, f3) = enc_seq(elems@, f2);
            (
                open_out(f, '{') + comma_out(f1) + key_out(name@) + colon_out(f1) + o + close_out(
                    f3,
                    '}',
                ),
                close_st(f3, '}'),
            )
        },
        Value::StructVariant(name, entries) => {
            let f1 = open_st(f, '{');
            let f2 = colon_st(f1);
            let (o, f3) = enc_map(entries@, f2);
            (
                open_out(f, '{') + comma_out(f1) + key_out(name@) + colon_out(f1) + o + close_out(
                    f3,
                    '}',
                ),
                close_st(f3, '}'),
            )
        },
    }
}

/// A sequence value: a bare `[]` when empty, else the elements between
/// brackets, each on its own line.
pub open spec fn enc_seq(vs: Seq<Value>, f: FmtView) -> (Seq<char>, FmtView)
    decreases vs, vs.len() + 1, 0int,
{
    if vs.len() == 0 {
        (sv_out(f) + seq!['[', ']'], sv_st(f))
    } else {
        let f1 = open_st(f, '[');
        let (o, f2) = enc_elems(vs, 0, f1);
        (open_out(f, '[') + o + close_out(f2, ']'), close_st(f2, ']'))
    }
}

pub open spec fn enc_elems(vs: Seq<Value>, i: int, f: FmtView) -> (Seq<char>, FmtView)
    decreases vs, vs.len() - i, 1int,
{
    if 0 <= i < vs.len() {
        let (o, f1) = enc(vs[i], f);
        let (rest, f2) = enc_elems(vs, i + 1, f1);
        (comma_out(f) + o + rest, f2)
    } else {
        (Seq::empty(), f)
    }
}

/// A map value: a bare `{}` when empty, else the entries between braces,
/// each on its own line as `key: value`.
pub open spec fn enc_map(ps: Seq<(Value, Value)>, f: FmtView) -> (Seq<char>, FmtView)
    decreases ps, ps.len() + 1, 0int,
{
    if ps.len() == 0 {
        (sv_out(f) + seq!['{', '}'], sv_st(f))
    } else {
        let f1 = open_st(f, '{');
        let (o, f2) = enc_entries(ps, 0, f1);
        (open_out(f, '{') + o + close_out(f2, '}'), close_st(f2, '}'))
    }
}

pub open spec fn enc_entries(ps: Seq<(Value, Value)>, i: int, f: FmtView) -> (Seq<char>, FmtView)
    decreases ps, ps.len() - i, 1int,
{
    if 0 <= i < ps.len() {
        let key_s = match ps[i].0 {
            Value::Str(s) => s@,
            _ => Seq::empty(),
        };
        let f1 = colon_st(f);
        let (o, f2) = enc(ps[i].1, f1);
        let (rest, f3) = enc_entries(ps, i + 1, f2);
        (comma_out(f) + key_out(key_s) + colon_out(f) + o + rest, f3)
    } else {
        (Seq::empty(), f)
    }
}

/// Encoding a value leaves the nesting depth, the container stack and the
/// configuration exactly as they were: every `open` is balanced by one
/// `close` at the same depth.
pub proof fn lemma_enc_balanced(v: Value, f: FmtView)
    requires
        f.wf(),
    ensures
        enc(v, f).1.wf(),
        enc(v, f).1.current_indent == f.current_indent,
        enc(v, f).1.stack == f.stack,
        enc(v, f).1.indent == f.indent,
        enc(v, f).1.braces_same_line == f.braces_same_line,
    decreases v, 0int, 0int,
{
    match v {
        Value::Array(elems) => {
            lemma_enc_seq_balanced(elems@, f);
        },
        Value::Object(entries) => {
            lemma_enc_map_balanced(entries@, f);
        },
        Value::UnitVariant(name) => {
            assert(enc(v, f).1.stack =~= f.stack);
        },
        Value::NewtypeVariant(name, inner) => {
            let f2 = colon_st(open_st(f, '{'));
            lemma_enc_balanced(*inner, f2);
            assert(enc(v, f).1.stack =~= f.stack);
        },
        Value::TupleVariant(name, elems) => {
            let f2 = colon_st(open_st(f, '{'));
            lemma_enc_seq_balanced(elems@, f2);
            assert(enc(v, f).1.stack =~= f.stack);
        },
        Value::StructVariant(name, entries) => {
            let f2 = colon_st(open_st(f, '{'));
            lemma_enc_map_balanced(entries@, f2);
            assert(enc(v, f).1.stack =~= f.stack);
        },
        _ => {},
    }
}

pub proof fn lemma_enc_seq_balanced(vs: Seq<Value>, f: FmtView)
    requires
        f.wf(),
    ensures
        enc_seq(vs, f).1.wf(),
        enc_seq(vs, f).1.current_indent == f.current_indent,
        enc_seq(vs, f).1.stack == f.stack,
        enc_seq(vs, f).1.indent == f.indent,
        enc_seq(vs, f).1.braces_same_line == f.braces_same_line,
    decreases vs, vs.len() + 1, 0int,
{
    if vs.len() == 0 {
    } else {
        let f1 = open_st(f, '[');
        lemma_enc_elems_balanced(vs, 0, f1);
        assert(enc_seq(vs, f).1.stack =~= f.stack);
    }
}

pub proof fn lemma_enc_elems_balanced(vs: Seq<Value>, i: int, f: FmtView)
    requires
        f.wf(),
    ensures
        enc_elems(vs, i, f).1.wf(),
        enc_elems(vs, i, f).1.current_indent == f.current_indent,
        enc_elems(vs, i, f).1.stack == f.stack,
        enc_elems(vs, i, f).1.indent == f.indent,
        enc_elems(vs, i, f).1.braces_same_line == f.braces_same_line,
    decreases vs, vs.len() - i, 1int,
{
    if 0 <= i < vs.len() {
        lemma_enc_balanced(vs[i], f);
        lemma_enc_elems_balanced(vs, i + 1, enc(vs[i], f).1);
    }
}

pub proof fn lemma_enc_map_balanced(ps: Seq<(Value, Value)>, f: FmtView)
    requires
        f.wf(),
    ensures
        enc_map(ps, f).1.wf(),
        enc_map(ps, f).1.current_indent == f.current_indent,
        enc_map(ps, f).1.stack == f.stack,
        enc_map(ps, f).1.indent == f.indent,
        enc_map(ps, f).1.braces_same_line == f.braces_same_line,
    decreases ps, ps.len() + 1, 0int,
{
    if ps.len() == 0 {
    } else {
        let f1 = open_st(f, '{');
        lemma_enc_entries_balanced(ps, 0, f1);
        assert(enc_map(ps, f).1.stack =~= f.stack);
    }
}

pub proof fn lemma_enc_entries_balanced(ps: Seq<(Value, Value)>, i: int, f: FmtView)
    requires
        f.wf(),
    ensures
        enc_entries(ps, i, f).1.wf(),
        enc_entries(ps, i, f).1.current_indent == f.current_indent,
        enc_entries(ps, i, f).1.stack == f.stack,
        enc_entries(ps, i, f).1.indent == f.indent,
        enc_entries(ps, i, f).1.braces_same_line == f.braces_same_line,
    decreases ps, ps.len() - i, 1int,
{
    if 0 <= i < ps.len() {
        let f1 = colon_st(f);
        lemma_enc_balanced(ps[i].1, f1);
        lemma_enc_entries_balanced(ps, i + 1, enc(ps[i].1, f1).1);
    }
}

/// An empty sequence or map is a bare bracket pair, with no newline and no
/// indentation, at any nesting depth.
pub proof fn lemma_empty_containers(f: FmtView)
    ensures
        enc_seq(Seq::<Value>::empty(), f).0 == sv_out(f) + seq!['[', ']'],
        enc_map(Seq::<(Value, Value)>::empty(), f).0 == sv_out(f) + seq!['{', '}'],
{
}

/// The formatter state a fresh default serializer starts from: depth zero,
/// two-space indentation, braces on their own line.
pub open spec fn init_fmt() -> FmtView {
    FmtView {
        current_indent: 0,
        current_is_array: false,
        stack: Seq::<bool>::empty(),
        at_colon: false,
        indent: seq![' ', ' '],
        braces_same_line: false,
    }
}

/// The document a value encodes to with the default formatter.
pub open spec fn encoded(v: Value) -> Seq<char> {
    enc(v, init_fmt()).0
}

/// Model of a serializer: the text written so far and the formatter state.
pub struct SerView {
    pub out: Seq<char>,
    pub fmt: FmtView,
}

/// A structure for serializing values into the notation, accumulating the
/// document in a growable text buffer.
pub struct Serializer<'a> {
    writer: String,
    formatter: HjsonFormatter<'a>,
    /// `first` is set while no element of the currently open container has
    /// been written yet.
    first: bool,
}

impl<'a> View for Serializer<'a> {
    type V = SerView;

    closed spec fn view(&self) -> SerView {
        SerView { out: self.writer@, fmt: self.formatter@ }
    }
}

impl<'a> Serializer<'a> {
    /// Creates a new serializer with the default formatter.
    pub fn new(writer: String) -> (s: Self)
        ensures
            s@.out == writer@,
            s@.fmt == init_fmt(),
    {
        Serializer::with_formatter(writer, HjsonFormatter::new())
    }

    /// Creates a new serializer whose output will be appended to the
    /// writer specified.
    pub fn with_formatter(writer: String, formatter: HjsonFormatter<'a>) -> (s: Self)
        ensures
            s@.out == writer@,
            s@.fmt == formatter@,
    {
        Serializer { writer, formatter, first: false }
    }

    /// Unwrap the accumulated text from the serializer.
    pub fn into_inner(self) -> (w: String)
        ensures
            w@ == self@.out,
    {
        self.writer
    }

    /// Writes `true` or `false`.
    pub fn serialize_bool(&mut self, value: bool)
        ensures
            final (self)@.out == old(self)@.out + enc(Value::Bool(value), old(self)@.fmt).0,
            final (self)@.fmt == sv_st(old(self)@.fmt),
    {
        self.formatter.start_value(&mut self.writer);
        if value {
            self.writer.append("true");
            proof {
                reveal_strlit("true");
                assert("true"@ =~= seq!['t', 'r', 'u', 'e']);
                assert(self@.out =~= old(self)@.out + enc(Value::Bool(value), old(self)@.fmt).0);
            }
        } else {
            self.writer.append("false");
            proof {
                reveal_strlit("false");
                assert("false"@ =~= seq!['f', 'a', 'l', 's', 'e']);
                assert(self@.out =~= old(self)@.out + enc(Value::Bool(value), old(self)@.fmt).0);
            }
        }
    }

    /// Writes a signed integer in decimal.
    pub fn serialize_i64(&mut self, value: i64)
        ensures
            final (self)@.out == old(self)@.out + enc(Value::Int(value), old(self)@.fmt).0,
            final (self)@.fmt == sv_st(old(self)@.fmt),
    {
        self.formatter.start_value(&mut self.writer);
        let s = crate::num::fmt_i64(value);
        self.writer.append(s.as_str());
        proof {
            assert(self@.out =~= old(self)@.out + enc(Value::Int(value), old(self)@.fmt).0);
        }
    }

    /// Writes an unsigned integer in decimal.
    pub fn serialize_u64(&mut self, value: u64)
        ensures
            final (self)@.out == old(self)@.out + enc(Value::Uint(value), old(self)@.fmt).0,
            final (self)@.fmt == sv_st(old(self)@.fmt),
    {
        self.formatter.start_value(&mut self.writer);
        let s = crate::num::fmt_u64(value);
        self.writer.append(s.as_str());
        proof {
            assert(self@.out =~= old(self)@.out + enc(Value::Uint(value), old(self)@.fmt).0);
        }
    }

    /// Writes a float from its renderings: `null` when not finite, else
    /// the shorter of its plain and exponential forms.
    pub fn serialize_float(&mut self, value: &FloatText)
        ensures
            final (self)@.out == old(self)@.out + enc(Value::Float(*value), old(self)@.fmt).0,
            final (self)@.fmt == sv_st(old(self)@.fmt),
    {
        self.formatter.start_value(&mut self.writer);
        match value {
            FloatText::NonFinite => {
                self.writer.append("null");
                proof {
                    reveal_strlit("null");
                    assert("null"@ =~= seq!['n', 'u', 'l', 'l']);
                    assert(self@.out =~= old(self)@.out + enc(
                        Value::Float(*value),
                        old(self)@.fmt,
                    ).0);
                }
            },
            FloatText::Finite { plain, exponential } => {
                let s = crate::num::fmt_float(plain.as_str(), exponential.as_str());
                self.writer.append(s.as_str());
                proof {
                    assert(self@.out =~= old(self)@.out + enc(
                        Value::Float(*value),
                        old(self)@.fmt,
                    ).0);
                }
            },
        }
    }

    /// Writes a character as a quoted, escaped single-character string.
    pub fn serialize_char(&mut self, value: char)
        ensures
            final (self)@.out == old(self)@.out + enc(Value::Char(value), old(self)@.fmt).0,
            final (self)@.fmt == sv_st(old(self)@.fmt),
    {
        self.formatter.start_value(&mut self.writer);
        crate::quote::escape_char(&mut self.writer, value);
        proof {
            assert(self@.out =~= old(self)@.out + enc(Value::Char(value), old(self)@.fmt).0);
        }
    }

    /// Writes a string value bare, quoted or as a multi-line block.
    pub fn serialize_str(&mut self, value: &str)
        requires
            old(self)@.fmt.current_indent < usize::MAX,
        ensures
            final (self)@.out == old(self)@.out + quote_out(old(self)@.fmt, value@),
            final (self)@.fmt == sv_st(old(self)@.fmt),
    {
        crate::quote::quote_str(&mut self.writer, &mut self.formatter, value);
    }

    /// Writes the literal `null`.
    pub fn serialize_unit(&mut self)
        ensures
            final (self)@.out == old(self)@.out + enc(Value::Null, old(self)@.fmt).0,
            final (self)@.fmt == sv_st(old(self)@.fmt),
    {
        self.formatter.start_value(&mut self.writer);
        self.writer.append("null");
        proof {
            reveal_strlit("null");
            assert("null"@ =~= seq!['n', 'u', 'l', 'l']);
            assert(self@.out =~= old(self)@.out + enc(Value::Null, old(self)@.fmt).0);
        }
    }

    /// Opens the one-entry map that wraps a variant: brace, separator,
    /// escaped variant name, colon.
    fn open_variant(&mut self, variant: &str)
        requires
            old(self)@.fmt.current_indent < usize::MAX,
        ensures
            final (self)@.out == old(self)@.out + open_out(old(self)@.fmt, '{') + comma_out(
                open_st(old(self)@.fmt, '{'),
            ) + key_out(variant@) + colon_out(open_st(old(self)@.fmt, '{')),
            final (self)@.fmt == colon_st(open_st(old(self)@.fmt, '{')),
    {
        self.formatter.open(&mut self.writer, 0x7bu8);
        self.formatter.comma(&mut self.writer, true);
        crate::quote::escape_key(&mut self.writer, variant);
        self.formatter.colon(&mut self.writer);
        proof {
            assert(self@.out =~= old(self)@.out + open_out(old(self)@.fmt, '{') + comma_out(
                open_st(old(self)@.fmt, '{'),
            ) + key_out(variant@) + colon_out(open_st(old(self)@.fmt, '{')));
        }
    }

    /// Closes the map that wraps a variant.
    fn close_variant(&mut self)
        requires
            old(self)@.fmt.wf(),
            old(self)@.fmt.current_indent > 0,
        ensures
            final (self)@.out == old(self)@.out + close_out(old(self)@.fmt, '}'),
            final (self)@.fmt == close_st(old(self)@.fmt, '}'),
    {
        self.formatter.close(&mut self.writer, 0x7du8);
    }

    /// Encodes one value of any kind, dispatching on its tag. Fails if and
    /// only if the value holds a map entry whose key is not a string.
    #[verifier::rlimit(100)]
    pub fn serialize_value(&mut self, value: &Value) -> (r: Result<(), Error>)
        requires
            old(self)@.fmt.wf(),
            old(self)@.fmt.current_indent + depth(*value) <= usize::MAX,
        ensures
            final (self)@.fmt.wf(),
            r is Ok <==> keys_ok(*value),
            keys_ok(*value) ==> final (self)@.out == old(self)@.out + enc(
                *value,
                old(self)@.fmt,
            ).0 && final (self)@.fmt == enc(*value, old(self)@.fmt).1,
            r is Err ==> r == Err::<(), Error>(Error::KeyMustBeAString),
        decreases *value, 0int, 0int,
    {
        match value {
            Value::Bool(b) => {
                self.serialize_bool(*b);
                Ok(())
            },
            Value::Int(n) => {
                self.serialize_i64(*n);
                Ok(())
            },
            Value::Uint(n) => {
                self.serialize_u64(*n);
                Ok(())
            },
            Value::Float(t) => {
                self.serialize_float(t);
                Ok(())
            },
            Value::Char(c) => {
                self.serialize_char(*c);
                Ok(())
            },
            Value::Str(s) => {
                self.serialize_str(s.as_str());
                Ok(())
            },
            Value::Null => {
                self.serialize_unit();
                Ok(())
            },
            Value::Array(elems) => self.serialize_seq(elems),
            Value::Object(entries) => self.serialize_map(entries),
            Value::UnitVariant(name) => {
                let ghost f0 = self@.fmt;
                self.open_variant(name.as_str());
                self.writer.append("[]");
                self.close_variant();
                proof {
                    reveal_strlit("[]");
                    assert("[]"@ =~= seq!['[', ']']);
                    assert(self@.fmt.stack =~= f0.stack);
                    assert(self@.out =~= old(self)@.out + enc(*value, f0).0);
                }
                Ok(())
            },
            Value::NewtypeVariant(name, inner) => {
                let ghost f0 = self@.fmt;
                self.open_variant(name.as_str());
                let r = self.serialize_value(inner);
                if r.is_err() {
                    return r;
                }
                proof {
                    lemma_enc_balanced(**inner, colon_st(open_st(f0, '{')));
                }
                self.close_variant();
                proof {
                    assert(self@.fmt.stack =~= f0.stack);
                    assert(self@.out =~= old(self)@.out + enc(*value, f0).0);
                }
                Ok(())
            },
            Value::TupleVariant(name, elems) => {
                let ghost f0 = self@.fmt;
                self.open_variant(name.as_str());
                let r = self.serialize_seq(elems);
                if r.is_err() {
                    return r;
                }
                proof {
                    lemma_enc_seq_balanced(elems@, colon_st(open_st(f0, '{')));
                }
                self.close_variant();
                proof {
                    assert(self@.fmt.stack =~= f0.stack);
                    assert(self@.out =~= old(self)@.out + enc(*value, f0).0);
                }
                Ok(())
            },
            Value::StructVariant(name, entries) => {
                let ghost f0 = self@.fmt;
                self.open_variant(name.as_str());
                let r = self.serialize_map(entries);
                if r.is_err() {
                    return r;
                }
                proof {
                    lemma_enc_map_balanced(entries@, colon_st(open_st(f0, '{')));
                }
                self.close_variant();
                proof {
                    assert(self@.fmt.stack =~= f0.stack);
                    assert(self@.out =~= old(self)@.out + enc(*value, f0).0);
                }
                Ok(())
            },
        }
    }

    /// Encodes a sequence: `[]` when empty, else each element on its own
    /// line between brackets.
    pub fn serialize_seq(&mut self, elems: &Vec<Value>) -> (r: Result<(), Error>)
        requires
            old(self)@.fmt.wf(),
            old(self)@.fmt.current_indent + 2 + depth_list(elems@, 0) <= usize::MAX,
        ensures
            final (self)@.fmt.wf(),
            r is Ok <==> (forall|i: int| 0 <= i < elems@.len() ==> keys_ok(#[trigger] elems@[i])),
            (forall|i: int| 0 <= i < elems@.len() ==> keys_ok(#[trigger] elems@[i])) ==> final (
                self)@.out == old(self)@.out + enc_seq(elems@, old(self)@.fmt).0 && final (
                self)@.fmt == enc_seq(elems@, old(self)@.fmt).1,
            r is Err ==> r == Err::<(), Error>(Error::KeyMustBeAString),
        decreases *elems, elems@.len() + 1, 0int,
    {
        let ghost f0 = self@.fmt;
        if elems.len() == 0 {
            self.formatter.start_value(&mut self.writer);
            self.writer.append("[]");
            proof {
                reveal_strlit("[]");
                assert("[]"@ =~= seq!['[', ']']);
                assert(self@.out =~= old(self)@.out + enc_seq(elems@, f0).0);
            }
            return Ok(());
        }
        self.formatter.open(&mut self.writer, 0x5bu8);
        self.first = true;
        let ghost f1 = open_st(f0, '[');
        let n = elems.len();
        let mut idx: usize = 0;
        while idx < n
            invariant
                n == elems@.len(),
                idx <= n,
                f1 == open_st(f0, '['),
                f0.wf(),
                f0.current_indent + 2 + depth_list(elems@, 0) <= usize::MAX,
                forall|j: int| 0 <= j < idx ==> keys_ok(#[trigger] elems@[j]),
                self@.fmt.wf(),
                self@.fmt.current_indent == f1.current_indent,
                self@.fmt.stack == f1.stack,
                self@.fmt.indent == f1.indent,
                self@.fmt.braces_same_line == f1.braces_same_line,
                self@.out + enc_elems(elems@, idx as int, self@.fmt).0 == old(self)@.out + open_out(
                    f0,
                    '[',
                ) + enc_elems(elems@, 0, f1).0,
                enc_elems(elems@, idx as int, self@.fmt).1 == enc_elems(elems@, 0, f1).1,
            decreases n - idx,
        {
            let ghost fcur = self@.fmt;
            let ghost out_pre = self@.out;
            self.formatter.comma(&mut self.writer, self.first);
            proof {
                lemma_depth_list_bound(elems@, idx as int);
            }
            let r = self.serialize_value(&elems[idx]);
            if r.is_err() {
                proof {
                    assert(!keys_ok(elems@[idx as int]));
                }
                return r;
            }
            self.first = false;
            proof {
                lemma_enc_balanced(elems@[idx as int], fcur);
                let o = enc(elems@[idx as int], fcur).0;
                let fnext = enc(elems@[idx as int], fcur).1;
                assert(enc_elems(elems@, idx as int, fcur) == (
                    comma_out(fcur) + o + enc_elems(elems@, idx as int + 1, fnext).0,
                    enc_elems(elems@, idx as int + 1, fnext).1,
                ));
                assert(self@.out + enc_elems(elems@, idx as int + 1, fnext).0 =~= out_pre
                    + enc_elems(elems@, idx as int, fcur).0);
            }
            idx += 1;
        }
        proof {
            assert(enc_elems(elems@, n as int, self@.fmt).0 =~= Seq::<char>::empty());
            assert(self@.out =~= old(self)@.out + open_out(f0, '[') + enc_elems(elems@, 0, f1).0);
        }
        self.formatter.close(&mut self.writer, 0x5du8);
        proof {
            assert(self@.fmt.stack =~= f0.stack);
            assert(self@.out =~= old(self)@.out + enc_seq(elems@, f0).0);
        }
        Ok(())
    }

    /// Encodes a map: `{}` when empty, else each entry on its own line
    /// between braces. A non-string key aborts with an error.
    pub fn serialize_map(&mut self, entries: &Vec<(Value, Value)>) -> (r: Result<(), Error>)
        requires
            old(self)@.fmt.wf(),
            old(self)@.fmt.current_indent + 2 + depth_entries(entries@, 0) <= usize::MAX,
        ensures
            final (self)@.fmt.wf(),
            r is Ok <==> (forall|i: int|
                0 <= i < entries@.len() ==> ((#[trigger] entries@[i]).0 is Str && keys_ok(
                    entries@[i].1,
                ))),
            (forall|i: int|
                0 <= i < entries@.len() ==> ((#[trigger] entries@[i]).0 is Str && keys_ok(
                    entries@[i].1,
                ))) ==> final (self)@.out == old(self)@.out + enc_map(entries@, old(self)@.fmt).0
                && final (self)@.fmt == enc_map(entries@, old(self)@.fmt).1,
            r is Err ==> r == Err::<(), Error>(Error::KeyMustBeAString),
        decreases *entries, entries@.len() + 1, 0int,
    {
        let ghost f0 = self@.fmt;
        if entries.len() == 0 {
            self.formatter.start_value(&mut self.writer);
            self.writer.append("{}");
            proof {
                reveal_strlit("{}");
                assert("{}"@ =~= seq!['{', '}']);
                assert(self@.out =~= old(self)@.out + enc_map(entries@, f0).0);
            }
            return Ok(());
        }
        self.formatter.open(&mut self.writer, 0x7bu8);
        self.first = true;
        let ghost f1 = open_st(f0, '{');
        let n = entries.len();
        let mut idx: usize = 0;
        while idx < n
            invariant
                n == entries@.len(),
                idx <= n,
                f1 == open_st(f0, '{'),
                f0.wf(),
                f0.current_indent + 2 + depth_entries(entries@, 0) <= usize::MAX,
                forall|j: int|
                    0 <= j < idx ==> ((#[trigger] entries@[j]).0 is Str && keys_ok(entries@[j].1)),
                self@.fmt.wf(),
                self@.fmt.current_indent == f1.current_indent,
                self@.fmt.stack == f1.stack,
                self@.fmt.indent == f1.indent,
                self@.fmt.braces_same_line == f1.braces_same_line,
                self@.out + enc_entries(entries@, idx as int, self@.fmt).0 == old(self)@.out
                    + open_out(f0, '{') + enc_entries(entries@, 0, f1).0,
                enc_entries(entries@, idx as int, self@.fmt).1 == enc_entries(entries@, 0, f1).1,
            decreases n - idx,
        {
            let ghost fcur = self@.fmt;
            let ghost out_pre = self@.out;
            self.formatter.comma(&mut self.writer, self.first);
            match &entries[idx].0 {
                Value::Str(key) => {
                    crate::quote::escape_key(&mut self.writer, key.as_str());
                },
                _ => {
                    proof {
                        assert(!(entries@[idx as int].0 is Str));
                    }
                    return Err(Error::KeyMustBeAString);
                },
            }
            self.formatter.colon(&mut self.writer);
            proof {
                lemma_depth_entries_bound(entries@, idx as int);
            }
            let r = self.serialize_value(&entries[idx].1);
            if r.is_err() {
                proof {
                    assert(!keys_ok(entries@[idx as int].1));
                }
                return r;
            }
            self.first = false;
            proof {
                lemma_enc_balanced(entries@[idx as int].1, colon_st(fcur));
                let key_s = match entries@[idx as int].0 {
                    Value::Str(s) => s@,
                    _ => Seq::<char>::empty(),
                };
                let o = enc(entries@[idx as int].1, colon_st(fcur)).0;
                let fnext = enc(entries@[idx as int].1, colon_st(fcur)).1;
                assert(enc_entries(entries@, idx as int, fcur) == (
                    comma_out(fcur) + key_out(key_s) + colon_out(fcur) + o + enc_entries(
                        entries@,
                        idx as int + 1,
                        fnext,
                    ).0,
                    enc_entries(entries@, idx as int + 1, fnext).1,
                ));
                assert(self@.out + enc_entries(entries@, idx as int + 1, fnext).0 =~= out_pre
                    + enc_entries(entries@, idx as int, fcur).0);
            }
            idx += 1;
        }
        proof {
            assert(enc_entries(entries@, n as int, self@.fmt).0 =~= Seq::<char>::empty());
            assert(self@.out =~= old(self)@.out + open_out(f0, '{') + enc_entries(
                entries@,
                0,
                f1,
            ).0);
        }
        self.formatter.close(&mut self.writer, 0x7du8);
        proof {
            assert(self@.fmt.stack =~= f0.stack);
            assert(self@.out =~= old(self)@.out + enc_map(entries@, f0).0);
        }
        Ok(())
    }
}

/// Encode a value into text with the default two-space formatter. Fails if
/// and only if the value holds a map entry whose key is not a string.
pub fn to_string(value: &Value) -> (r: Result<String, Error>)
    requires
        depth(*value) <= usize::MAX,
    ensures
        r is Ok <==> keys_ok(*value),
        keys_ok(*value) ==> (r matches Ok(s) && s@ == encoded(*value)),
        r is Err ==> r == Err::<String, Error>(Error::KeyMustBeAString),
{
    let mut ser = Serializer::new(String::new());
    match ser.serialize_value(value) {
        Ok(()) => Ok(ser.into_inner()),
        Err(e) => Err(e),
    }
}

/// Encode a value into a byte buffer holding the document's text. Fails if
/// and only if the value holds a map entry whose key is not a string.
pub fn to_vec(value: &Value) -> (r: Result<Vec<u8>, Error>)
    requires
        depth(*value) <= usize::MAX,
    ensures
        r is Ok <==> keys_ok(*value),
        keys_ok(*value) ==> (r matches Ok(b) && b@ == vstd::utf8::encode_utf8(encoded(*value))),
        r is Err ==> r == Err::<Vec<u8>, Error>(Error::KeyMustBeAString),
{
    match to_string(value) {
        Ok(s) => Ok(s.as_str().as_bytes_vec()),
        Err(e) => Err(e),
    }
}

} // verus!
