//! The closed value tree the encoder walks, and the encoder's error.

use vstd::prelude::*;

verus! {

/// What the encoder needs of a float: whether it is finite, and for a
/// finite value its plain-decimal and exponential renderings. The encoder
/// itself chooses between the two forms and folds negative zero to zero;
/// producing the renderings is the caller's concern.
#[derive(Debug)]
pub enum FloatText {
    /// Not a number, or infinite: encoded as the literal `null`.
    NonFinite,
    /// A finite value with its two candidate renderings.
    Finite { plain: String, exponential: String },
}

/// A value tree: scalars, strings, sequences, maps and tagged variants.
/// Maps carry arbitrary values as keys so that a non-string key can be
/// reported as an error at encode time, as the notation demands.
#[derive(Debug)]
pub enum Value {
    Bool(bool),
    Int(i64),
    Uint(u64),
    Float(FloatText),
    Char(char),
    Str(String),
    Null,
    Array(Vec<Value>),
    Object(Vec<(Value, Value)>),
    UnitVariant(String),
    NewtypeVariant(String, Box<Value>),
    TupleVariant(String, Vec<Value>),
    StructVariant(String, Vec<(Value, Value)>),
}

/// The one failure the encoder can report: a map entry whose key is not a
/// string.
#[derive(Clone, Copy, Debug, PartialEq, Eq)]
pub enum Error {
    KeyMustBeAString,
}

/// Every map key in the tree is a string value.
pub open spec fn keys_ok(v: Value) -> bool
    decreases v,
{
    match v {
        Value::Array(elems) => forall|i: int|
            0 <= i < elems@.len() ==> keys_ok(#[trigger] elems@[i]),
        Value::Object(entries) => forall|i: int|
            0 <= i < entries@.len() ==> ((#[trigger] entries@[i]).0 is Str && keys_ok(
                entries@[i].1,
            )),
        Value::NewtypeVariant(_, inner) => keys_ok(*inner),
        Value::TupleVariant(_, elems) => forall|i: int|
            0 <= i < elems@.len() ==> keys_ok(#[trigger] elems@[i]),
        Value::StructVariant(_, entries) => forall|i: int|
            0 <= i < entries@.len() ==> ((#[trigger] entries@[i]).0 is Str && keys_ok(
                entries@[i].1,
            )),
        _ => true,
    }
}

/// A bound on the container nesting a value opens while it is encoded,
/// used only to rule out overflow of the indentation counter.
pub open spec fn depth(v: Value) -> nat
    decreases v, 0int, 0int,
{
    match v {
        Value::Array(elems) => 2 + depth_list(elems@, 0),
        Value::Object(entries) => 2 + depth_entries(entries@, 0),
        Value::UnitVariant(_) => 2,
        Value::NewtypeVariant(_, inner) => 2 + depth(*inner),
        Value::TupleVariant(_, elems) => 3 + depth_list(elems@, 0),
        Value::StructVariant(_, entries) => 3 + depth_entries(entries@, 0),
        _ => 1,
    }
}

pub open spec fn depth_list(vs: Seq<Value>, i: int) -> nat
    decreases vs, vs.len() - i, 1int,
{
    if 0 <= i < vs.len() {
        let a = depth(vs[i]);
        let b = depth_list(vs, i + 1);
        if a > b {
            a
        } else {
            b
        }
    } else {
        0
    }
}

pub open spec fn depth_entries(ps: Seq<(Value, Value)>, i: int) -> nat
    decreases ps, ps.len() - i, 1int,
{
    if 0 <= i < ps.len() {
        let a = depth(ps[i].1);
        let b = depth_entries(ps, i + 1);
        if a > b {
            a
        } else {
            b
        }
    } else {
        0
    }
}

pub proof fn lemma_depth_list_bound(vs: Seq<Value>, i: int)
    requires
        0 <= i < vs.len(),
    ensures
        depth(vs[i]) <= depth_list(vs, 0),
{
    lemma_depth_list_shift(vs, 0, i);
}

proof fn lemma_depth_list_shift(vs: Seq<Value>, lo: int, i: int)
    requires
        0 <= lo <= i < vs.len(),
    ensures
        depth(vs[i]) <= depth_list(vs, lo),
    decreases i - lo,
{
    if lo < i {
        lemma_depth_list_shift(vs, lo + 1, i);
    }
}

pub proof fn lemma_depth_entries_bound(ps: Seq<(Value, Value)>, i: int)
    requires
        0 <= i < ps.len(),
    ensures
        depth(ps[i].1) <= depth_entries(ps, 0),
{
    lemma_depth_entries_shift(ps, 0, i);
}

proof fn lemma_depth_entries_shift(ps: Seq<(Value, Value)>, lo: int, i: int)
    requires
        0 <= lo <= i < ps.len(),
    ensures
        depth(ps[i].1) <= depth_entries(ps, lo),
    decreases i - lo,
{
    if lo < i {
        lemma_depth_entries_shift(ps, lo + 1, i);
    }
}

} // verus!
