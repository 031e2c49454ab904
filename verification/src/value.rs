use vstd::prelude::*;

use crate::number::{dbl_eq, dbl_text, eq_doubles};

verus! {

/// The mathematical model of a runtime value.
pub enum AbsValue {
    Nil,
    Bool(bool),
    Number(u64),
    Str(Seq<u8>),
}

/// A heap-allocated string value; it holds the raw bytes of its content.
#[derive(Debug, Clone)]
pub struct ObjString(pub(crate) Vec<u8>);

impl View for ObjString {
    type V = Seq<u8>;

    closed spec fn view(&self) -> Seq<u8> {
        self.0@
    }
}

impl ObjString {
    pub fn new(source: Vec<u8>) -> (r: Self)
        ensures
            r@ == source@,
    {
        ObjString(source)
    }

    pub fn bytes(&self) -> (r: &Vec<u8>)
        ensures
            r@ == self@,
    {
        &self.0
    }

    pub fn into_bytes(self) -> (r: Vec<u8>)
        ensures
            r@ == self@,
    {
        self.0
    }
}

/// A heap-allocated object; strings are the only kind of object the
/// interpreted language has.
#[derive(Debug, Clone)]
pub enum Object {
    ObjString(ObjString),
}

/// A runtime value: the tagged union held on the stack and in bindings.
/// Numbers are IEEE-754 doubles carried as their bit pattern.
#[derive(Debug, Clone)]
pub enum ValueType {
    Bool(bool),
    Nil,
    Number(u64),
    Obj(Object),
}

impl View for ValueType {
    type V = AbsValue;

    open spec fn view(&self) -> AbsValue {
        match *self {
            ValueType::Nil => AbsValue::Nil,
            ValueType::Bool(b) => AbsValue::Bool(b),
            ValueType::Number(bits) => AbsValue::Number(bits),
            ValueType::Obj(Object::ObjString(s)) => AbsValue::Str(s@),
        }
    }
}

/// The models of a sequence of values.
pub open spec fn views_of(s: Seq<ValueType>) -> Seq<AbsValue> {
    s.map_values(|v: ValueType| v@)
}

/// Truthiness: nil and false are falsey, every other value is truthy.
pub open spec fn spec_is_falsey(v: AbsValue) -> bool {
    v matches AbsValue::Nil || v matches AbsValue::Bool(false)
}

/// Language-level equality: values of different kinds are never equal;
/// numbers compare by IEEE equality, strings by content.
pub open spec fn spec_values_equal(a: AbsValue, b: AbsValue) -> bool {
    match (a, b) {
        (AbsValue::Bool(x), AbsValue::Bool(y)) => x == y,
        (AbsValue::Nil, AbsValue::Nil) => true,
        (AbsValue::Number(x), AbsValue::Number(y)) => dbl_eq(x, y),
        (AbsValue::Str(x), AbsValue::Str(y)) => x == y,
        _ => false,
    }
}

/// The printable form of a value: `nil`, `true`/`false`, the decimal
/// rendering of a number, or a string's raw content.
pub open spec fn spec_printable(v: AbsValue) -> Seq<u8> {
    match v {
        AbsValue::Nil => seq![110u8, 105u8, 108u8],
        AbsValue::Bool(true) => seq![116u8, 114u8, 117u8, 101u8],
        AbsValue::Bool(false) => seq![102u8, 97u8, 108u8, 115u8, 101u8],
        AbsValue::Number(bits) => dbl_text(bits),
        AbsValue::Str(s) => s,
    }
}

/// Byte-wise equality of two byte vectors.
pub fn bytes_equal(a: &Vec<u8>, b: &Vec<u8>) -> (r: bool)
    ensures
        r == (a@ == b@),
{
    if a.len() != b.len() {
        assert(a@ != b@) by {
            assert(a@.len() != b@.len());
        }
        return false;
    }
    let n = a.len();
    let mut i: usize = 0;
    while i < n
        invariant
            n == a@.len() == b@.len(),
            0 <= i <= n,
            forall|j: int| 0 <= j < i ==> a@[j] == b@[j],
        decreases n - i,
    {
        if a[i] != b[i] {
            return false;
        }
        i = i + 1;
    }
    proof {
        assert(a@ =~= b@);
    }
    true
}

impl ValueType {
    pub fn is_falsey(&self) -> (r: bool)
        ensures
            r == spec_is_falsey(self@),
    {
        match self {
            ValueType::Nil => true,
            ValueType::Bool(b) => !b,
            _ => false,
        }
    }

    pub fn is_obj_type(&self) -> (r: bool)
        ensures
            r == (self@ matches AbsValue::Str(_)),
    {
        matches!(self, ValueType::Obj(_))
    }

    /// A copy of this value, with the same model.
    pub fn clone_value(&self) -> (r: ValueType)
        ensures
            r@ == self@,
    {
        match self {
            ValueType::Nil => ValueType::Nil,
            ValueType::Bool(b) => ValueType::Bool(*b),
            ValueType::Number(bits) => ValueType::Number(*bits),
            ValueType::Obj(Object::ObjString(s)) => ValueType::Obj(
                Object::ObjString(ObjString(vstd::slice::slice_to_vec(s.0.as_slice()))),
            ),
        }
    }

    /// Language-level equality of two values.
    pub fn equals(&self, other: &ValueType) -> (r: bool)
        ensures
            r == spec_values_equal(self@, other@),
    {
        match (self, other) {
            (ValueType::Bool(x), ValueType::Bool(y)) => x == y,
            (ValueType::Nil, ValueType::Nil) => true,
            (ValueType::Number(x), ValueType::Number(y)) => eq_doubles(*x, *y),
            (ValueType::Obj(Object::ObjString(x)), ValueType::Obj(Object::ObjString(y))) => {
                bytes_equal(&x.0, &y.0)
            },
            _ => false,
        }
    }

    /// The printable form of this value, as bytes.
    pub fn printable(&self) -> (r: Vec<u8>)
        ensures
            r@ == spec_printable(self@),
    {
        match self {
            ValueType::Nil => {
                let r = vec![110u8, 105u8, 108u8];
                assert(r@ =~= spec_printable(AbsValue::Nil));
                r
            },
            ValueType::Bool(b) => {
                if *b {
                    let r = vec![116u8, 114u8, 117u8, 101u8];
                    assert(r@ =~= spec_printable(AbsValue::Bool(true)));
                    r
                } else {
                    let r = vec![102u8, 97u8, 108u8, 115u8, 101u8];
                    assert(r@ =~= spec_printable(AbsValue::Bool(false)));
                    r
                }
            },
            ValueType::Number(bits) => crate::number::double_text(*bits),
            ValueType::Obj(Object::ObjString(s)) => vstd::slice::slice_to_vec(s.0.as_slice()),
        }
    }
}

/// Truthiness law: a value is falsey exactly when it is nil or false.
pub proof fn lemma_truthiness(v: AbsValue)
    ensures
        spec_is_falsey(v) <==> (v matches AbsValue::Nil || v matches AbsValue::Bool(false)),
{
}

/// Equality law: equal values always have the same kind, and equality of two
/// values of the same kind is equality of their payloads.
pub proof fn lemma_equality_same_kind(a: AbsValue, b: AbsValue)
    ensures
        spec_values_equal(a, b) ==> (a matches AbsValue::Nil <==> b matches AbsValue::Nil),
        spec_values_equal(a, b) ==> (a matches AbsValue::Bool(_) <==> b matches AbsValue::Bool(_)),
        spec_values_equal(a, b) ==> (a matches AbsValue::Number(_) <==> b matches AbsValue::Number(
            _,
        )),
        spec_values_equal(a, b) ==> (a matches AbsValue::Str(_) <==> b matches AbsValue::Str(_)),
        forall|x: bool, y: bool|
            spec_values_equal(AbsValue::Bool(x), AbsValue::Bool(y)) == (x == y),
        forall|x: u64, y: u64|
            spec_values_equal(AbsValue::Number(x), AbsValue::Number(y)) == dbl_eq(x, y),
        forall|x: Seq<u8>, y: Seq<u8>|
            spec_values_equal(AbsValue::Str(x), AbsValue::Str(y)) == (x == y),
{
}

} // verus!
