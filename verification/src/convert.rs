//! Typed access to values: exact matches on the stored variant
//! ([`GssType`]), and conversions to common Rust types ([`FromGssValue`]).
use vstd::prelude::*;

use crate::value::{value_view, view_values, lemma_view_values, Expr, FloatLit, Object, Value, ValueView};

verus! {

/// A type that a value can hold as it is.
pub trait GssType: Sized {
    /// The value that holds `self`.
    spec fn wrapped(&self) -> ValueView;

    /// Whether `v` holds a value of this type.
    spec fn holds(v: ValueView) -> bool;

    /// The value held by `value`, if it is of this type.
    fn downcast(value: &Value) -> (r: Option<&Self>)
        ensures
            match r {
                Some(x) => Self::holds(value@) && x.wrapped() == value@,
                None => !Self::holds(value@),
            },
    ;
}

impl GssType for u32 {
    open spec fn wrapped(&self) -> ValueView {
        ValueView::Number(*self)
    }

    open spec fn holds(v: ValueView) -> bool {
        v is Number
    }

    fn downcast(value: &Value) -> (r: Option<&u32>) {
        match value {
            Value::Number(n) => Some(n),
            _ => None,
        }
    }
}

impl GssType for bool {
    open spec fn wrapped(&self) -> ValueView {
        ValueView::Bool(*self)
    }

    open spec fn holds(v: ValueView) -> bool {
        v is Bool
    }

    fn downcast(value: &Value) -> (r: Option<&bool>) {
        match value {
            Value::Bool(b) => Some(b),
            _ => None,
        }
    }
}

impl GssType for String {
    open spec fn wrapped(&self) -> ValueView {
        ValueView::String(self@)
    }

    open spec fn holds(v: ValueView) -> bool {
        v is String
    }

    fn downcast(value: &Value) -> (r: Option<&String>) {
        match value {
            Value::String(s) => Some(s),
            _ => None,
        }
    }
}

impl GssType for FloatLit {
    open spec fn wrapped(&self) -> ValueView {
        ValueView::Float(self@)
    }

    open spec fn holds(v: ValueView) -> bool {
        v is Float
    }

    fn downcast(value: &Value) -> (r: Option<&FloatLit>) {
        match value {
            Value::Float(f) => Some(f),
            _ => None,
        }
    }
}

impl GssType for Object {
    open spec fn wrapped(&self) -> ValueView {
        ValueView::Object(self@)
    }

    open spec fn holds(v: ValueView) -> bool {
        v is Object
    }

    fn downcast(value: &Value) -> (r: Option<&Object>) {
        match value {
            Value::Object(o) => Some(o),
            _ => None,
        }
    }
}

impl GssType for Expr {
    open spec fn wrapped(&self) -> ValueView {
        ValueView::Expr(self@)
    }

    open spec fn holds(v: ValueView) -> bool {
        v is Expr
    }

    fn downcast(value: &Value) -> (r: Option<&Expr>) {
        match value {
            Value::Expr(e) => Some(e),
            _ => None,
        }
    }
}

impl GssType for Vec<Value> {
    open spec fn wrapped(&self) -> ValueView {
        ValueView::Vec(view_values(self@))
    }

    open spec fn holds(v: ValueView) -> bool {
        v is Vec
    }

    fn downcast(value: &Value) -> (r: Option<&Vec<Value>>) {
        match value {
            Value::Vec(items) => Some(items),
            _ => None,
        }
    }
}

impl Value {
    /// The value held, if it is of type `T`.
    pub fn downcast_ref<T: GssType>(&self) -> (r: Option<&T>)
        ensures
            match r {
                Some(x) => T::holds(self@) && x.wrapped() == self@,
                None => !T::holds(self@),
            },
    {
        T::downcast(self)
    }
}

/// A type that values can be converted to.
///
/// Integers convert from integer values that fit the target type; booleans
/// and strings from values of that kind; a `Vec<T>` from a list whose every
/// item converts.  Non-integral numbers are kept as written (`FloatLit`) and
/// are not converted here: a float value converts to no integer type, even
/// when it is a whole number, since reading it as a number is floating point
/// and is left to the caller.
pub trait FromGssValue: Sized {
    /// Whether `v` converts to this type.
    spec fn convertible(v: ValueView) -> bool;

    /// Whether `r` is what `v` converts to.
    spec fn converts(v: ValueView, r: Self) -> bool;

    fn from_gss_value(value: &Value) -> (r: Option<Self>)
        ensures
            match r {
                Some(x) => Self::convertible(value@) && Self::converts(value@, x),
                None => !Self::convertible(value@),
            },
    ;
}

impl FromGssValue for bool {
    open spec fn convertible(v: ValueView) -> bool {
        v is Bool
    }

    open spec fn converts(v: ValueView, r: bool) -> bool {
        v == ValueView::Bool(r)
    }

    fn from_gss_value(value: &Value) -> (r: Option<bool>) {
        match value {
            Value::Bool(b) => Some(*b),
            _ => None,
        }
    }
}

impl FromGssValue for String {
    open spec fn convertible(v: ValueView) -> bool {
        v is String
    }

    open spec fn converts(v: ValueView, r: String) -> bool {
        v == ValueView::String(r@)
    }

    fn from_gss_value(value: &Value) -> (r: Option<String>) {
        match value {
            Value::String(s) => Some(s.clone()),
            _ => None,
        }
    }
}

impl<T: FromGssValue> FromGssValue for Vec<T> {
    open spec fn convertible(v: ValueView) -> bool {
        match v {
            ValueView::Vec(items) => forall|i: int|
                0 <= i < items.len() ==> T::convertible(#[trigger] items[i]),
            _ => false,
        }
    }

    open spec fn converts(v: ValueView, r: Vec<T>) -> bool {
        match v {
            ValueView::Vec(items) => r@.len() == items.len() && forall|i: int|
                0 <= i < items.len() ==> T::converts(#[trigger] items[i], r@[i]),
            _ => false,
        }
    }

    fn from_gss_value(value: &Value) -> (r: Option<Vec<T>>) {
        match value {
            Value::Vec(items) => {
                proof {
                    lemma_view_values(items@);
                }
                let ghost vs = view_values(items@);
                assert(value@ == ValueView::Vec(vs));
                let mut out: Vec<T> = Vec::new();
                let n = items.len();
                for i in 0..n
                    invariant
                        n == items@.len(),
                        vs == view_values(items@),
                        value@ == ValueView::Vec(vs),
                        vs.len() == n,
                        forall|j: int| 0 <= j < n ==> #[trigger] vs[j] == value_view(items@[j]),
                        out@.len() == i,
                        forall|j: int| 0 <= j < i ==> T::convertible(#[trigger] vs[j]),
                        forall|j: int| 0 <= j < i ==> T::converts(#[trigger] vs[j], out@[j]),
                {
                    match T::from_gss_value(&items[i]) {
                        Some(x) => out.push(x),
                        None => {
                            assert(!T::convertible(vs[i as int]));
                            assert(value@ == ValueView::Vec(vs));
                            assert(!(forall|j: int|
                                0 <= j < vs.len() ==> T::convertible(#[trigger] vs[j])));
                            let ghost vv = ValueView::Vec(vs);
                            assert(vv->Vec_0 == vs);
                            assert(!<Vec<T> as FromGssValue>::convertible(vv));
                            return None;
                        },
                    }
                }
                assert(value@ == ValueView::Vec(vs));
                Some(out)
            },
            _ => None,
        }
    }
}

impl FromGssValue for u8 {
    open spec fn convertible(v: ValueView) -> bool {
        v matches ValueView::Number(n) && n as int <= u8::MAX as int
    }

    open spec fn converts(v: ValueView, r: u8) -> bool {
        v matches ValueView::Number(n) && r as int == n as int
    }

    fn from_gss_value(value: &Value) -> (r: Option<u8>) {
        match value {
            Value::Number(n) => if (*n as u128) <= (u8::MAX as u128) {
                Some(*n as u8)
            } else {
                None
            },
            _ => None,
        }
    }
}

impl FromGssValue for u16 {
    open spec fn convertible(v: ValueView) -> bool {
        v matches ValueView::Number(n) && n as int <= u16::MAX as int
    }

    open spec fn converts(v: ValueView, r: u16) -> bool {
        v matches ValueView::Number(n) && r as int == n as int
    }

    fn from_gss_value(value: &Value) -> (r: Option<u16>) {
        match value {
            Value::Number(n) => if (*n as u128) <= (u16::MAX as u128) {
                Some(*n as u16)
            } else {
                None
            },
            _ => None,
        }
    }
}

impl FromGssValue for u32 {
    open spec fn convertible(v: ValueView) -> bool {
        v matches ValueView::Number(n)
    }

    open spec fn converts(v: ValueView, r: u32) -> bool {
        v matches ValueView::Number(n) && r as int == n as int
    }

    fn from_gss_value(value: &Value) -> (r: Option<u32>) {
        match value {
            Value::Number(n) => Some(*n as u32),
            _ => None,
        }
    }
}

impl FromGssValue for u64 {
    open spec fn convertible(v: ValueView) -> bool {
        v matches ValueView::Number(n)
    }

    open spec fn converts(v: ValueView, r: u64) -> bool {
        v matches ValueView::Number(n) && r as int == n as int
    }

    fn from_gss_value(value: &Value) -> (r: Option<u64>) {
        match value {
            Value::Number(n) => Some(*n as u64),
            _ => None,
        }
    }
}

impl FromGssValue for u128 {
    open spec fn convertible(v: ValueView) -> bool {
        v matches ValueView::Number(n)
    }

    open spec fn converts(v: ValueView, r: u128) -> bool {
        v matches ValueView::Number(n) && r as int == n as int
    }

    fn from_gss_value(value: &Value) -> (r: Option<u128>) {
        match value {
            Value::Number(n) => Some(*n as u128),
            _ => None,
        }
    }
}

impl FromGssValue for usize {
    open spec fn convertible(v: ValueView) -> bool {
        v matches ValueView::Number(n)
    }

    open spec fn converts(v: ValueView, r: usize) -> bool {
        v matches ValueView::Number(n) && r as int == n as int
    }

    fn from_gss_value(value: &Value) -> (r: Option<usize>) {
        match value {
            Value::Number(n) => Some(*n as usize),
            _ => None,
        }
    }
}

impl FromGssValue for i8 {
    open spec fn convertible(v: ValueView) -> bool {
        v matches ValueView::Number(n) && n as int <= i8::MAX as int
    }

    open spec fn converts(v: ValueView, r: i8) -> bool {
        v matches ValueView::Number(n) && r as int == n as int
    }

    fn from_gss_value(value: &Value) -> (r: Option<i8>) {
        match value {
            Value::Number(n) => if (*n as u128) <= (i8::MAX as u128) {
                Some(*n as i8)
            } else {
                None
            },
            _ => None,
        }
    }
}

impl FromGssValue for i16 {
    open spec fn convertible(v: ValueView) -> bool {
        v matches ValueView::Number(n) && n as int <= i16::MAX as int
    }

    open spec fn converts(v: ValueView, r: i16) -> bool {
        v matches ValueView::Number(n) && r as int == n as int
    }

    fn from_gss_value(value: &Value) -> (r: Option<i16>) {
        match value {
            Value::Number(n) => if (*n as u128) <= (i16::MAX as u128) {
                Some(*n as i16)
            } else {
                None
            },
            _ => None,
        }
    }
}

impl FromGssValue for i32 {
    open spec fn convertible(v: ValueView) -> bool {
        v matches ValueView::Number(n) && n as int <= i32::MAX as int
    }

    open spec fn converts(v: ValueView, r: i32) -> bool {
        v matches ValueView::Number(n) && r as int == n as int
    }

    fn from_gss_value(value: &Value) -> (r: Option<i32>) {
        match value {
            Value::Number(n) => if (*n as u128) <= (i32::MAX as u128) {
                Some(*n as i32)
            } else {
                None
            },
            _ => None,
        }
    }
}

impl FromGssValue for i64 {
    open spec fn convertible(v: ValueView) -> bool {
        v matches ValueView::Number(n)
    }

    open spec fn converts(v: ValueView, r: i64) -> bool {
        v matches ValueView::Number(n) && r as int == n as int
    }

    fn from_gss_value(value: &Value) -> (r: Option<i64>) {
        match value {
            Value::Number(n) => Some(*n as i64),
            _ => None,
        }
    }
}

impl FromGssValue for i128 {
    open spec fn convertible(v: ValueView) -> bool {
        v matches ValueView::Number(n)
    }

    open spec fn converts(v: ValueView, r: i128) -> bool {
        v matches ValueView::Number(n) && r as int == n as int
    }

    fn from_gss_value(value: &Value) -> (r: Option<i128>) {
        match value {
            Value::Number(n) => Some(*n as i128),
            _ => None,
        }
    }
}

impl FromGssValue for isize {
    open spec fn convertible(v: ValueView) -> bool {
        v matches ValueView::Number(n) && n as int <= isize::MAX as int
    }

    open spec fn converts(v: ValueView, r: isize) -> bool {
        v matches ValueView::Number(n) && r as int == n as int
    }

    fn from_gss_value(value: &Value) -> (r: Option<isize>) {
        match value {
            Value::Number(n) => if (*n as u128) <= (isize::MAX as u128) {
                Some(*n as isize)
            } else {
                None
            },
            _ => None,
        }
    }
}
} // verus!
