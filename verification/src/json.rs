//! JSON values as plain data, with JSON's equality: what provider-specific
//! model options hold.

use vstd::prelude::*;
use vstd::std_specs::cmp::PartialEqSpecImpl;
use crate::text::same_text;
use crate::types::{float_bits_eq, same_float};

verus! {

/// A JSON number: a non-negative integer, a negative integer, or a finite
/// float held as the IEEE-754 bit pattern of its `f64` value.
#[derive(Debug, Clone, Copy)]
pub enum JsonNumber {
    PosInt(u64),
    NegInt(i64),
    Float(u64),
}

/// A JSON value. An object holds its members in key order, each key once.
#[derive(Debug)]
pub enum JsonValue {
    Null,
    Bool(bool),
    Number(JsonNumber),
    String(String),
    Array(Vec<JsonValue>),
    Object(Vec<(String, JsonValue)>),
}

/// Two numbers are equal when they are of the same kind and equal as
/// values of that kind (floats as `f64` values).
pub open spec fn number_eq(a: JsonNumber, b: JsonNumber) -> bool {
    match (a, b) {
        (JsonNumber::PosInt(x), JsonNumber::PosInt(y)) => x == y,
        (JsonNumber::NegInt(x), JsonNumber::NegInt(y)) => x == y,
        (JsonNumber::Float(x), JsonNumber::Float(y)) => float_bits_eq(x, y),
        _ => false,
    }
}

/// Two values are equal when they are of the same kind with equal
/// contents: arrays element by element, objects member by member in order
/// with equal keys and equal values.
pub open spec fn json_eq(a: JsonValue, b: JsonValue) -> bool
    decreases a,
{
    match a {
        JsonValue::Null => b is Null,
        JsonValue::Bool(x) => b matches JsonValue::Bool(y) && x == y,
        JsonValue::Number(x) => b matches JsonValue::Number(y) && number_eq(x, y),
        JsonValue::String(x) => b matches JsonValue::String(y) && x@ == y@,
        JsonValue::Array(xs) => match b {
            JsonValue::Array(ys) => xs@.len() == ys@.len() && forall|i: int|
                0 <= i < xs@.len() ==> json_eq(#[trigger] xs@[i], ys@[i]),
            _ => false,
        },
        JsonValue::Object(xs) => match b {
            JsonValue::Object(ys) => xs@.len() == ys@.len() && forall|i: int|
                0 <= i < xs@.len() ==> (#[trigger] xs@[i]).0@ == ys@[i].0@ && json_eq(xs@[i].1, ys@[i].1),
            _ => false,
        },
    }
}

/// Two objects are equal member by member, in order.
pub open spec fn object_eq(xs: Seq<(String, JsonValue)>, ys: Seq<(String, JsonValue)>) -> bool {
    xs.len() == ys.len() && forall|i: int|
        0 <= i < xs.len() ==> (#[trigger] xs[i]).0@ == ys[i].0@ && json_eq(xs[i].1, ys[i].1)
}

/// Two optional objects are equal when both are absent or both are equal objects.
pub open spec fn opt_object_eq(a: Option<Vec<(String, JsonValue)>>, b: Option<Vec<(String, JsonValue)>>) -> bool {
    match (a, b) {
        (Some(x), Some(y)) => object_eq(x@, y@),
        (None, None) => true,
        _ => false,
    }
}

/// A copy of `v`, value by value.
fn copy_json(v: &JsonValue) -> (r: JsonValue)
    decreases v,
{
    match v {
        JsonValue::Null => JsonValue::Null,
        JsonValue::Bool(x) => JsonValue::Bool(*x),
        JsonValue::Number(x) => JsonValue::Number(*x),
        JsonValue::String(x) => JsonValue::String(x.clone()),
        JsonValue::Array(xs) => {
            let n = xs.len();
            let mut out: Vec<JsonValue> = Vec::new();
            let mut i: usize = 0;
            while i < n
                invariant
                    *v == JsonValue::Array(*xs),
                    n == xs@.len(),
                    0 <= i <= n,
                decreases n - i,
            {
                assert(decreases_to!(*v => (*v)->Array_0));
                assert(decreases_to!(*xs => xs[i as int]));
                out.push(copy_json(&xs[i]));
                i = i + 1;
            }
            JsonValue::Array(out)
        },
        JsonValue::Object(xs) => {
            let n = xs.len();
            let mut out: Vec<(String, JsonValue)> = Vec::new();
            let mut i: usize = 0;
            while i < n
                invariant
                    *v == JsonValue::Object(*xs),
                    n == xs@.len(),
                    0 <= i <= n,
                decreases n - i,
            {
                assert(decreases_to!(*v => (*v)->Object_0));
                assert(decreases_to!(*xs => xs[i as int]));
                assert(decreases_to!(xs[i as int] => xs[i as int].1));
                let key = xs[i].0.clone();
                let value = copy_json(&xs[i].1);
                out.push((key, value));
                i = i + 1;
            }
            JsonValue::Object(out)
        },
    }
}

impl Clone for JsonValue {
    fn clone(&self) -> (r: Self) {
        copy_json(self)
    }
}

fn same_number(a: JsonNumber, b: JsonNumber) -> (r: bool)
    ensures
        r == number_eq(a, b),
{
    match (a, b) {
        (JsonNumber::PosInt(x), JsonNumber::PosInt(y)) => x == y,
        (JsonNumber::NegInt(x), JsonNumber::NegInt(y)) => x == y,
        (JsonNumber::Float(x), JsonNumber::Float(y)) => same_float(x, y),
        _ => false,
    }
}

/// Compares two JSON values with JSON's equality.
pub fn same_json(a: &JsonValue, b: &JsonValue) -> (r: bool)
    ensures
        r == json_eq(*a, *b),
    decreases a,
{
    match a {
        JsonValue::Null => match b {
            JsonValue::Null => true,
            _ => false,
        },
        JsonValue::Bool(x) => match b {
            JsonValue::Bool(y) => *x == *y,
            _ => false,
        },
        JsonValue::Number(x) => match b {
            JsonValue::Number(y) => same_number(*x, *y),
            _ => false,
        },
        JsonValue::String(x) => match b {
            JsonValue::String(y) => same_text(x.as_str(), y.as_str()),
            _ => false,
        },
        JsonValue::Array(xs) => match b {
            JsonValue::Array(ys) => {
                let n = xs.len();
                if n != ys.len() {
                    return false;
                }
                let mut i: usize = 0;
                while i < n
                    invariant
                        *a == JsonValue::Array(*xs),
                        *b == JsonValue::Array(*ys),
                        n == xs@.len(),
                        n == ys@.len(),
                        0 <= i <= n,
                        forall|j: int| 0 <= j < i ==> json_eq(#[trigger] xs@[j], ys@[j]),
                    decreases n - i,
                {
                    assert(decreases_to!(*a => (*a)->Array_0));
                    assert(decreases_to!(*xs => xs[i as int]));
                    if !same_json(&xs[i], &ys[i]) {
                        return false;
                    }
                    i = i + 1;
                }
                true
            },
            _ => false,
        },
        JsonValue::Object(xs) => match b {
            JsonValue::Object(ys) => {
                let n = xs.len();
                if n != ys.len() {
                    return false;
                }
                let mut i: usize = 0;
                while i < n
                    invariant
                        *a == JsonValue::Object(*xs),
                        *b == JsonValue::Object(*ys),
                        n == xs@.len(),
                        n == ys@.len(),
                        0 <= i <= n,
                        forall|j: int| 0 <= j < i ==> (#[trigger] xs@[j]).0@ == ys@[j].0@ && json_eq(xs@[j].1, ys@[j].1),
                    decreases n - i,
                {
                    assert(decreases_to!(*a => (*a)->Object_0));
                    assert(decreases_to!(*xs => xs[i as int]));
                    assert(decreases_to!(xs[i as int] => xs[i as int].1));
                    if !same_text(xs[i].0.as_str(), ys[i].0.as_str()) {
                        return false;
                    }
                    if !same_json(&xs[i].1, &ys[i].1) {
                        return false;
                    }
                    i = i + 1;
                }
                true
            },
            _ => false,
        },
    }
}

impl PartialEq for JsonValue {
    fn eq(&self, other: &Self) -> (r: bool) {
        same_json(self, other)
    }
}

impl PartialEqSpecImpl for JsonValue {
    open spec fn obeys_eq_spec() -> bool {
        true
    }

    open spec fn eq_spec(&self, other: &JsonValue) -> bool {
        json_eq(*self, *other)
    }
}

/// Compares two objects member by member, in order.
pub fn same_object(xs: &Vec<(String, JsonValue)>, ys: &Vec<(String, JsonValue)>) -> (r: bool)
    ensures
        r == object_eq(xs@, ys@),
{
    let n = xs.len();
    if n != ys.len() {
        return false;
    }
    let mut i: usize = 0;
    while i < n
        invariant
            n == xs@.len(),
            n == ys@.len(),
            0 <= i <= n,
            forall|j: int| 0 <= j < i ==> (#[trigger] xs@[j]).0@ == ys@[j].0@ && json_eq(xs@[j].1, ys@[j].1),
        decreases n - i,
    {
        if !same_text(xs[i].0.as_str(), ys[i].0.as_str()) {
            return false;
        }
        if !same_json(&xs[i].1, &ys[i].1) {
            return false;
        }
        i = i + 1;
    }
    true
}

/// Compares two optional objects: both absent, or both present and equal.
pub fn same_opt_object(a: &Option<Vec<(String, JsonValue)>>, b: &Option<Vec<(String, JsonValue)>>) -> (r: bool)
    ensures
        r == opt_object_eq(*a, *b),
{
    match (a, b) {
        (Some(x), Some(y)) => same_object(x, y),
        (None, None) => true,
        _ => false,
    }
}

} // verus!
