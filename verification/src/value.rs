//! Argument values: a closed, tagged union of the value kinds an argument
//! map can carry.
//!
//! An [`ArgValue`] is exactly one of a signed 64-bit integer, a UTF-8
//! string, or a structured JSON-like tree ([`JsonValue`]). Values are
//! immutable once constructed; the lifts from `i64`, `String`, `&str` and
//! [`JsonValue`] are total and perform no validation.

use vstd::prelude::*;

verus! {

/// Argument name (alias to `String`).
pub type ArgName = String;

/// A structured JSON-like value: scalars, ordered sequences, and
/// string-keyed mappings whose entry order is significant to the encoder.
///
/// The wire format has no native boolean or null primitive; this library
/// encodes a boolean as the integer `1` or `0` and a null as the empty
/// string. Floating-point numbers are not representable here at all: the
/// wire format has no float primitive, so a caller must choose an integer
/// or string rendering before building a [`JsonValue`].
#[derive(Debug)]
pub enum JsonValue {
    /// The null value, encoded as the empty string.
    Null,
    /// A boolean, encoded as the integer `1` or `0`.
    Bool(bool),
    /// A signed 64-bit integer.
    Int(i64),
    /// A UTF-8 string.
    Str(String),
    /// An ordered sequence of values.
    List(Vec<JsonValue>),
    /// A string-keyed mapping; entries keep the order given here, and the
    /// encoder does not re-sort them.
    Dict(Vec<(String, JsonValue)>),
}

/// Argument value (either integer, string, or JSON).
#[derive(Debug)]
pub enum ArgValue {
    /// Integer argument value.
    Int(i64),
    /// String argument value.
    String(String),
    /// JSON argument value.
    Json(JsonValue),
}

/// Deep structural equality of two structured values: same variant and
/// equal payload, strings compared by contents, sequences and mappings
/// element by element in order.
///
/// A mapping here is an ordered entry sequence — its order is data, carried
/// through to the encoder — so two mappings holding the same keys in a
/// different order are different values and encode differently.
pub open spec fn json_eq(a: JsonValue, b: JsonValue) -> bool
    decreases a,
{
    match (a, b) {
        (JsonValue::Null, JsonValue::Null) => true,
        (JsonValue::Bool(x), JsonValue::Bool(y)) => x == y,
        (JsonValue::Int(x), JsonValue::Int(y)) => x == y,
        (JsonValue::Str(x), JsonValue::Str(y)) => x@ == y@,
        (JsonValue::List(x), JsonValue::List(y)) => json_seq_eq(x@, y@),
        (JsonValue::Dict(x), JsonValue::Dict(y)) => json_entries_eq(x@, y@),
        _ => false,
    }
}

/// Element-wise deep equality of two sequences of structured values.
pub open spec fn json_seq_eq(a: Seq<JsonValue>, b: Seq<JsonValue>) -> bool
    decreases a,
{
    if a.len() != b.len() {
        false
    } else if a.len() == 0 {
        true
    } else {
        json_eq(a[0], b[0]) && json_seq_eq(a.drop_first(), b.drop_first())
    }
}

/// Entry-wise deep equality of two mapping entry sequences: equal keys (by
/// contents) and deeply equal values, in the same order.
pub open spec fn json_entries_eq(a: Seq<(String, JsonValue)>, b: Seq<(String, JsonValue)>) -> bool
    decreases a,
{
    if a.len() != b.len() {
        false
    } else if a.len() == 0 {
        true
    } else {
        a[0].0@ == b[0].0@ && json_eq(a[0].1, b[0].1) && json_entries_eq(
            a.drop_first(),
            b.drop_first(),
        )
    }
}

/// Equality of two argument values: same variant and equal payload.
pub open spec fn arg_eq(a: ArgValue, b: ArgValue) -> bool {
    match (a, b) {
        (ArgValue::Int(x), ArgValue::Int(y)) => x == y,
        (ArgValue::String(x), ArgValue::String(y)) => x@ == y@,
        (ArgValue::Json(x), ArgValue::Json(y)) => json_eq(x, y),
        _ => false,
    }
}

impl JsonValue {
    /// Deep structural equality test, per [`json_eq`].
    pub fn deep_eq(&self, other: &JsonValue) -> (r: bool)
        ensures
            r == json_eq(*self, *other),
        decreases *self, 0int,
    {
        match (self, other) {
            (JsonValue::Null, JsonValue::Null) => true,
            (JsonValue::Bool(x), JsonValue::Bool(y)) => *x == *y,
            (JsonValue::Int(x), JsonValue::Int(y)) => *x == *y,
            (JsonValue::Str(x), JsonValue::Str(y)) => *x == *y,
            (JsonValue::List(x), JsonValue::List(y)) => {
                proof {
                    assert(x@.skip(0) =~= x@);
                    assert(y@.skip(0) =~= y@);
                }
                deep_eq_list_from(x, y, 0)
            },
            (JsonValue::Dict(x), JsonValue::Dict(y)) => {
                proof {
                    assert(x@.skip(0) =~= x@);
                    assert(y@.skip(0) =~= y@);
                }
                deep_eq_entries_from(x, y, 0)
            },
            _ => false,
        }
    }
}

/// Compares the tails of two value sequences starting at index `i`.
fn deep_eq_list_from(x: &Vec<JsonValue>, y: &Vec<JsonValue>, i: usize) -> (r: bool)
    requires
        i <= x@.len(),
        i <= y@.len(),
    ensures
        r == json_seq_eq(x@.skip(i as int), y@.skip(i as int)),
    decreases x@, x@.len() - i,
{
    proof {
        assert(x@.skip(i as int).len() == x@.len() - i);
        assert(y@.skip(i as int).len() == y@.len() - i);
    }
    if i == x.len() {
        i == y.len()
    } else if i == y.len() {
        false
    } else {
        proof {
            assert(x@.skip(i as int)[0] == x@[i as int]);
            assert(y@.skip(i as int)[0] == y@[i as int]);
            assert(x@.skip(i as int).drop_first() =~= x@.skip(i + 1));
            assert(y@.skip(i as int).drop_first() =~= y@.skip(i + 1));
        }
        let hd = x[i].deep_eq(&y[i]);
        if hd {
            deep_eq_list_from(x, y, i + 1)
        } else {
            false
        }
    }
}

/// Compares the tails of two mapping entry sequences starting at index `i`.
fn deep_eq_entries_from(x: &Vec<(String, JsonValue)>, y: &Vec<(String, JsonValue)>, i: usize) -> (r:
    bool)
    requires
        i <= x@.len(),
        i <= y@.len(),
    ensures
        r == json_entries_eq(x@.skip(i as int), y@.skip(i as int)),
    decreases x@, x@.len() - i,
{
    proof {
        assert(x@.skip(i as int).len() == x@.len() - i);
        assert(y@.skip(i as int).len() == y@.len() - i);
    }
    if i == x.len() {
        i == y.len()
    } else if i == y.len() {
        false
    } else {
        proof {
            assert(x@.skip(i as int)[0] == x@[i as int]);
            assert(y@.skip(i as int)[0] == y@[i as int]);
            assert(x@.skip(i as int).drop_first() =~= x@.skip(i + 1));
            assert(y@.skip(i as int).drop_first() =~= y@.skip(i + 1));
        }
        let keys_eq = x[i].0 == y[i].0;
        if keys_eq {
            let vals_eq = x[i].1.deep_eq(&y[i].1);
            if vals_eq {
                deep_eq_entries_from(x, y, i + 1)
            } else {
                false
            }
        } else {
            false
        }
    }
}

impl JsonValue {
    /// Deep copy: the copy is structurally equal to the original, per
    /// [`json_eq`].
    pub fn deep_clone(&self) -> (r: JsonValue)
        ensures
            json_eq(*self, r),
        decreases *self, 0int,
    {
        match self {
            JsonValue::Null => JsonValue::Null,
            JsonValue::Bool(b) => JsonValue::Bool(*b),
            JsonValue::Int(i) => JsonValue::Int(*i),
            JsonValue::Str(s) => JsonValue::Str(s.clone()),
            JsonValue::List(x) => {
                let copy = clone_list_from(x, 0);
                proof {
                    assert(x@.skip(0) =~= x@);
                }
                JsonValue::List(copy)
            },
            JsonValue::Dict(x) => {
                let copy = clone_entries_from(x, 0);
                proof {
                    assert(x@.skip(0) =~= x@);
                }
                JsonValue::Dict(copy)
            },
        }
    }
}

/// Copies the values of `x` from index `i` on.
fn clone_list_from(x: &Vec<JsonValue>, i: usize) -> (r: Vec<JsonValue>)
    requires
        i <= x@.len(),
    ensures
        json_seq_eq(x@.skip(i as int), r@),
    decreases x@, x@.len() - i,
{
    proof {
        assert(x@.skip(i as int).len() == x@.len() - i);
    }
    if i == x.len() {
        Vec::new()
    } else {
        let hd = x[i].deep_clone();
        let mut tl = clone_list_from(x, i + 1);
        let ghost tl0 = tl@;
        tl.insert(0, hd);
        proof {
            assert(x@.skip(i as int)[0] == x@[i as int]);
            assert(x@.skip(i as int).drop_first() =~= x@.skip(i + 1));
            assert(tl@[0] == hd);
            assert(tl@.drop_first() =~= tl0);
        }
        tl
    }
}

/// Copies the entries of `x` from index `i` on.
fn clone_entries_from(x: &Vec<(String, JsonValue)>, i: usize) -> (r: Vec<(String, JsonValue)>)
    requires
        i <= x@.len(),
    ensures
        json_entries_eq(x@.skip(i as int), r@),
    decreases x@, x@.len() - i,
{
    proof {
        assert(x@.skip(i as int).len() == x@.len() - i);
    }
    if i == x.len() {
        Vec::new()
    } else {
        let hd = (x[i].0.clone(), x[i].1.deep_clone());
        let mut tl = clone_entries_from(x, i + 1);
        let ghost tl0 = tl@;
        tl.insert(0, hd);
        proof {
            assert(x@.skip(i as int)[0] == x@[i as int]);
            assert(x@.skip(i as int).drop_first() =~= x@.skip(i + 1));
            assert(tl@[0] == hd);
            assert(tl@.drop_first() =~= tl0);
        }
        tl
    }
}

impl Clone for JsonValue {
    /// The clone is structurally equal to the original.
    fn clone(&self) -> (r: Self)
        ensures
            json_eq(*self, r),
    {
        self.deep_clone()
    }
}

impl Clone for ArgValue {
    /// The clone has the same variant and an equal payload.
    fn clone(&self) -> (r: Self)
        ensures
            arg_eq(*self, r),
    {
        match self {
            ArgValue::Int(i) => ArgValue::Int(*i),
            ArgValue::String(s) => ArgValue::String(s.clone()),
            ArgValue::Json(j) => ArgValue::Json(j.deep_clone()),
        }
    }
}

impl PartialEq for JsonValue {
    fn eq(&self, other: &JsonValue) -> (r: bool)
        ensures
            r == json_eq(*self, *other),
    {
        self.deep_eq(other)
    }
}

impl vstd::std_specs::cmp::PartialEqSpecImpl for JsonValue {
    open spec fn obeys_eq_spec() -> bool {
        true
    }

    open spec fn eq_spec(&self, other: &JsonValue) -> bool {
        json_eq(*self, *other)
    }
}

impl Eq for JsonValue {

}

impl PartialEq for ArgValue {
    fn eq(&self, other: &ArgValue) -> (r: bool)
        ensures
            r == arg_eq(*self, *other),
    {
        match (self, other) {
            (ArgValue::Int(x), ArgValue::Int(y)) => *x == *y,
            (ArgValue::String(x), ArgValue::String(y)) => *x == *y,
            (ArgValue::Json(x), ArgValue::Json(y)) => x.deep_eq(y),
            _ => false,
        }
    }
}

impl vstd::std_specs::cmp::PartialEqSpecImpl for ArgValue {
    open spec fn obeys_eq_spec() -> bool {
        true
    }

    open spec fn eq_spec(&self, other: &ArgValue) -> bool {
        arg_eq(*self, *other)
    }
}

impl Eq for ArgValue {

}

impl From<i64> for ArgValue {
    fn from(value: i64) -> (r: Self) {
        ArgValue::Int(value)
    }
}

impl vstd::std_specs::convert::FromSpecImpl<i64> for ArgValue {
    open spec fn obeys_from_spec() -> bool {
        true
    }

    open spec fn from_spec(value: i64) -> Self {
        ArgValue::Int(value)
    }
}

impl From<String> for ArgValue {
    fn from(value: String) -> (r: Self) {
        ArgValue::String(value)
    }
}

impl vstd::std_specs::convert::FromSpecImpl<String> for ArgValue {
    open spec fn obeys_from_spec() -> bool {
        true
    }

    open spec fn from_spec(value: String) -> Self {
        ArgValue::String(value)
    }
}

impl From<&str> for ArgValue {
    fn from(value: &str) -> (r: Self)
        ensures
            r matches ArgValue::String(s) && s@ == value@,
    {
        ArgValue::String(value.to_owned())
    }
}

impl vstd::std_specs::convert::FromSpecImpl<&str> for ArgValue {
    open spec fn obeys_from_spec() -> bool {
        false
    }

    open spec fn from_spec(value: &str) -> Self {
        arbitrary()
    }
}

impl From<JsonValue> for ArgValue {
    fn from(value: JsonValue) -> (r: Self) {
        ArgValue::Json(value)
    }
}

impl vstd::std_specs::convert::FromSpecImpl<JsonValue> for ArgValue {
    open spec fn obeys_from_spec() -> bool {
        true
    }

    open spec fn from_spec(value: JsonValue) -> Self {
        ArgValue::Json(value)
    }
}

} // verus!
