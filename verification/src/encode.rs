//! The canonical wire encoding.
//!
//! The target format is the length-prefixed dictionary/list/integer/string
//! encoding used by distributed peer protocols: an integer `n` is written
//! `i<decimal>e`, a string as `<byte length>:<bytes>`, a list as
//! `l<items>e`, and a dictionary as `d<entries>e` where each entry is a key
//! string followed by its value. The specification functions here define
//! that encoding as byte sequences; the executable functions append exactly
//! those bytes and are proved to do so.
//!
//! The format has no boolean, float or null primitive. A boolean is
//! degraded to the integer `1` or `0`, and null to the empty string; these
//! choices are part of this library's wire contract.

use vstd::prelude::*;

use crate::value::ArgValue;
use crate::value::JsonValue;

verus! {

/// The UTF-8 bytes of a string, the form in which it is measured and
/// written on the wire.
pub open spec fn utf8_bytes(s: Seq<char>) -> Seq<u8> {
    vstd::utf8::encode_utf8(s)
}

/// ASCII decimal digits of `n`, most significant first, no leading zeros
/// (a single `0` for zero).
pub open spec fn dec_digits(n: nat) -> Seq<u8>
    decreases n,
{
    if n < 10 {
        seq![(0x30 + n) as u8]
    } else {
        dec_digits(n / 10) + seq![(0x30 + n % 10) as u8]
    }
}

/// Decimal rendering of a signed integer: a `-` sign for negatives,
/// then the digits of the magnitude.
pub open spec fn int_literal(n: int) -> Seq<u8> {
    if n < 0 {
        seq![0x2du8] + dec_digits((-n) as nat)
    } else {
        dec_digits(n as nat)
    }
}

/// An integer on the wire: `i<decimal>e`.
pub open spec fn int_bytes(n: int) -> Seq<u8> {
    seq![0x69u8] + int_literal(n) + seq![0x65u8]
}

/// A byte string on the wire: `<decimal length>:<bytes>`.
pub open spec fn str_bytes(s: Seq<u8>) -> Seq<u8> {
    dec_digits(s.len()) + seq![0x3au8] + s
}

/// A structured value on the wire: scalars per [`int_bytes`] and
/// [`str_bytes`] (booleans as `1`/`0`, null as the empty string), a list as
/// `l<items>e`, and a mapping as `d<entries>e` with the entries in the
/// order the value itself carries, not re-sorted.
pub open spec fn json_bytes(v: JsonValue) -> Seq<u8>
    decreases v,
{
    match v {
        JsonValue::Null => str_bytes(Seq::empty()),
        JsonValue::Bool(b) => int_bytes(if b { 1int } else { 0int }),
        JsonValue::Int(i) => int_bytes(i as int),
        JsonValue::Str(s) => str_bytes(utf8_bytes(s@)),
        JsonValue::List(l) => seq![0x6cu8] + json_list_bytes(l@) + seq![0x65u8],
        JsonValue::Dict(d) => seq![0x64u8] + json_dict_bytes(d@) + seq![0x65u8],
    }
}

/// The concatenated encodings of a sequence of structured values.
pub open spec fn json_list_bytes(l: Seq<JsonValue>) -> Seq<u8>
    decreases l,
{
    if l.len() == 0 {
        Seq::empty()
    } else {
        json_bytes(l[0]) + json_list_bytes(l.drop_first())
    }
}

/// The concatenated encodings of a sequence of mapping entries: each key
/// as a string, then its value.
pub open spec fn json_dict_bytes(d: Seq<(String, JsonValue)>) -> Seq<u8>
    decreases d,
{
    if d.len() == 0 {
        Seq::empty()
    } else {
        str_bytes(utf8_bytes(d[0].0@)) + json_bytes(d[0].1) + json_dict_bytes(d.drop_first())
    }
}

/// An argument value on the wire, by its kind.
pub open spec fn arg_value_bytes(v: ArgValue) -> Seq<u8> {
    match v {
        ArgValue::Int(i) => int_bytes(i as int),
        ArgValue::String(s) => str_bytes(utf8_bytes(s@)),
        ArgValue::Json(j) => json_bytes(j),
    }
}

/// The concatenated encodings of argument map entries: each name as a
/// string, then its value.
pub open spec fn entries_bytes(s: Seq<(String, ArgValue)>) -> Seq<u8>
    decreases s,
{
    if s.len() == 0 {
        Seq::empty()
    } else {
        str_bytes(utf8_bytes(s[0].0@)) + arg_value_bytes(s[0].1) + entries_bytes(s.drop_first())
    }
}

/// A whole argument map on the wire: a dictionary holding its entries in
/// the order of `s`.
pub open spec fn args_bytes(s: Seq<(String, ArgValue)>) -> Seq<u8> {
    seq![0x64u8] + entries_bytes(s) + seq![0x65u8]
}

/// The canonical encoding respects structural equality: two structurally
/// equal structured values — equal contents, however the owning `String`s
/// and `Vec`s were obtained — always yield byte-identical output.
pub proof fn lemma_json_eq_same_bytes(a: JsonValue, b: JsonValue)
    requires
        crate::value::json_eq(a, b),
    ensures
        json_bytes(a) == json_bytes(b),
    decreases a,
{
    match (a, b) {
        (JsonValue::List(x), JsonValue::List(y)) => {
            lemma_json_seq_eq_same_bytes(x@, y@);
        },
        (JsonValue::Dict(x), JsonValue::Dict(y)) => {
            lemma_json_entries_eq_same_bytes(x@, y@);
        },
        _ => {
        },
    }
}

/// Element-wise structurally equal value sequences encode identically.
proof fn lemma_json_seq_eq_same_bytes(a: Seq<JsonValue>, b: Seq<JsonValue>)
    requires
        crate::value::json_seq_eq(a, b),
    ensures
        json_list_bytes(a) == json_list_bytes(b),
    decreases a,
{
    if a.len() > 0 {
        lemma_json_eq_same_bytes(a[0], b[0]);
        lemma_json_seq_eq_same_bytes(a.drop_first(), b.drop_first());
    }
}

/// Entry-wise structurally equal mapping entries encode identically.
proof fn lemma_json_entries_eq_same_bytes(a: Seq<(String, JsonValue)>, b: Seq<(String, JsonValue)>)
    requires
        crate::value::json_entries_eq(a, b),
    ensures
        json_dict_bytes(a) == json_dict_bytes(b),
    decreases a,
{
    if a.len() > 0 {
        lemma_json_eq_same_bytes(a[0].1, b[0].1);
        lemma_json_entries_eq_same_bytes(a.drop_first(), b.drop_first());
    }
}

/// Equal argument values encode identically, whatever their kind.
pub proof fn lemma_arg_eq_same_bytes(a: ArgValue, b: ArgValue)
    requires
        crate::value::arg_eq(a, b),
    ensures
        arg_value_bytes(a) == arg_value_bytes(b),
{
    match (a, b) {
        (ArgValue::Json(x), ArgValue::Json(y)) => {
            lemma_json_eq_same_bytes(x, y);
        },
        _ => {
        },
    }
}

/// Appends the ASCII decimal digits of `n`.
pub(crate) fn push_digits(out: &mut Vec<u8>, n: u64)
    ensures
        final(out)@ == old(out)@ + dec_digits(n as nat),
    decreases n,
{
    if n < 10 {
        out.push(0x30 + n as u8);
        proof {
            assert(old(out)@.push((0x30 + n as nat) as u8) =~= old(out)@ + dec_digits(n as nat));
        }
    } else {
        push_digits(out, n / 10);
        let d: u8 = (n % 10) as u8;
        out.push(0x30 + d);
        proof {
            assert((old(out)@ + dec_digits((n / 10) as nat)).push((0x30 + n as nat % 10) as u8)
                =~= old(out)@ + dec_digits(n as nat));
        }
    }
}

/// Appends the decimal rendering of `n`, sign included.
pub(crate) fn push_int_literal(out: &mut Vec<u8>, n: i64)
    ensures
        final(out)@ == old(out)@ + int_literal(n as int),
{
    if n >= 0 {
        push_digits(out, n as u64);
    } else {
        out.push(0x2du8);
        let m: i128 = -(n as i128);
        push_digits(out, m as u64);
        proof {
            assert((old(out)@.push(0x2du8)) + dec_digits((-(n as int)) as nat) =~= old(out)@
                + int_literal(n as int));
        }
    }
}

/// Appends `i<decimal>e`.
pub(crate) fn push_int(out: &mut Vec<u8>, n: i64)
    ensures
        final(out)@ == old(out)@ + int_bytes(n as int),
{
    out.push(0x69u8);
    push_int_literal(out, n);
    out.push(0x65u8);
    proof {
        assert((old(out)@.push(0x69u8) + int_literal(n as int)).push(0x65u8) =~= old(out)@ + int_bytes(
            n as int,
        ));
    }
}

/// Appends the bytes of `s` unchanged.
pub(crate) fn push_bytes(out: &mut Vec<u8>, s: &[u8])
    ensures
        final(out)@ == old(out)@ + s@,
{
    let len: usize = s.len();
    let mut i: usize = 0;
    while i < len
        invariant
            len == s@.len(),
            i <= len,
            out@ == old(out)@ + s@.take(i as int),
        decreases len - i,
    {
        out.push(s[i]);
        proof {
            assert((old(out)@ + s@.take(i as int)).push(s@[i as int]) =~= old(out)@ + s@.take(
                i + 1,
            ));
        }
        i = i + 1;
    }
    proof {
        assert(s@.take(len as int) =~= s@);
    }
}

/// Appends `<decimal length>:<bytes>`.
pub(crate) fn push_str_bytes(out: &mut Vec<u8>, s: &[u8])
    ensures
        final(out)@ == old(out)@ + str_bytes(s@),
{
    let len: usize = s.len();
    push_digits(out, len as u64);
    out.push(0x3au8);
    push_bytes(out, s);
    proof {
        assert(((old(out)@ + dec_digits(s@.len())).push(0x3au8)) + s@ =~= old(out)@ + str_bytes(s@));
    }
}

/// Appends the canonical encoding of one structured value.
pub(crate) fn push_json(out: &mut Vec<u8>, v: &JsonValue)
    ensures
        final(out)@ == old(out)@ + json_bytes(*v),
    decreases *v, 0int,
{
    match v {
        JsonValue::Null => {
            out.push(0x30u8);
            out.push(0x3au8);
            proof {
                assert(old(out)@.push(0x30u8).push(0x3au8) =~= old(out)@ + str_bytes(Seq::empty()));
            }
        },
        JsonValue::Bool(b) => {
            let n: i64 = if *b {
                1
            } else {
                0
            };
            push_int(out, n);
        },
        JsonValue::Int(i) => {
            push_int(out, *i);
        },
        JsonValue::Str(s) => {
            push_str_bytes(out, s.as_str().as_bytes());
        },
        JsonValue::List(l) => {
            out.push(0x6cu8);
            push_json_list_from(out, l, 0);
            out.push(0x65u8);
            proof {
                assert(l@.skip(0) =~= l@);
                assert((old(out)@.push(0x6cu8) + json_list_bytes(l@)).push(0x65u8) =~= old(out)@
                    + json_bytes(*v));
            }
        },
        JsonValue::Dict(d) => {
            out.push(0x64u8);
            push_json_dict_from(out, d, 0);
            out.push(0x65u8);
            proof {
                assert(d@.skip(0) =~= d@);
                assert((old(out)@.push(0x64u8) + json_dict_bytes(d@)).push(0x65u8) =~= old(out)@
                    + json_bytes(*v));
            }
        },
    }
}

/// Appends the encodings of the values of `x` from index `i` on.
fn push_json_list_from(out: &mut Vec<u8>, x: &Vec<JsonValue>, i: usize)
    requires
        i <= x@.len(),
    ensures
        final(out)@ == old(out)@ + json_list_bytes(x@.skip(i as int)),
    decreases x@, x@.len() - i,
{
    if i < x.len() {
        push_json(out, &x[i]);
        push_json_list_from(out, x, i + 1);
        proof {
            assert(x@.skip(i as int)[0] == x@[i as int]);
            assert(x@.skip(i as int).drop_first() =~= x@.skip(i + 1));
            assert((old(out)@ + json_bytes(x@[i as int])) + json_list_bytes(x@.skip(i + 1))
                =~= old(out)@ + json_list_bytes(x@.skip(i as int)));
        }
    } else {
        proof {
            assert(x@.skip(i as int).len() == 0);
            assert(out@ =~= out@ + json_list_bytes(x@.skip(i as int)));
        }
    }
}

/// Appends the encodings of the entries of `x` from index `i` on.
fn push_json_dict_from(out: &mut Vec<u8>, x: &Vec<(String, JsonValue)>, i: usize)
    requires
        i <= x@.len(),
    ensures
        final(out)@ == old(out)@ + json_dict_bytes(x@.skip(i as int)),
    decreases x@, x@.len() - i,
{
    if i < x.len() {
        push_str_bytes(out, x[i].0.as_str().as_bytes());
        push_json(out, &x[i].1);
        push_json_dict_from(out, x, i + 1);
        proof {
            assert(x@.skip(i as int)[0] == x@[i as int]);
            assert(x@.skip(i as int).drop_first() =~= x@.skip(i + 1));
            assert(((old(out)@ + str_bytes(utf8_bytes(x@[i as int].0@))) + json_bytes(
                x@[i as int].1,
            )) + json_dict_bytes(x@.skip(i + 1)) =~= old(out)@ + json_dict_bytes(
                x@.skip(i as int),
            ));
        }
    } else {
        proof {
            assert(x@.skip(i as int).len() == 0);
            assert(out@ =~= out@ + json_dict_bytes(x@.skip(i as int)));
        }
    }
}

/// Appends the encoding of one argument value, by its kind.
pub(crate) fn push_arg_value(out: &mut Vec<u8>, v: &ArgValue)
    ensures
        final(out)@ == old(out)@ + arg_value_bytes(*v),
{
    match v {
        ArgValue::Int(i) => {
            push_int(out, *i);
        },
        ArgValue::String(s) => {
            push_str_bytes(out, s.as_str().as_bytes());
        },
        ArgValue::Json(j) => {
            push_json(out, j);
        },
    }
}

/// Appends the encodings of the argument map entries of `x` from index `i`
/// on: each name, then its value.
pub(crate) fn push_entries_from(out: &mut Vec<u8>, x: &Vec<(String, ArgValue)>, i: usize)
    requires
        i <= x@.len(),
    ensures
        final(out)@ == old(out)@ + entries_bytes(x@.skip(i as int)),
    decreases x@.len() - i,
{
    if i < x.len() {
        push_str_bytes(out, x[i].0.as_str().as_bytes());
        push_arg_value(out, &x[i].1);
        push_entries_from(out, x, i + 1);
        proof {
            assert(x@.skip(i as int)[0] == x@[i as int]);
            assert(x@.skip(i as int).drop_first() =~= x@.skip(i + 1));
            assert(((old(out)@ + str_bytes(utf8_bytes(x@[i as int].0@))) + arg_value_bytes(
                x@[i as int].1,
            )) + entries_bytes(x@.skip(i + 1)) =~= old(out)@ + entries_bytes(x@.skip(i as int)));
        }
    } else {
        proof {
            assert(x@.skip(i as int).len() == 0);
            assert(out@ =~= out@ + entries_bytes(x@.skip(i as int)));
        }
    }
}

} // verus!
