//! Remote function argument list.
//!
//! An [`ArgValues`] owns an ordered collection of name/value pairs. Its
//! invariant is load-bearing: the stored entries are kept in strictly
//! ascending byte-wise lexicographic order of their names at all times, so
//! the serialized dictionary is canonical no matter in which order the
//! entries were added or re-added. Adding an entry under an existing name
//! replaces it (last write wins).

use vstd::prelude::*;

use crate::encode::args_bytes;
use crate::encode::entries_bytes;
use crate::encode::lemma_arg_eq_same_bytes;
use crate::encode::push_entries_from;
use crate::encode::utf8_bytes;
use crate::order::KeyOrder;
use crate::order::lemma_lex_lt_irrefl;
use crate::order::lemma_lex_lt_trans;
use crate::order::lemma_lex_lt_trichotomy;
use crate::order::lex_cmp;
use crate::order::lex_lt;
use crate::value::ArgName;
use crate::value::ArgValue;
use crate::value::arg_eq;

verus! {

/// The bytes under which an entry's name is ordered and written.
pub open spec fn entry_key(e: (String, ArgValue)) -> Seq<u8> {
    utf8_bytes(e.0@)
}

/// The names of `s` are in strictly ascending byte-wise lexicographic
/// order (and hence unique).
pub open spec fn sorted_keys(s: Seq<(String, ArgValue)>) -> bool {
    forall|i: int, j: int|
        0 <= i < j < s.len() ==> lex_lt(entry_key(#[trigger] s[i]), entry_key(#[trigger] s[j]))
}

/// Insert-or-replace into an entry sequence ordered by name: a new name is
/// placed before the first larger one, an existing name has its entry
/// replaced in place.
pub open spec fn spec_insert(s: Seq<(String, ArgValue)>, name: String, value: ArgValue) -> Seq<
    (String, ArgValue),
>
    decreases s.len(),
{
    if s.len() == 0 {
        seq![(name, value)]
    } else if lex_lt(utf8_bytes(name@), entry_key(s[0])) {
        seq![(name, value)] + s
    } else if utf8_bytes(name@) == entry_key(s[0]) {
        seq![(name, value)] + s.drop_first()
    } else {
        seq![s[0]] + spec_insert(s.drop_first(), name, value)
    }
}

/// An insertion yields one entry more, or replaces one; never an empty
/// sequence.
pub proof fn lemma_spec_insert_len(s: Seq<(String, ArgValue)>, name: String, value: ArgValue)
    ensures
        s.len() <= spec_insert(s, name, value).len() <= s.len() + 1,
    decreases s.len(),
{
    if s.len() == 0 {
    } else if lex_lt(utf8_bytes(name@), entry_key(s[0])) {
    } else if utf8_bytes(name@) == entry_key(s[0]) {
    } else {
        lemma_spec_insert_len(s.drop_first(), name, value);
    }
}

/// Every name in an insertion's result is the inserted name or one already
/// present.
proof fn lemma_spec_insert_keys(s: Seq<(String, ArgValue)>, name: String, value: ArgValue)
    ensures
        forall|j: int|
            0 <= j < spec_insert(s, name, value).len() ==> entry_key(
                #[trigger] spec_insert(s, name, value)[j],
            ) == utf8_bytes(name@) || exists|i: int|
                0 <= i < s.len() && entry_key(spec_insert(s, name, value)[j]) == entry_key(s[i]),
    decreases s.len(),
{
    let r = spec_insert(s, name, value);
    if s.len() == 0 {
    } else if lex_lt(utf8_bytes(name@), entry_key(s[0])) {
        assert forall|j: int| 0 <= j < r.len() && entry_key(#[trigger] r[j]) != utf8_bytes(name@)
            implies exists|i: int| 0 <= i < s.len() && entry_key(r[j]) == entry_key(s[i]) by {
            assert(r[j] == s[j - 1]);
        }
    } else if utf8_bytes(name@) == entry_key(s[0]) {
        assert forall|j: int| 0 <= j < r.len() && entry_key(#[trigger] r[j]) != utf8_bytes(name@)
            implies exists|i: int| 0 <= i < s.len() && entry_key(r[j]) == entry_key(s[i]) by {
            assert(r[j] == s.drop_first()[j - 1]);
            assert(s.drop_first()[j - 1] == s[j]);
        }
    } else {
        lemma_spec_insert_keys(s.drop_first(), name, value);
        let t = spec_insert(s.drop_first(), name, value);
        assert forall|j: int| 0 <= j < r.len() && entry_key(#[trigger] r[j]) != utf8_bytes(name@)
            implies exists|i: int| 0 <= i < s.len() && entry_key(r[j]) == entry_key(s[i]) by {
            if j == 0 {
                assert(entry_key(r[0]) == entry_key(s[0]));
            } else {
                assert(r[j] == t[j - 1]);
                let w = choose|i: int|
                    0 <= i < s.drop_first().len() && entry_key(t[j - 1]) == entry_key(
                        s.drop_first()[i],
                    );
                assert(s.drop_first()[w] == s[w + 1]);
            }
        }
    }
}

/// Insertion keeps the names strictly ascending, whatever the insertion
/// order of the entries so far: the serialized dictionary's keys therefore
/// appear in strictly ascending lexicographic order after any sequence of
/// additions.
pub proof fn lemma_spec_insert_sorted(s: Seq<(String, ArgValue)>, name: String, value: ArgValue)
    requires
        sorted_keys(s),
    ensures
        sorted_keys(spec_insert(s, name, value)),
    decreases s.len(),
{
    let r = spec_insert(s, name, value);
    let k = utf8_bytes(name@);
    if s.len() == 0 {
    } else if lex_lt(k, entry_key(s[0])) {
        assert forall|i: int, j: int| 0 <= i < j < r.len() implies lex_lt(
            entry_key(#[trigger] r[i]),
            entry_key(#[trigger] r[j]),
        ) by {
            if i == 0 {
                assert(r[j] == s[j - 1]);
                if j - 1 > 0 {
                    lemma_lex_lt_trans(k, entry_key(s[0]), entry_key(s[j - 1]));
                }
            } else {
                assert(r[i] == s[i - 1]);
                assert(r[j] == s[j - 1]);
            }
        }
    } else if k == entry_key(s[0]) {
        assert forall|i: int, j: int| 0 <= i < j < r.len() implies lex_lt(
            entry_key(#[trigger] r[i]),
            entry_key(#[trigger] r[j]),
        ) by {
            if i == 0 {
                assert(r[j] == s.drop_first()[j - 1]);
                assert(s.drop_first()[j - 1] == s[j]);
            } else {
                assert(r[i] == s[i]);
                assert(r[j] == s[j]);
            }
        }
    } else {
        lemma_lex_lt_trichotomy(k, entry_key(s[0]));
        assert(lex_lt(entry_key(s[0]), k));
        lemma_spec_insert_sorted(s.drop_first(), name, value);
        lemma_spec_insert_keys(s.drop_first(), name, value);
        let t = spec_insert(s.drop_first(), name, value);
        assert forall|i: int, j: int| 0 <= i < j < r.len() implies lex_lt(
            entry_key(#[trigger] r[i]),
            entry_key(#[trigger] r[j]),
        ) by {
            if i == 0 {
                assert(r[j] == t[j - 1]);
                if entry_key(t[j - 1]) == k {
                    assert(lex_lt(entry_key(s[0]), entry_key(r[j])));
                } else {
                    let w = choose|w: int|
                        0 <= w < s.drop_first().len() && entry_key(t[j - 1]) == entry_key(
                            s.drop_first()[w],
                        );
                    assert(s.drop_first()[w] == s[w + 1]);
                    assert(lex_lt(entry_key(s[0]), entry_key(s[w + 1])));
                }
            } else {
                assert(r[i] == t[i - 1]);
                assert(r[j] == t[j - 1]);
            }
        }
    }
}

/// Adding under a name and then adding under the same name again leaves
/// exactly what adding the second value alone would have left: the later
/// write fully replaces the earlier one, and the map holds a single entry
/// for that name.
pub proof fn lemma_spec_insert_overwrites(
    s: Seq<(String, ArgValue)>,
    name: String,
    v1: ArgValue,
    v2: ArgValue,
)
    ensures
        spec_insert(spec_insert(s, name, v1), name, v2) == spec_insert(s, name, v2),
    decreases s.len(),
{
    let k = utf8_bytes(name@);
    lemma_lex_lt_irrefl(k);
    if s.len() == 0 {
        assert(spec_insert(spec_insert(s, name, v1), name, v2) =~= spec_insert(s, name, v2));
    } else if lex_lt(k, entry_key(s[0])) {
        let inner = spec_insert(s, name, v1);
        assert(inner[0] == (name, v1));
        assert(inner.drop_first() =~= s);
        assert(spec_insert(inner, name, v2) =~= spec_insert(s, name, v2));
    } else if k == entry_key(s[0]) {
        let inner = spec_insert(s, name, v1);
        assert(inner[0] == (name, v1));
        assert(inner.drop_first() =~= s.drop_first());
        assert(spec_insert(inner, name, v2) =~= spec_insert(s, name, v2));
    } else {
        lemma_lex_lt_trichotomy(k, entry_key(s[0]));
        let inner = spec_insert(s, name, v1);
        assert(inner[0] == s[0]);
        assert(inner.drop_first() =~= spec_insert(s.drop_first(), name, v1));
        lemma_spec_insert_overwrites(s.drop_first(), name, v1, v2);
        assert(spec_insert(inner, name, v2) == seq![s[0]] + spec_insert(
            inner.drop_first(),
            name,
            v2,
        ));
        assert(spec_insert(inner, name, v2) =~= spec_insert(s, name, v2));
    }
}

/// The ordered case of [`lemma_spec_insert_commutes`]: the first name
/// comes strictly before the second.
proof fn lemma_spec_insert_commutes_ordered(
    s: Seq<(String, ArgValue)>,
    n1: String,
    v1: ArgValue,
    n2: String,
    v2: ArgValue,
)
    requires
        lex_lt(utf8_bytes(n1@), utf8_bytes(n2@)),
    ensures
        spec_insert(spec_insert(s, n1, v1), n2, v2) == spec_insert(spec_insert(s, n2, v2), n1, v1),
    decreases s.len(),
{
    let k1 = utf8_bytes(n1@);
    let k2 = utf8_bytes(n2@);
    lemma_lex_lt_trichotomy(k1, k2);
    if s.len() == 0 {
        let inner1 = spec_insert(s, n1, v1);
        assert(inner1 == seq![(n1, v1)]);
        assert(inner1[0] == (n1, v1));
        assert(inner1.drop_first() =~= Seq::<(String, ArgValue)>::empty());
        assert(spec_insert(inner1, n2, v2) == seq![(n1, v1)] + spec_insert(
            inner1.drop_first(),
            n2,
            v2,
        ));
        let inner2 = spec_insert(s, n2, v2);
        assert(inner2 == seq![(n2, v2)]);
        assert(inner2[0] == (n2, v2));
        assert(spec_insert(inner2, n1, v1) == seq![(n1, v1)] + inner2);
        assert(spec_insert(spec_insert(s, n1, v1), n2, v2) =~= seq![(n1, v1), (n2, v2)]);
        assert(spec_insert(spec_insert(s, n2, v2), n1, v1) =~= seq![(n1, v1), (n2, v2)]);
    } else {
        let k0 = entry_key(s[0]);
        lemma_lex_lt_trichotomy(k1, k0);
        if lex_lt(k1, k0) {
            let inner1 = spec_insert(s, n1, v1);
            assert(inner1[0] == (n1, v1));
            let inner2 = spec_insert(s, n2, v2);
            assert(inner2[0] == (n2, v2) || inner2[0] == s[0]);
            assert(lex_lt(k1, entry_key(inner2[0])));
            assert(spec_insert(inner2, n1, v1) == seq![(n1, v1)] + inner2);
            assert(spec_insert(inner1, n2, v2) == seq![(n1, v1)] + spec_insert(
                inner1.drop_first(),
                n2,
                v2,
            ));
            assert(inner1.drop_first() =~= s);
        } else if k1 == k0 {
            let inner1 = spec_insert(s, n1, v1);
            assert(inner1[0] == (n1, v1));
            assert(inner1.drop_first() =~= s.drop_first());
            let t = spec_insert(s.drop_first(), n2, v2);
            assert(spec_insert(inner1, n2, v2) == seq![(n1, v1)] + spec_insert(
                inner1.drop_first(),
                n2,
                v2,
            ));
            let inner2 = spec_insert(s, n2, v2);
            assert(inner2 == seq![s[0]] + t);
            assert(inner2[0] == s[0]);
            assert(spec_insert(inner2, n1, v1) == seq![(n1, v1)] + inner2.drop_first());
            assert(inner2.drop_first() =~= t);
            assert(spec_insert(inner1, n2, v2) =~= spec_insert(inner2, n1, v1));
        } else {
            assert(lex_lt(k0, k1));
            lemma_lex_lt_trans(k0, k1, k2);
            lemma_lex_lt_trichotomy(k2, k0);
            let t1 = spec_insert(s.drop_first(), n1, v1);
            let t2 = spec_insert(s.drop_first(), n2, v2);
            let inner1 = spec_insert(s, n1, v1);
            assert(inner1 == seq![s[0]] + t1);
            assert(inner1[0] == s[0]);
            assert(inner1.drop_first() =~= t1);
            let inner2 = spec_insert(s, n2, v2);
            assert(inner2 == seq![s[0]] + t2);
            assert(inner2[0] == s[0]);
            assert(inner2.drop_first() =~= t2);
            lemma_spec_insert_commutes_ordered(s.drop_first(), n1, v1, n2, v2);
            assert(spec_insert(inner1, n2, v2) == seq![s[0]] + spec_insert(t1, n2, v2));
            assert(spec_insert(inner2, n1, v1) == seq![s[0]] + spec_insert(t2, n1, v1));
        }
    }
}

/// Additions under two different names commute: the resulting entries are
/// identical whichever of the two was added first. Together with
/// [`lemma_spec_insert_overwrites`] this makes the stored entries, and
/// hence the serialized bytes, independent of construction order: the same
/// logical map always serializes to byte-identical output.
pub proof fn lemma_spec_insert_commutes(
    s: Seq<(String, ArgValue)>,
    n1: String,
    v1: ArgValue,
    n2: String,
    v2: ArgValue,
)
    requires
        utf8_bytes(n1@) != utf8_bytes(n2@),
    ensures
        spec_insert(spec_insert(s, n1, v1), n2, v2) == spec_insert(spec_insert(s, n2, v2), n1, v1),
{
    lemma_lex_lt_trichotomy(utf8_bytes(n1@), utf8_bytes(n2@));
    if lex_lt(utf8_bytes(n1@), utf8_bytes(n2@)) {
        lemma_spec_insert_commutes_ordered(s, n1, v1, n2, v2);
    } else {
        lemma_spec_insert_commutes_ordered(s, n2, v2, n1, v1);
    }
}

/// Where the first `pos` names all come before the inserted name, the
/// insertion replaces in place (name already at `pos`) or splices the new
/// entry in at `pos` (next name larger, or end reached).
proof fn lemma_spec_insert_at(s: Seq<(String, ArgValue)>, name: String, value: ArgValue, pos: int)
    requires
        0 <= pos <= s.len(),
        forall|j: int| 0 <= j < pos ==> lex_lt(entry_key(#[trigger] s[j]), utf8_bytes(name@)),
    ensures
        pos < s.len() && entry_key(s[pos]) == utf8_bytes(name@) ==> spec_insert(s, name, value)
            == s.update(pos, (name, value)),
        (pos == s.len() || lex_lt(utf8_bytes(name@), entry_key(s[pos]))) ==> spec_insert(
            s,
            name,
            value,
        ) == s.take(pos) + seq![(name, value)] + s.skip(pos),
    decreases pos,
{
    let k = utf8_bytes(name@);
    if pos == 0 {
        if pos < s.len() && entry_key(s[pos]) == k {
            lemma_lex_lt_irrefl(k);
            assert(spec_insert(s, name, value) =~= s.update(0, (name, value)));
        }
        if pos == s.len() || lex_lt(k, entry_key(s[pos])) {
            assert(spec_insert(s, name, value) =~= s.take(0) + seq![(name, value)] + s.skip(0));
        }
    } else {
        assert(lex_lt(entry_key(s[0]), k));
        lemma_lex_lt_trichotomy(entry_key(s[0]), k);
        assert(forall|j: int|
            0 <= j < pos - 1 ==> lex_lt(entry_key(#[trigger] s.drop_first()[j]), k));
        lemma_spec_insert_at(s.drop_first(), name, value, pos - 1);
        let t = spec_insert(s.drop_first(), name, value);
        assert(spec_insert(s, name, value) == seq![s[0]] + t);
        if pos < s.len() && entry_key(s[pos]) == k {
            assert(s.drop_first()[pos - 1] == s[pos]);
            assert(t == s.drop_first().update(pos - 1, (name, value)));
            assert(seq![s[0]] + s.drop_first().update(pos - 1, (name, value)) =~= s.update(
                pos,
                (name, value),
            ));
        }
        if pos == s.len() || lex_lt(k, entry_key(s[pos])) {
            if pos < s.len() {
                assert(s.drop_first()[pos - 1] == s[pos]);
            }
            assert(t == s.drop_first().take(pos - 1) + seq![(name, value)] + s.drop_first().skip(
                pos - 1,
            ));
            assert(seq![s[0]] + (s.drop_first().take(pos - 1) + seq![(name, value)]
                + s.drop_first().skip(pos - 1)) =~= s.take(pos) + seq![(name, value)] + s.skip(
                pos,
            ));
        }
    }
}

/// Serialization is deterministic: the canonical bytes are a function of
/// the stored entries alone, so two maps holding the same entries — by
/// [`lemma_spec_insert_overwrites`] and [`lemma_spec_insert_commutes`],
/// any two maps built by add-sequences with the same last write per name —
/// serialize to byte-identical output.
pub proof fn lemma_serialize_deterministic(a: ArgValues, b: ArgValues)
    requires
        a@ == b@,
    ensures
        args_bytes(a@) == args_bytes(b@),
{
}

/// Finds the slot for `key` in entries sorted by name: the index of the
/// first name not below `key`, and whether that name equals `key`.
fn find_slot(entries: &Vec<(ArgName, ArgValue)>, key: &[u8]) -> (r: (usize, bool))
    requires
        sorted_keys(entries@),
    ensures
        r.0 <= entries@.len(),
        forall|j: int| 0 <= j < r.0 ==> lex_lt(entry_key(#[trigger] entries@[j]), key@),
        r.1 ==> r.0 < entries@.len() && entry_key(entries@[r.0 as int]) == key@,
        !r.1 && r.0 < entries@.len() ==> lex_lt(key@, entry_key(entries@[r.0 as int])),
{
    let n: usize = entries.len();
    let mut i: usize = 0;
    while i < n
        invariant
            n == entries@.len(),
            i <= n,
            forall|j: int| 0 <= j < i ==> lex_lt(entry_key(#[trigger] entries@[j]), key@),
        decreases n - i,
    {
        let c = lex_cmp(key, entries[i].0.as_str().as_bytes());
        match c {
            KeyOrder::Less => {
                return (i, false);
            },
            KeyOrder::Equal => {
                return (i, true);
            },
            KeyOrder::Greater => {
                i = i + 1;
            },
        }
    }
    (n, false)
}

/// Remote function argument values: an ordered mapping from argument name
/// to argument value, unique names, entries in strictly ascending
/// byte-wise lexicographic name order.
#[derive(Debug)]
pub struct ArgValues {
    entries: Vec<(ArgName, ArgValue)>,
}

impl View for ArgValues {
    type V = Seq<(String, ArgValue)>;

    closed spec fn view(&self) -> Seq<(String, ArgValue)> {
        self.entries@
    }
}

impl ArgValues {
    /// The container's invariant: names strictly ascending, hence unique.
    pub open spec fn wf(&self) -> bool {
        sorted_keys(self@)
    }

    /// New empty instance.
    pub fn new() -> (r: Self)
        ensures
            r@ == Seq::<(String, ArgValue)>::empty(),
            r.wf(),
    {
        ArgValues { entries: Vec::new() }
    }

    /// Add argument value to list: inserts under a new name, replaces
    /// under an existing one, and keeps the entries sorted by name.
    pub fn add(&mut self, name: ArgName, value: ArgValue)
        requires
            old(self).wf(),
        ensures
            final(self).wf(),
            final(self)@ == spec_insert(old(self)@, name, value),
    {
        proof {
            lemma_spec_insert_sorted(self@, name, value);
        }
        let (pos, found) = find_slot(&self.entries, name.as_str().as_bytes());
        proof {
            lemma_spec_insert_at(self@, name, value, pos as int);
        }
        if found {
            self.entries.remove(pos);
            self.entries.insert(pos, (name, value));
            proof {
                assert(old(self)@.remove(pos as int).insert(pos as int, (name, value))
                    =~= old(self)@.update(pos as int, (name, value)));
            }
        } else {
            self.entries.insert(pos, (name, value));
            proof {
                assert(old(self)@.insert(pos as int, (name, value)) =~= old(self)@.take(pos as int)
                    + seq![(name, value)] + old(self)@.skip(pos as int));
            }
        }
    }

    /// Read-only access to the stored entries, in ascending name order.
    pub fn entries(&self) -> (r: &Vec<(ArgName, ArgValue)>)
        ensures
            r@ == self@,
    {
        &self.entries
    }

    /// Serializes the map to its canonical byte encoding: a dictionary
    /// whose entries appear exactly in the stored (ascending name) order.
    ///
    /// Every value kind is representable in the wire format and the bytes
    /// are written into memory, so serialization cannot fail; only a
    /// downstream byte sink (owned by a transport layer, not by this
    /// container) could, and such a failure is that layer's to report.
    pub fn serialize(&self) -> (r: Vec<u8>)
        ensures
            r@ == args_bytes(self@),
    {
        let mut out: Vec<u8> = Vec::new();
        out.push(0x64u8);
        push_entries_from(&mut out, &self.entries, 0);
        out.push(0x65u8);
        proof {
            assert(self.entries@.skip(0) =~= self.entries@);
            assert((Seq::<u8>::empty().push(0x64u8) + entries_bytes(self@)).push(0x65u8)
                =~= args_bytes(self@));
        }
        out
    }
}

/// Entry-wise equality of two argument entry sequences: equal names (by
/// contents) and equal values, in the same order. Both maps keep their
/// entries in ascending name order, so this is equality of their logical
/// contents.
pub open spec fn arg_entries_eq(a: Seq<(String, ArgValue)>, b: Seq<(String, ArgValue)>) -> bool
    decreases a,
{
    if a.len() != b.len() {
        false
    } else if a.len() == 0 {
        true
    } else {
        a[0].0@ == b[0].0@ && arg_eq(a[0].1, b[0].1) && arg_entries_eq(
            a.drop_first(),
            b.drop_first(),
        )
    }
}

/// Entry-wise equality holds exactly when the lengths match and the
/// entries agree pairwise.
pub proof fn lemma_arg_entries_eq_elementwise(
    a: Seq<(String, ArgValue)>,
    b: Seq<(String, ArgValue)>,
)
    ensures
        arg_entries_eq(a, b) <==> (a.len() == b.len() && forall|i: int|
            0 <= i < a.len() ==> (#[trigger] a[i]).0@ == b[i].0@ && arg_eq(a[i].1, b[i].1)),
    decreases a.len(),
{
    if a.len() == b.len() && a.len() > 0 {
        lemma_arg_entries_eq_elementwise(a.drop_first(), b.drop_first());
        if arg_entries_eq(a, b) {
            assert forall|i: int| 0 <= i < a.len() implies (#[trigger] a[i]).0@ == b[i].0@
                && arg_eq(a[i].1, b[i].1) by {
                if i > 0 {
                    assert(a[i] == a.drop_first()[i - 1]);
                    assert(b[i] == b.drop_first()[i - 1]);
                }
            }
        }
        if forall|i: int| 0 <= i < a.len() ==> (#[trigger] a[i]).0@ == b[i].0@ && arg_eq(
            a[i].1,
            b[i].1,
        ) {
            assert forall|i: int|
                0 <= i < a.drop_first().len() implies (#[trigger] a.drop_first()[i]).0@
                == b.drop_first()[i].0@ && arg_eq(a.drop_first()[i].1, b.drop_first()[i].1) by {
                assert(a.drop_first()[i] == a[i + 1]);
                assert(b.drop_first()[i] == b[i + 1]);
            }
            assert(arg_entries_eq(a, b));
        }
    }
}

/// Equal entries encode identically.
proof fn lemma_arg_entries_eq_bytes(a: Seq<(String, ArgValue)>, b: Seq<(String, ArgValue)>)
    requires
        arg_entries_eq(a, b),
    ensures
        entries_bytes(a) == entries_bytes(b),
    decreases a.len(),
{
    if a.len() > 0 {
        lemma_arg_eq_same_bytes(a[0].1, b[0].1);
        lemma_arg_entries_eq_bytes(a.drop_first(), b.drop_first());
    }
}

/// Equal maps serialize to byte-identical output: maps holding the same
/// names with equal values — however their owning strings and vectors
/// were obtained — yield the same canonical bytes.
pub proof fn lemma_arg_entries_eq_same_bytes(
    a: Seq<(String, ArgValue)>,
    b: Seq<(String, ArgValue)>,
)
    requires
        arg_entries_eq(a, b),
    ensures
        args_bytes(a) == args_bytes(b),
{
    lemma_arg_entries_eq_bytes(a, b);
}

/// Equal entries under the same names carry the ordering invariant over.
pub proof fn lemma_arg_entries_eq_sorted(a: Seq<(String, ArgValue)>, b: Seq<(String, ArgValue)>)
    requires
        arg_entries_eq(a, b),
        sorted_keys(a),
    ensures
        sorted_keys(b),
{
    lemma_arg_entries_eq_elementwise(a, b);
    assert forall|i: int, j: int| 0 <= i < j < b.len() implies lex_lt(
        entry_key(#[trigger] b[i]),
        entry_key(#[trigger] b[j]),
    ) by {
        assert(entry_key(a[i]) == entry_key(b[i]));
        assert(entry_key(a[j]) == entry_key(b[j]));
    }
}

/// Compares the tails of two argument entry sequences starting at `i`.
fn arg_entries_eq_from(x: &Vec<(ArgName, ArgValue)>, y: &Vec<(ArgName, ArgValue)>, i: usize) -> (r:
    bool)
    requires
        i <= x@.len(),
        i <= y@.len(),
    ensures
        r == arg_entries_eq(x@.skip(i as int), y@.skip(i as int)),
    decreases x@.len() - i,
{
    proof {
        assert(x@.skip(i as int).len() == x@.len() - i);
        assert(y@.skip(i as int).len() == y@.len() - i);
    }
    if i == x.len() {
        i == y.len()
    } else if i == y.len() {
        false
    } else {
        proof {
            assert(x@.skip(i as int)[0] == x@[i as int]);
            assert(y@.skip(i as int)[0] == y@[i as int]);
            assert(x@.skip(i as int).drop_first() =~= x@.skip(i + 1));
            assert(y@.skip(i as int).drop_first() =~= y@.skip(i + 1));
        }
        let keys_eq = x[i].0 == y[i].0;
        if keys_eq {
            let vals_eq = x[i].1 == y[i].1;
            if vals_eq {
                arg_entries_eq_from(x, y, i + 1)
            } else {
                false
            }
        } else {
            false
        }
    }
}

impl PartialEq for ArgValues {
    /// Two maps are equal when they hold the same names with equal values.
    fn eq(&self, other: &ArgValues) -> (r: bool)
        ensures
            r == arg_entries_eq(self@, other@),
    {
        proof {
            assert(self.entries@.skip(0) =~= self.entries@);
            assert(other.entries@.skip(0) =~= other.entries@);
        }
        arg_entries_eq_from(&self.entries, &other.entries, 0)
    }
}

impl vstd::std_specs::cmp::PartialEqSpecImpl for ArgValues {
    open spec fn obeys_eq_spec() -> bool {
        true
    }

    open spec fn eq_spec(&self, other: &ArgValues) -> bool {
        arg_entries_eq(self@, other@)
    }
}

impl Eq for ArgValues {

}

impl Clone for ArgValues {
    /// The clone holds the same entries — equal names and structurally
    /// equal values, in the same order — and keeps the ordering
    /// invariant, so it serializes byte-identically to the original.
    fn clone(&self) -> (r: Self)
        ensures
            arg_entries_eq(self@, r@),
            self.wf() ==> r.wf(),
    {
        let n: usize = self.entries.len();
        let mut entries: Vec<(ArgName, ArgValue)> = Vec::new();
        let mut i: usize = 0;
        while i < n
            invariant
                n == self@.len(),
                i <= n,
                entries@.len() == i,
                forall|j: int|
                    0 <= j < i ==> (#[trigger] self@[j]).0@ == entries@[j].0@ && arg_eq(
                        self@[j].1,
                        entries@[j].1,
                    ),
            decreases n - i,
        {
            let name = self.entries[i].0.clone();
            let value = self.entries[i].1.clone();
            entries.push((name, value));
            i = i + 1;
        }
        let r = ArgValues { entries };
        proof {
            lemma_arg_entries_eq_elementwise(self@, r@);
            if self.wf() {
                lemma_arg_entries_eq_sorted(self@, r@);
            }
        }
        r
    }
}

impl Default for ArgValues {
    /// New empty instance.
    fn default() -> (r: Self)
        ensures
            r@ == Seq::<(String, ArgValue)>::empty(),
            r.wf(),
    {
        ArgValues::new()
    }
}

} // verus!
