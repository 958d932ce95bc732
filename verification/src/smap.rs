//! Name-keyed association lists kept sorted by `lex_lt`.  The model's
//! "ordered by key" containers are vectors of `(String, value)` entries
//! whose keys are strictly increasing; this module gives the spec-level
//! lookup and insert-or-overwrite on such entry sequences, the lemmas
//! that relate them, and the executable search for an entry's position.
use vstd::prelude::*;

use crate::text::lemma_lex_connex;
use crate::text::lemma_lex_irrefl;
use crate::text::lemma_lex_trans;
use crate::text::lex_lt;
use crate::text::str_eq;
use crate::text::str_lt;

verus! {

/// The view of an entry vector: each key as its character sequence,
/// each value as its own view.
pub open spec fn entries_view<T: View>(s: Seq<(String, T)>) -> Seq<(Seq<char>, T::V)> {
    s.map_values(|e: (String, T)| (e.0@, e.1@))
}

/// Keys are strictly increasing, so each key occurs once and iteration
/// order is determined by the key set.
pub open spec fn sorted_by_key<V>(s: Seq<(Seq<char>, V)>) -> bool {
    forall|i: int, j: int| 0 <= i < j < s.len() ==> lex_lt(#[trigger] s[i].0, #[trigger] s[j].0)
}

/// The value stored under a key, if any (first match).
pub open spec fn lookup<V>(s: Seq<(Seq<char>, V)>, k: Seq<char>) -> Option<V>
    decreases s.len(),
{
    if s.len() == 0 {
        None
    } else if s[0].0 == k {
        Some(s[0].1)
    } else {
        lookup(s.drop_first(), k)
    }
}

/// Insert-or-overwrite, keeping the keys sorted.
pub open spec fn upsert<V>(s: Seq<(Seq<char>, V)>, k: Seq<char>, v: V) -> Seq<(Seq<char>, V)>
    decreases s.len(),
{
    if s.len() == 0 {
        seq![(k, v)]
    } else if lex_lt(k, s[0].0) {
        seq![(k, v)] + s
    } else if s[0].0 == k {
        seq![(k, v)] + s.drop_first()
    } else {
        seq![s[0]] + upsert(s.drop_first(), k, v)
    }
}

/// A key occurring at some index is the key `lookup` finds, provided the
/// keys are sorted.
pub proof fn lemma_lookup_present<V>(s: Seq<(Seq<char>, V)>, k: Seq<char>, i: int)
    requires
        sorted_by_key(s),
        0 <= i < s.len(),
        s[i].0 == k,
    ensures
        lookup(s, k) == Some(s[i].1),
    decreases s.len(),
{
    if i == 0 {
    } else {
        assert(lex_lt(s[0].0, s[i].0));
        lemma_lex_irrefl(k);
        assert(s[0].0 != k);
        assert(sorted_by_key(s.drop_first())) by {
            assert forall|p: int, q: int| 0 <= p < q < s.drop_first().len() implies lex_lt(
                #[trigger] s.drop_first()[p].0,
                #[trigger] s.drop_first()[q].0,
            ) by {
                assert(s.drop_first()[p] == s[p + 1]);
                assert(s.drop_first()[q] == s[q + 1]);
            }
        }
        assert(s.drop_first()[i - 1] == s[i]);
        lemma_lookup_present(s.drop_first(), k, i - 1);
    }
}

/// A key at no index is a key `lookup` misses.
pub proof fn lemma_lookup_absent<V>(s: Seq<(Seq<char>, V)>, k: Seq<char>)
    requires
        forall|i: int| 0 <= i < s.len() ==> (#[trigger] s[i].0) != k,
    ensures
        lookup(s, k) is None,
    decreases s.len(),
{
    if s.len() > 0 {
        assert forall|i: int| 0 <= i < s.drop_first().len() implies (#[trigger] s.drop_first()[i].0)
            != k by {
            assert(s.drop_first()[i] == s[i + 1]);
        }
        lemma_lookup_absent(s.drop_first(), k);
    }
}

/// Restriction of sortedness to the tail.
pub proof fn lemma_sorted_tail<V>(s: Seq<(Seq<char>, V)>)
    requires
        sorted_by_key(s),
        s.len() > 0,
    ensures
        sorted_by_key(s.drop_first()),
{
    assert forall|p: int, q: int| 0 <= p < q < s.drop_first().len() implies lex_lt(
        #[trigger] s.drop_first()[p].0,
        #[trigger] s.drop_first()[q].0,
    ) by {
        assert(s.drop_first()[p] == s[p + 1]);
        assert(s.drop_first()[q] == s[q + 1]);
    }
}

/// Where `upsert` lands: at the position of the first key not below the
/// new key.  An existing equal key is overwritten, otherwise the entry
/// is inserted there.
pub proof fn lemma_upsert_at<V>(s: Seq<(Seq<char>, V)>, k: Seq<char>, v: V, pos: int)
    requires
        sorted_by_key(s),
        0 <= pos <= s.len(),
        forall|i: int| 0 <= i < pos ==> lex_lt((#[trigger] s[i]).0, k),
        pos < s.len() ==> !lex_lt(s[pos].0, k),
    ensures
        pos < s.len() && s[pos].0 == k ==> upsert(s, k, v) =~= s.take(pos) + seq![(k, v)] + s.skip(
            pos + 1,
        ),
        !(pos < s.len() && s[pos].0 == k) ==> upsert(s, k, v) =~= s.take(pos) + seq![(k, v)]
            + s.skip(pos),
    decreases s.len(),
{
    if s.len() == 0 {
    } else if pos == 0 {
        if s[0].0 == k {
            assert(upsert(s, k, v) == seq![(k, v)] + s.drop_first());
        } else {
            lemma_lex_connex(k, s[0].0);
            assert(lex_lt(k, s[0].0));
            assert(upsert(s, k, v) == seq![(k, v)] + s);
        }
    } else {
        assert(lex_lt(s[0].0, k));
        lemma_lex_irrefl(s[0].0);
        assert(s[0].0 != k);
        assert(!lex_lt(k, s[0].0)) by {
            if lex_lt(k, s[0].0) {
                lemma_lex_trans(s[0].0, k, s[0].0);
                lemma_lex_irrefl(s[0].0);
            }
        }
        lemma_sorted_tail(s);
        let st = s.drop_first();
        assert forall|i: int| 0 <= i < pos - 1 implies lex_lt((#[trigger] st[i]).0, k) by {
            assert(st[i] == s[i + 1]);
        }
        assert(pos - 1 < st.len() ==> !lex_lt(st[pos - 1].0, k)) by {
            if pos - 1 < st.len() {
                assert(st[pos - 1] == s[pos]);
            }
        }
        lemma_upsert_at(st, k, v, pos - 1);
        assert(upsert(s, k, v) == seq![s[0]] + upsert(st, k, v));
        if pos < s.len() && s[pos].0 == k {
            assert(st[pos - 1] == s[pos]);
            assert(upsert(st, k, v) =~= st.take(pos - 1) + seq![(k, v)] + st.skip(pos));
        } else {
            assert(upsert(st, k, v) =~= st.take(pos - 1) + seq![(k, v)] + st.skip(pos - 1));
        }
    }
}

/// `upsert` keeps the keys sorted.
pub proof fn lemma_upsert_sorted<V>(s: Seq<(Seq<char>, V)>, k: Seq<char>, v: V, pos: int)
    requires
        sorted_by_key(s),
        0 <= pos <= s.len(),
        forall|i: int| 0 <= i < pos ==> lex_lt((#[trigger] s[i]).0, k),
        pos < s.len() ==> !lex_lt(s[pos].0, k),
    ensures
        sorted_by_key(upsert(s, k, v)),
{
    lemma_upsert_at(s, k, v, pos);
    if pos < s.len() && s[pos].0 == k {
        let r = s.take(pos) + seq![(k, v)] + s.skip(pos + 1);
        assert forall|i: int, j: int| 0 <= i < j < r.len() implies lex_lt(
            (#[trigger] r[i]).0,
            (#[trigger] r[j]).0,
        ) by {
            if i < pos {
                assert(r[i] == s[i]);
            }
            if j < pos {
                assert(r[j] == s[j]);
            }
            if i > pos {
                assert(r[i] == s[i]);
            }
            if j > pos {
                assert(r[j] == s[j]);
            }
            if i == pos {
                assert(r[i].0 == k);
            }
            if j == pos {
                assert(r[j].0 == k);
            }
            if j == pos {
                assert(lex_lt(s[i].0, s[pos].0));
            }
            if i == pos && j > pos {
                assert(lex_lt(s[pos].0, s[j].0));
            }
        }
    } else {
        let r = s.take(pos) + seq![(k, v)] + s.skip(pos);
        assert(pos < s.len() ==> lex_lt(k, s[pos as int].0)) by {
            if pos < s.len() {
                lemma_lex_connex(k, s[pos as int].0);
            }
        }
        assert forall|i: int, j: int| 0 <= i < j < r.len() implies lex_lt(
            (#[trigger] r[i]).0,
            (#[trigger] r[j]).0,
        ) by {
            if i < pos {
                assert(r[i] == s[i]);
            }
            if j < pos {
                assert(r[j] == s[j]);
            }
            if i > pos {
                assert(r[i] == s[i - 1]);
            }
            if j > pos {
                assert(r[j] == s[j - 1]);
            }
            if i == pos {
                assert(r[i].0 == k);
            }
            if j == pos {
                assert(r[j].0 == k);
            }
            if j > pos {
                assert(lex_lt(k, s[j - 1].0)) by {
                    assert(lex_lt(k, s[pos as int].0));
                    if j - 1 > pos {
                        assert(lex_lt(s[pos as int].0, s[j - 1].0));
                        lemma_lex_trans(k, s[pos as int].0, s[j - 1].0);
                    }
                }
                if i < pos {
                    assert(lex_lt(s[i].0, k));
                    lemma_lex_trans(s[i].0, k, s[j - 1].0);
                }
            }
        }
    }
}

/// What `lookup` sees after an `upsert`: the new value under the new
/// key, everything else unchanged.
pub proof fn lemma_lookup_upsert<V>(s: Seq<(Seq<char>, V)>, k: Seq<char>, v: V, k2: Seq<char>)
    requires
        sorted_by_key(s),
    ensures
        k2 == k ==> lookup(upsert(s, k, v), k2) == Some(v),
        k2 != k ==> lookup(upsert(s, k, v), k2) == lookup(s, k2),
    decreases s.len(),
{
    if s.len() == 0 {
    } else if lex_lt(k, s[0].0) {
        assert(upsert(s, k, v) == seq![(k, v)] + s);
        let r = seq![(k, v)] + s;
        assert(r[0] == (k, v));
        assert(r.drop_first() =~= s);
        if k2 != k {
            assert(lookup(r, k2) == lookup(s, k2));
        }
    } else if s[0].0 == k {
        let r = seq![(k, v)] + s.drop_first();
        assert(upsert(s, k, v) == r);
        assert(r[0] == (k, v));
        assert(r.drop_first() =~= s.drop_first());
        if k2 != k {
            assert(lookup(r, k2) == lookup(s.drop_first(), k2));
        }
    } else {
        let r = seq![s[0]] + upsert(s.drop_first(), k, v);
        assert(upsert(s, k, v) == r);
        assert(r[0] == s[0]);
        assert(r.drop_first() =~= upsert(s.drop_first(), k, v));
        lemma_sorted_tail(s);
        lemma_lookup_upsert(s.drop_first(), k, v, k2);
        if k2 == k {
            assert(s[0].0 != k2);
        }
    }
}

/// Overwriting a key twice keeps only the second value.
pub proof fn lemma_upsert_upsert_same<V>(s: Seq<(Seq<char>, V)>, k: Seq<char>, v1: V, v2: V)
    ensures
        upsert(upsert(s, k, v1), k, v2) == upsert(s, k, v2),
    decreases s.len(),
{
    lemma_lex_irrefl(k);
    if s.len() == 0 {
        let r1 = seq![(k, v1)];
        assert(upsert(s, k, v1) == r1);
        assert(r1[0].0 == k);
        assert(r1.drop_first() =~= Seq::<(Seq<char>, V)>::empty());
        assert(upsert(r1, k, v2) == seq![(k, v2)] + r1.drop_first());
        assert(upsert(r1, k, v2) =~= seq![(k, v2)]);
    } else if lex_lt(k, s[0].0) {
        let r1 = seq![(k, v1)] + s;
        assert(upsert(s, k, v1) == r1);
        assert(r1[0] == (k, v1));
        assert(upsert(r1, k, v2) == seq![(k, v2)] + r1.drop_first());
        assert(r1.drop_first() =~= s);
    } else if s[0].0 == k {
        let r1 = seq![(k, v1)] + s.drop_first();
        assert(upsert(s, k, v1) == r1);
        assert(r1[0] == (k, v1));
        assert(upsert(r1, k, v2) == seq![(k, v2)] + r1.drop_first());
        assert(r1.drop_first() =~= s.drop_first());
    } else {
        let r1 = seq![s[0]] + upsert(s.drop_first(), k, v1);
        assert(upsert(s, k, v1) == r1);
        assert(r1[0] == s[0]);
        assert(r1.drop_first() =~= upsert(s.drop_first(), k, v1));
        lemma_upsert_upsert_same(s.drop_first(), k, v1, v2);
        assert(upsert(r1, k, v2) == seq![s[0]] + upsert(r1.drop_first(), k, v2));
        assert(upsert(s, k, v2) == seq![s[0]] + upsert(s.drop_first(), k, v2));
    }
}

/// Every value in an upserted sequence is either one of the old values
/// or the new one.
pub proof fn lemma_upsert_values<V>(s: Seq<(Seq<char>, V)>, k: Seq<char>, v: V, p: spec_fn(V) -> bool)
    requires
        forall|i: int| 0 <= i < s.len() ==> p((#[trigger] s[i]).1),
        p(v),
    ensures
        forall|i: int|
            0 <= i < upsert(s, k, v).len() ==> p((#[trigger] upsert(s, k, v)[i]).1),
    decreases s.len(),
{
    if s.len() == 0 {
        assert(upsert(s, k, v) == seq![(k, v)]);
        assert(upsert(s, k, v)[0].1 == v);
    } else if lex_lt(k, s[0].0) {
        let r = seq![(k, v)] + s;
        assert(upsert(s, k, v) == r);
        assert forall|i: int| 0 <= i < r.len() implies p((#[trigger] r[i]).1) by {
            if i == 0 {
                assert(r[0].1 == v);
            } else {
                assert(r[i] == s[i - 1]);
            }
        }
    } else if s[0].0 == k {
        let r = seq![(k, v)] + s.drop_first();
        assert(upsert(s, k, v) == r);
        assert forall|i: int| 0 <= i < r.len() implies p((#[trigger] r[i]).1) by {
            if i == 0 {
                assert(r[0].1 == v);
            } else {
                assert(r[i] == s[i]);
            }
        }
    } else {
        let tail = upsert(s.drop_first(), k, v);
        let r = seq![s[0]] + tail;
        assert(upsert(s, k, v) == r);
        assert forall|i: int| 0 <= i < s.drop_first().len() implies p(
            (#[trigger] s.drop_first()[i]).1,
        ) by {
            assert(s.drop_first()[i] == s[i + 1]);
        }
        lemma_upsert_values(s.drop_first(), k, v, p);
        assert forall|i: int| 0 <= i < r.len() implies p((#[trigger] r[i]).1) by {
            if i == 0 {
                assert(r[0].1 == s[0].1);
            } else {
                assert(r[i] == tail[i - 1]);
            }
        }
    }
}

/// A key below which every earlier key lies, and which the entry at
/// the found position (if any) does not carry, is absent altogether.
pub proof fn lemma_lower_bound_absent<V>(s: Seq<(Seq<char>, V)>, k: Seq<char>, pos: int)
    requires
        sorted_by_key(s),
        0 <= pos <= s.len(),
        forall|i: int| 0 <= i < pos ==> lex_lt((#[trigger] s[i]).0, k),
        pos < s.len() ==> !lex_lt(s[pos].0, k) && s[pos].0 != k,
    ensures
        lookup(s, k) is None,
{
    assert forall|i: int| 0 <= i < s.len() implies (#[trigger] s[i].0) != k by {
        lemma_lex_irrefl(k);
        if i > pos {
            if s[i].0 == k {
                assert(lex_lt(s[pos].0, s[i].0));
            }
        }
    }
    lemma_lookup_absent(s, k);
}

/// A property of every stored value and of the fresh value holds of
/// whatever `lookup_or` returns.
pub proof fn lemma_lookup_or_value<V>(
    s: Seq<(Seq<char>, V)>,
    k: Seq<char>,
    fresh: V,
    p: spec_fn(V) -> bool,
)
    requires
        forall|i: int| 0 <= i < s.len() ==> p((#[trigger] s[i]).1),
        p(fresh),
    ensures
        p(lookup_or(s, k, fresh)),
    decreases s.len(),
{
    if s.len() > 0 && s[0].0 != k {
        assert forall|i: int| 0 <= i < s.drop_first().len() implies p(
            (#[trigger] s.drop_first()[i]).1,
        ) by {
            assert(s.drop_first()[i] == s[i + 1]);
        }
        lemma_lookup_or_value(s.drop_first(), k, fresh, p);
    }
}

/// An entry taken out of a map: where it sat (or will sit), its key,
/// and its value.
pub struct TakenEntry<T> {
    pub pos: usize,
    pub key: String,
    pub value: T,
}

/// The value under a key, or the given fresh value when the key is
/// absent.
pub open spec fn lookup_or<V>(s: Seq<(Seq<char>, V)>, k: Seq<char>, fresh: V) -> V {
    match lookup(s, k) {
        Some(v) => v,
        None => fresh,
    }
}

/// Removes the entry under `key` from the map, handing its value out
/// for modification; a missing entry is replaced by `fresh`.  The
/// returned position, together with `put_entry`, puts the modified
/// value back where an insert-or-overwrite of the key lands.
pub fn take_entry<T: View>(entries: &mut Vec<(String, T)>, key: &str, fresh: T) -> (r: TakenEntry<
    T,
>)
    requires
        sorted_by_key(entries_view(old(entries)@)),
    ensures
        r.key@ == key@,
        r.value@ == lookup_or(entries_view(old(entries)@), key@, fresh@),
        sorted_by_key(entries_view(final(entries)@)),
        r.pos <= final(entries)@.len(),
        forall|i: int|
            0 <= i < r.pos ==> lex_lt((#[trigger] entries_view(final(entries)@)[i]).0, key@),
        r.pos < final(entries)@.len() ==> lex_lt(
            key@,
            entries_view(final(entries)@)[r.pos as int].0,
        ),
        lookup(entries_view(old(entries)@), key@) is Some ==> r.pos < old(entries)@.len()
            && entries_view(final(entries)@) =~= entries_view(old(entries)@).remove(r.pos as int)
            && entries_view(old(entries)@)[r.pos as int] == (key@, r.value@),
        lookup(entries_view(old(entries)@), key@) is None ==> final(entries)@ == old(entries)@
            && r.value@ == fresh@,
        forall|i: int|
            0 <= i < final(entries)@.len() ==> exists|j: int|
                0 <= j < old(entries)@.len() && #[trigger] final(entries)@[i] == old(entries)@[j],
{
    let ghost m0 = entries_view(entries@);
    let pos = lower_bound(entries, key);
    if pos < entries.len() && str_eq(entries[pos].0.as_str(), key) {
        proof {
            lemma_lookup_present(m0, key@, pos as int);
        }
        let e = entries.remove(pos);
        proof {
            let m1 = entries_view(entries@);
            assert(m1 =~= m0.remove(pos as int)) by {
                assert forall|i: int| 0 <= i < m1.len() implies m1[i] == m0.remove(pos as int)[i]
                by {
                    if i < pos {
                        assert(entries@[i] == old(entries)@[i]);
                    } else {
                        assert(entries@[i] == old(entries)@[i + 1]);
                    }
                }
            }
            assert(sorted_by_key(m1)) by {
                assert forall|i: int, j: int| 0 <= i < j < m1.len() implies lex_lt(
                    (#[trigger] m1[i]).0,
                    (#[trigger] m1[j]).0,
                ) by {
                    let i0: int = if i < pos { i } else { i + 1 };
                    let j0: int = if j < pos { j } else { j + 1 };
                    assert(m1[i] == m0[i0]);
                    assert(m1[j] == m0[j0]);
                }
            }
            assert(pos < entries@.len() ==> lex_lt(key@, entries_view(entries@)[pos as int].0))
                by {
                if pos < entries@.len() {
                    assert(entries_view(entries@)[pos as int] == m0[pos as int + 1]);
                    assert(lex_lt(m0[pos as int].0, m0[pos as int + 1].0));
                }
            }
            assert forall|i: int| 0 <= i < pos implies lex_lt(
                (#[trigger] entries_view(entries@)[i]).0,
                key@,
            ) by {
                assert(entries_view(entries@)[i] == m0[i]);
            }
            assert forall|i: int| 0 <= i < entries@.len() implies exists|j: int|
                0 <= j < old(entries)@.len() && #[trigger] entries@[i] == old(entries)@[j] by {
                if i < pos {
                    assert(entries@[i] == old(entries)@[i]);
                } else {
                    assert(entries@[i] == old(entries)@[i + 1]);
                }
            }
        }
        TakenEntry { pos, key: e.0, value: e.1 }
    } else {
        proof {
            assert forall|i: int| 0 <= i < m0.len() implies (#[trigger] m0[i].0) != key@ by {
                lemma_lex_irrefl(key@);
                if i < pos {
                } else if i == pos {
                    lemma_lex_connex(m0[i].0, key@);
                } else {
                    assert(lex_lt(m0[pos as int].0, m0[i].0));
                    lemma_lex_connex(m0[pos as int].0, key@);
                    if lex_lt(m0[i].0, key@) {
                        lemma_lex_trans(m0[pos as int].0, m0[i].0, key@);
                    }
                    lemma_lex_connex(m0[i].0, key@);
                }
            }
            lemma_lookup_absent(m0, key@);
            if pos < entries@.len() {
                lemma_lex_connex(m0[pos as int].0, key@);
            }
        }
        let owned_key = key_to_string(key);
        TakenEntry { pos, key: owned_key, value: fresh }
    }
}

/// Copies a borrowed key into an owned string.
fn key_to_string(key: &str) -> (r: String)
    ensures
        r@ == key@,
{
    let mut out = String::new();
    out.append(key);
    out
}

/// Puts a taken entry back: the result is exactly the
/// insert-or-overwrite of the key in the map the entry was taken from.
pub fn put_entry<T: View>(
    entries: &mut Vec<(String, T)>,
    r: TakenEntry<T>,
    Ghost(m0): Ghost<Seq<(Seq<char>, T::V)>>,
)
    requires
        sorted_by_key(m0),
        sorted_by_key(entries_view(old(entries)@)),
        r.pos <= old(entries)@.len(),
        forall|i: int|
            0 <= i < r.pos ==> lex_lt((#[trigger] entries_view(old(entries)@)[i]).0, r.key@),
        r.pos < old(entries)@.len() ==> lex_lt(
            r.key@,
            entries_view(old(entries)@)[r.pos as int].0,
        ),
        lookup(m0, r.key@) is Some ==> r.pos < m0.len() && entries_view(old(entries)@)
            == m0.remove(r.pos as int) && m0[r.pos as int].0 == r.key@,
        lookup(m0, r.key@) is None ==> entries_view(old(entries)@) == m0,
    ensures
        entries_view(final(entries)@) == upsert(m0, r.key@, r.value@),
        sorted_by_key(entries_view(final(entries)@)),
{
    let ghost mid = entries_view(old(entries)@);
    let ghost k = r.key@;
    let ghost v = r.value@;
    proof {
        lemma_lex_irrefl(k);
        if lookup(m0, k) is Some {
            assert forall|i: int| 0 <= i < r.pos implies lex_lt((#[trigger] m0[i]).0, k) by {
                assert(m0.remove(r.pos as int)[i] == m0[i]);
            }
            lemma_upsert_at(m0, k, v, r.pos as int);
        } else {
            assert forall|i: int| 0 <= i < r.pos implies lex_lt((#[trigger] m0[i]).0, k) by {
                assert(m0[i] == mid[i]);
            }
            assert(r.pos < m0.len() ==> !lex_lt(m0[r.pos as int].0, k)) by {
                if (r.pos as int) < m0.len() {
                    lemma_lex_irrefl(m0[r.pos as int].0);
                    if lex_lt(m0[r.pos as int].0, k) {
                        lemma_lex_trans(m0[r.pos as int].0, k, m0[r.pos as int].0);
                    }
                }
            }
            lemma_upsert_at(m0, k, v, r.pos as int);
        }
        lemma_upsert_sorted(m0, k, v, r.pos as int);
    }
    let pos = r.pos;
    entries.insert(pos, (r.key, r.value));
    proof {
        let m1 = entries_view(entries@);
        assert(m1 =~= mid.insert(pos as int, (k, v))) by {
            assert forall|i: int| 0 <= i < m1.len() implies m1[i] == mid.insert(
                pos as int,
                (k, v),
            )[i] by {
                if i < pos {
                    assert(entries@[i] == old(entries)@[i]);
                } else if i == pos {
                } else {
                    assert(entries@[i] == old(entries)@[i - 1]);
                }
            }
        }
        if lookup(m0, k) is Some {
            assert(m1 =~= m0.take(pos as int) + seq![(k, v)] + m0.skip(pos as int + 1));
        } else {
            assert(m1 =~= m0.take(pos as int) + seq![(k, v)] + m0.skip(pos as int));
        }
    }
}

/// Finds the position of the first key not below `key`: the position an
/// `upsert` of `key` lands at, and the only position an entry with that
/// key can occupy.
pub fn lower_bound<T: View>(entries: &Vec<(String, T)>, key: &str) -> (pos: usize)
    requires
        sorted_by_key(entries_view(entries@)),
    ensures
        pos <= entries@.len(),
        forall|i: int| 0 <= i < pos ==> lex_lt((#[trigger] entries@[i]).0@, key@),
        pos < entries@.len() ==> !lex_lt(entries@[pos as int].0@, key@),
{
    let n = entries.len();
    let mut pos: usize = 0;
    while pos < n
        invariant
            pos <= n,
            n == entries@.len(),
            forall|i: int| 0 <= i < pos ==> lex_lt((#[trigger] entries@[i]).0@, key@),
        decreases n - pos,
    {
        if !str_lt(entries[pos].0.as_str(), key) {
            return pos;
        }
        pos = pos + 1;
    }
    pos
}

} // verus!
