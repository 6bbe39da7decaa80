//! The cross-scope merge: a layered, override-aware flattening of the three
//! scopes' entry lists.
//!
//! Scopes are processed lowest precedence first (System, Global, Local),
//! each scope's entries in file order. A key seen for the first time becomes
//! the current winner; a key seen again pushes a history record — the
//! previous winner stamped with the scope that superseded it — and the new
//! entry becomes the winner. The result lists every superseded entry first,
//! in the order the overrides happened, then the final winners in the order
//! their keys first appeared.
//!
//! A scope that itself repeats a key is treated exactly the same way: the
//! earlier occurrence is recorded as overridden by that same scope. This
//! keeps every occurrence visible in the output; the cross-scope laws below
//! are therefore stated for inputs whose scopes do not repeat keys.

use vstd::prelude::*;
use crate::entry::{ConfigEntry, EntrySpec};
use crate::scope::{rank, Scope};

verus! {

/// `e` stamped as superseded by an entry of scope `s`.
pub open spec fn entry_with_override(e: EntrySpec, s: Scope) -> EntrySpec {
    EntrySpec { key: e.key, value: e.value, scope: e.scope, overridden_by: Some(s) }
}

/// Index of the last entry of `s` whose key is `key`, or -1 when no entry
/// has that key.
pub open spec fn key_index(s: Seq<EntrySpec>, key: Seq<char>) -> int
    decreases s.len(),
{
    if s.len() == 0 {
        -1
    } else if s.last().key == key {
        s.len() - 1
    } else {
        key_index(s.drop_last(), key)
    }
}

/// Whether some entry of `s` has key `key`.
pub open spec fn has_key(s: Seq<EntrySpec>, key: Seq<char>) -> bool {
    key_index(s, key) >= 0
}

/// State of the merge after processing `s`: the history of superseded
/// entries, and the effective mapping as a key-unique list of winners.
pub open spec fn merge_state(s: Seq<EntrySpec>) -> (Seq<EntrySpec>, Seq<EntrySpec>)
    decreases s.len(),
{
    if s.len() == 0 {
        (Seq::empty(), Seq::empty())
    } else {
        let prev = merge_state(s.drop_last());
        let e = s.last();
        let i = key_index(prev.1, e.key);
        if i >= 0 {
            (prev.0.push(entry_with_override(prev.1[i], e.scope)), prev.1.update(i, e))
        } else {
            (prev.0, prev.1.push(e))
        }
    }
}

/// The merged view of `s`: superseded entries first, winners last.
pub open spec fn merged_spec(s: Seq<EntrySpec>) -> Seq<EntrySpec> {
    merge_state(s).0 + merge_state(s).1
}

/// Every entry of `s` belongs to scope `sc` and carries no override mark,
/// as a plain single-scope read produces it.
pub open spec fn tagged(s: Seq<EntrySpec>, sc: Scope) -> bool {
    forall|i: int| 0 <= i < s.len() ==> (#[trigger] s[i]).scope == sc && s[i].overridden_by is None
}

/// No key occurs twice in `s`.
pub open spec fn unique_keys(s: Seq<EntrySpec>) -> bool {
    forall|i: int, j: int| 0 <= i < j < s.len() ==> (#[trigger] s[i]).key != (#[trigger] s[j]).key
}

proof fn lemma_key_index_bounds(s: Seq<EntrySpec>, key: Seq<char>)
    ensures
        -1 <= key_index(s, key) < s.len(),
        key_index(s, key) >= 0 ==> s[key_index(s, key)].key == key,
        key_index(s, key) >= 0 ==> forall|m: int| key_index(s, key) < m < s.len()
            ==> (#[trigger] s[m]).key != key,
        key_index(s, key) == -1 ==> forall|m: int| 0 <= m < s.len()
            ==> (#[trigger] s[m]).key != key,
    decreases s.len(),
{
    if s.len() > 0 && s.last().key != key {
        lemma_key_index_bounds(s.drop_last(), key);
        assert forall|m: int| 0 <= m < s.len() - 1 implies #[trigger] s[m] == s.drop_last()[m] by {
        }
    }
}

/// An entry with the key is present, so the key is found.
proof fn lemma_key_index_present(s: Seq<EntrySpec>, key: Seq<char>, i: int)
    requires
        0 <= i < s.len(),
        s[i].key == key,
    ensures
        key_index(s, key) >= i,
    decreases s.len(),
{
    if s.last().key != key {
        lemma_key_index_present(s.drop_last(), key, i);
    }
}

/// In a key-unique list the found index is the only index with the key.
proof fn lemma_key_index_unique(s: Seq<EntrySpec>, key: Seq<char>, i: int)
    requires
        unique_keys(s),
        0 <= i < s.len(),
        s[i].key == key,
    ensures
        key_index(s, key) == i,
{
    lemma_key_index_present(s, key, i);
    lemma_key_index_bounds(s, key);
    let f = key_index(s, key);
    if f != i {
        assert(s[i].key == s[f].key);
    }
}

/// How `key_index` looks through a concatenation.
proof fn lemma_key_index_concat(x: Seq<EntrySpec>, y: Seq<EntrySpec>, key: Seq<char>)
    ensures
        key_index(y, key) >= 0 ==> key_index(x + y, key) == x.len() + key_index(y, key),
        key_index(y, key) == -1 ==> key_index(x + y, key) == key_index(x, key),
    decreases y.len(),
{
    if y.len() == 0 {
        assert(x + y =~= x);
    } else {
        assert((x + y).drop_last() =~= x + y.drop_last());
        lemma_key_index_concat(x, y.drop_last(), key);
    }
}

/// Joint shape of the merge state: the effective list holds, once per key,
/// the last occurrence of every key of the input; every history record is an
/// earlier occurrence stamped with the scope of a later occurrence of its key.
proof fn lemma_merge_state_inv(s: Seq<EntrySpec>)
    ensures
        unique_keys(merge_state(s).1),
        merge_state(s).0.len() + merge_state(s).1.len() == s.len(),
        forall|i: int| 0 <= i < merge_state(s).1.len()
            ==> has_key(s, (#[trigger] merge_state(s).1[i]).key)
                && merge_state(s).1[i] == s[key_index(s, merge_state(s).1[i].key)],
        forall|key: Seq<char>| #[trigger] has_key(s, key) ==> has_key(merge_state(s).1, key),
        forall|k: int| 0 <= k < merge_state(s).0.len() ==> exists|m1: int, m2: int|
            0 <= m1 < m2 < s.len() && s[m1].key == s[m2].key
            && #[trigger] merge_state(s).0[k] == entry_with_override(s[m1], s[m2].scope),
    decreases s.len(),
{
    if s.len() == 0 {
        return;
    }
    let t = s.drop_last();
    let e = s.last();
    lemma_merge_state_inv(t);
    let h0 = merge_state(t).0;
    let eff0 = merge_state(t).1;
    let h = merge_state(s).0;
    let eff = merge_state(s).1;
    let i = key_index(eff0, e.key);
    lemma_key_index_bounds(eff0, e.key);
    assert forall|m: int| 0 <= m < t.len() implies #[trigger] s[m] == t[m] by {}
    assert(key_index(s, e.key) == s.len() - 1);
    // A key other than that of the last entry is found in `s` exactly where
    // it is found in `t`.
    assert forall|key: Seq<char>| key != e.key implies #[trigger] key_index(s, key)
        == key_index(t, key) by {}
    if i >= 0 {
        assert(h == h0.push(entry_with_override(eff0[i], e.scope)));
        assert(eff == eff0.update(i, e));
        assert(eff0[i].key == e.key);
        assert forall|a: int, b: int| 0 <= a < b < eff.len() implies (#[trigger] eff[a]).key
            != (#[trigger] eff[b]).key by {
            assert(eff[a].key == eff0[a].key);
            assert(eff[b].key == eff0[b].key);
        }
        assert forall|j: int| 0 <= j < eff.len() implies has_key(s, (#[trigger] eff[j]).key)
            && eff[j] == s[key_index(s, eff[j].key)] by {
            if j == i {
                lemma_key_index_present(s, e.key, s.len() - 1);
            } else {
                assert(eff[j] == eff0[j]);
                assert(eff0[j].key != e.key);
                lemma_key_index_bounds(t, eff0[j].key);
            }
        }
        assert forall|key: Seq<char>| #[trigger] has_key(s, key) implies has_key(eff, key) by {
            if key == e.key {
                lemma_key_index_present(eff, key, i);
            } else {
                assert(has_key(t, key));
                assert(has_key(eff0, key));
                lemma_key_index_bounds(eff0, key);
                let j = key_index(eff0, key);
                assert(eff0[j].key == key);
                assert(j != i);
                assert(eff[j].key == key);
                lemma_key_index_present(eff, key, j);
            }
        }
        assert forall|k: int| 0 <= k < h.len() implies exists|m1: int, m2: int|
            0 <= m1 < m2 < s.len() && s[m1].key == s[m2].key
            && #[trigger] h[k] == entry_with_override(s[m1], s[m2].scope) by {
            if k < h0.len() {
                assert(h[k] == h0[k]);
                let (m1, m2) = choose|m1: int, m2: int|
                    0 <= m1 < m2 < t.len() && t[m1].key == t[m2].key
                    && h0[k] == entry_with_override(t[m1], t[m2].scope);
                assert(0 <= m1 < m2 < s.len() && s[m1].key == s[m2].key
                    && h[k] == entry_with_override(s[m1], s[m2].scope));
            } else {
                let m1 = key_index(t, eff0[i].key);
                let m2 = s.len() - 1;
                assert(has_key(t, merge_state(t).1[i].key)
                    && merge_state(t).1[i] == t[key_index(t, merge_state(t).1[i].key)]);
                lemma_key_index_bounds(t, eff0[i].key);
                assert(eff0[i] == t[m1]);
                assert(s[m1] == t[m1]);
                assert(s[m2] == e);
                assert(h[k] == entry_with_override(eff0[i], e.scope));
                assert(0 <= m1 < m2 < s.len() && s[m1].key == s[m2].key
                    && h[k] == entry_with_override(s[m1], s[m2].scope));
            }
        }
    } else {
        assert(h == h0);
        assert(eff == eff0.push(e));
        assert forall|j: int| 0 <= j < eff0.len() implies (#[trigger] eff0[j]).key != e.key by {}
        assert forall|j: int| 0 <= j < eff.len() implies has_key(s, (#[trigger] eff[j]).key)
            && eff[j] == s[key_index(s, eff[j].key)] by {
            if j == eff.len() - 1 {
                lemma_key_index_present(s, e.key, s.len() - 1);
            } else {
                assert(eff[j] == eff0[j]);
                assert(eff0[j].key != e.key);
                lemma_key_index_bounds(t, eff0[j].key);
            }
        }
        assert forall|key: Seq<char>| #[trigger] has_key(s, key) implies has_key(eff, key) by {
            if key == e.key {
                lemma_key_index_present(eff, key, eff.len() - 1);
            } else {
                assert(has_key(t, key));
                assert(has_key(eff0, key));
                lemma_key_index_bounds(eff0, key);
                let j = key_index(eff0, key);
                assert(eff[j].key == key);
                lemma_key_index_present(eff, key, j);
            }
        }
        assert forall|k: int| 0 <= k < h.len() implies exists|m1: int, m2: int|
            0 <= m1 < m2 < s.len() && s[m1].key == s[m2].key
            && #[trigger] h[k] == entry_with_override(s[m1], s[m2].scope) by {
            assert(h[k] == h0[k]);
            let (m1, m2) = choose|m1: int, m2: int|
                0 <= m1 < m2 < t.len() && t[m1].key == t[m2].key
                && h0[k] == entry_with_override(t[m1], t[m2].scope);
            assert(0 <= m1 < m2 < s.len() && s[m1].key == s[m2].key
                && h[k] == entry_with_override(s[m1], s[m2].scope));
        }
    }
}

proof fn lemma_concat3_index(a: Seq<EntrySpec>, b: Seq<EntrySpec>, c: Seq<EntrySpec>, m: int)
    requires
        0 <= m < (a + b + c).len(),
    ensures
        m < a.len() ==> (a + b + c)[m] == a[m],
        a.len() <= m < a.len() + b.len() ==> (a + b + c)[m] == b[m - a.len()],
        a.len() + b.len() <= m ==> (a + b + c)[m] == c[m - a.len() - b.len()],
{
    if m < (a + b).len() {
        assert((a + b + c)[m] == (a + b)[m]);
    }
}

/// Position, in the merged view of `s`, of the effective entry for `key`.
pub open spec fn winner_index(s: Seq<EntrySpec>, key: Seq<char>) -> int {
    merge_state(s).0.len() + key_index(merge_state(s).1, key)
}

/// Law: in the merged view of the three scopes' lists, every key that some
/// scope defines has exactly one entry that carries no override mark; that
/// entry is the last input occurrence of the key, so its scope is the
/// highest-precedence scope that defines the key.
pub proof fn lemma_merged_effective(
    a: Seq<EntrySpec>,
    b: Seq<EntrySpec>,
    c: Seq<EntrySpec>,
    key: Seq<char>,
)
    requires
        tagged(a, Scope::System),
        tagged(b, Scope::Global),
        tagged(c, Scope::Local),
        has_key(a + b + c, key),
    ensures
        0 <= winner_index(a + b + c, key) < merged_spec(a + b + c).len(),
        merged_spec(a + b + c)[winner_index(a + b + c, key)].key == key,
        merged_spec(a + b + c)[winner_index(a + b + c, key)].overridden_by is None,
        merged_spec(a + b + c)[winner_index(a + b + c, key)]
            == (a + b + c)[key_index(a + b + c, key)],
        merged_spec(a + b + c)[winner_index(a + b + c, key)].scope == (if has_key(c, key) {
            Scope::Local
        } else if has_key(b, key) {
            Scope::Global
        } else {
            Scope::System
        }),
        forall|t: int|
            0 <= t < merged_spec(a + b + c).len()
                && (#[trigger] merged_spec(a + b + c)[t]).key == key
                && merged_spec(a + b + c)[t].overridden_by is None
                ==> t == winner_index(a + b + c, key),
{
    let s = a + b + c;
    let h = merge_state(s).0;
    let eff = merge_state(s).1;
    lemma_merge_state_inv(s);
    assert forall|m: int| 0 <= m < s.len() implies (#[trigger] s[m]).overridden_by is None by {
        lemma_concat3_index(a, b, c, m);
    }
    assert(has_key(eff, key));
    let j = key_index(eff, key);
    lemma_key_index_bounds(eff, key);
    let t0 = winner_index(s, key);
    assert(merged_spec(s)[t0] == eff[j]);
    assert(eff[j].key == key);
    assert(merge_state(s).1[j] == s[key_index(s, merge_state(s).1[j].key)]);
    let w = key_index(s, key);
    lemma_key_index_bounds(s, key);
    lemma_key_index_concat(a + b, c, key);
    lemma_key_index_concat(a, b, key);
    if has_key(c, key) {
        lemma_key_index_bounds(c, key);
        assert(w == (a + b).len() + key_index(c, key));
        lemma_concat3_index(a, b, c, w);
        assert(s[w].scope == Scope::Local);
    } else if has_key(b, key) {
        lemma_key_index_bounds(c, key);
        lemma_key_index_bounds(b, key);
        assert(w == a.len() + key_index(b, key));
        lemma_concat3_index(a, b, c, w);
        assert(s[w].scope == Scope::Global);
    } else {
        lemma_key_index_bounds(c, key);
        lemma_key_index_bounds(b, key);
        assert(w == key_index(a, key));
        lemma_key_index_bounds(a, key);
        lemma_concat3_index(a, b, c, w);
        assert(s[w].scope == Scope::System);
    }
    assert forall|t: int|
        0 <= t < merged_spec(s).len() && (#[trigger] merged_spec(s)[t]).key == key
            && merged_spec(s)[t].overridden_by is None implies t == t0 by {
        if t < h.len() {
            assert(merged_spec(s)[t] == h[t]);
            let (m1, m2) = choose|m1: int, m2: int|
                0 <= m1 < m2 < s.len() && s[m1].key == s[m2].key
                    && #[trigger] h[t] == entry_with_override(s[m1], s[m2].scope);
            assert(h[t].overridden_by is Some);
            assert(false);
        } else {
            assert(merged_spec(s)[t] == eff[t - h.len()]);
            lemma_key_index_unique(eff, key, t - h.len());
        }
    }
}

/// Law: in the merged view of the three scopes' lists, none of which repeats
/// a key within itself, every entry marked overridden lost to a strictly
/// higher-precedence scope, and the winning scope itself defines the key.
pub proof fn lemma_merged_overrides(
    a: Seq<EntrySpec>,
    b: Seq<EntrySpec>,
    c: Seq<EntrySpec>,
    t: int,
)
    requires
        tagged(a, Scope::System),
        tagged(b, Scope::Global),
        tagged(c, Scope::Local),
        unique_keys(a),
        unique_keys(b),
        unique_keys(c),
        0 <= t < merged_spec(a + b + c).len(),
        merged_spec(a + b + c)[t].overridden_by is Some,
    ensures
        rank(merged_spec(a + b + c)[t].scope)
            < rank(merged_spec(a + b + c)[t].overridden_by.unwrap()),
        merged_spec(a + b + c)[t].overridden_by.unwrap() == Scope::System
            ==> has_key(a, merged_spec(a + b + c)[t].key),
        merged_spec(a + b + c)[t].overridden_by.unwrap() == Scope::Global
            ==> has_key(b, merged_spec(a + b + c)[t].key),
        merged_spec(a + b + c)[t].overridden_by.unwrap() == Scope::Local
            ==> has_key(c, merged_spec(a + b + c)[t].key),
{
    let s = a + b + c;
    let h = merge_state(s).0;
    let eff = merge_state(s).1;
    lemma_merge_state_inv(s);
    assert forall|m: int| 0 <= m < s.len() implies (#[trigger] s[m]).overridden_by is None by {
        lemma_concat3_index(a, b, c, m);
    }
    if t >= h.len() {
        assert(merged_spec(s)[t] == eff[t - h.len()]);
        assert(eff[t - h.len()] == s[key_index(s, eff[t - h.len()].key)]);
        lemma_key_index_bounds(s, eff[t - h.len()].key);
        assert(false);
    }
    assert(merged_spec(s)[t] == h[t]);
    let (m1, m2) = choose|m1: int, m2: int|
        0 <= m1 < m2 < s.len() && s[m1].key == s[m2].key
            && #[trigger] h[t] == entry_with_override(s[m1], s[m2].scope);
    lemma_concat3_index(a, b, c, m1);
    lemma_concat3_index(a, b, c, m2);
    let key = s[m1].key;
    if m1 < a.len() {
        if m2 < a.len() {
            assert(a[m1].key == a[m2].key);
            assert(false);
        }
    } else if m1 < a.len() + b.len() {
        if m2 < a.len() {
            assert(false);
        } else if m2 < a.len() + b.len() {
            assert(b[m1 - a.len()].key == b[m2 - a.len()].key);
            assert(false);
        }
    } else {
        assert(c[m1 - a.len() - b.len()].key == c[m2 - a.len() - b.len()].key);
        assert(false);
    }
    if m2 < a.len() {
        lemma_key_index_present(a, key, m2);
    } else if m2 < a.len() + b.len() {
        lemma_key_index_present(b, key, m2 - a.len());
    } else {
        lemma_key_index_present(c, key, m2 - a.len() - b.len());
    }
}

/// Law: the merged view collapses nothing: it holds exactly one entry per
/// input occurrence, the superseded ones and the winners together.
pub proof fn lemma_merged_preserves_count(s: Seq<EntrySpec>)
    ensures
        merged_spec(s).len() == s.len(),
{
    lemma_merge_state_inv(s);
}

/// View of a list of entries, element by element.
pub(crate) open spec fn dv(s: Seq<ConfigEntry>) -> Seq<EntrySpec> {
    Seq::new(s.len(), |i: int| s[i]@)
}

/// Index of the first entry of `eff` whose key is `key`, if any.
fn find_key(eff: &Vec<ConfigEntry>, key: &String) -> (r: Option<usize>)
    ensures
        r is Some ==> r.unwrap() < eff@.len() && eff@[r.unwrap() as int]@.key == key@,
        r is None ==> forall|i: int| 0 <= i < eff@.len() ==> (#[trigger] eff@[i])@.key != key@,
{
    let mut i: usize = 0;
    while i < eff.len()
        invariant
            i <= eff@.len(),
            forall|j: int| 0 <= j < i ==> (#[trigger] eff@[j])@.key != key@,
        decreases eff@.len() - i,
    {
        if eff[i].key.eq(key) {
            return Some(i);
        }
        i = i + 1;
    }
    None
}

/// Merges the three scopes' entry lists, lowest precedence first, into the
/// override-annotated flat view that `merged_spec` describes: every
/// superseded entry first, stamped with the scope that won, then the final
/// winner of each key with no stamp.
pub fn merge_entries(system: Vec<ConfigEntry>, global: Vec<ConfigEntry>, local: Vec<ConfigEntry>)
    -> (out: Vec<ConfigEntry>)
    ensures
        out.deep_view() == merged_spec(
            system.deep_view() + global.deep_view() + local.deep_view(),
        ),
{
    let ghost total: Seq<EntrySpec> = system.deep_view() + global.deep_view()
        + local.deep_view();
    let mut all = system;
    let mut global = global;
    let mut local = local;
    all.append(&mut global);
    all.append(&mut local);
    proof {
        assert(all.deep_view() =~= total);
    }
    let mut hist: Vec<ConfigEntry> = Vec::new();
    let mut eff: Vec<ConfigEntry> = Vec::new();
    proof {
        assert(dv(all@) =~= total.subrange(total.len() - all@.len() as int, total.len() as int));
        assert(total.subrange(0, 0) =~= Seq::<EntrySpec>::empty());
        assert(dv(hist@) =~= merge_state(total.subrange(0, 0)).0);
        assert(dv(eff@) =~= merge_state(total.subrange(0, 0)).1);
    }
    while all.len() > 0
        invariant
            all@.len() <= total.len(),
            dv(all@) == total.subrange(total.len() - all@.len() as int, total.len() as int),
            dv(hist@) == merge_state(total.subrange(0, total.len() - all@.len() as int)).0,
            dv(eff@) == merge_state(total.subrange(0, total.len() - all@.len() as int)).1,
        decreases all@.len(),
    {
        let ghost k: int = total.len() - all@.len() as int;
        let ghost prefix: Seq<EntrySpec> = total.subrange(0, k);
        let ghost eff0: Seq<EntrySpec> = dv(eff@);
        let ghost hist0: Seq<EntrySpec> = dv(hist@);
        let ghost suffix0: Seq<ConfigEntry> = all@;
        let e = all.remove(0);
        proof {
            assert(e == suffix0[0]);
            assert(e@ == dv(suffix0)[0]);
            assert(dv(suffix0)[0] == total.subrange(k, total.len() as int)[0]);
            assert(e@ == total[k]);
            assert(all@ == suffix0.remove(0));
            assert forall|i: int| 0 <= i < all@.len() implies #[trigger] dv(all@)[i]
                == total[k + 1 + i] by {
                assert(all@[i] == suffix0[i + 1]);
                assert(dv(suffix0)[i + 1] == total.subrange(k, total.len() as int)[i + 1]);
            }
            assert(dv(all@) =~= total.subrange(k + 1, total.len() as int));
            assert(total.subrange(0, k + 1).drop_last() =~= prefix);
            assert(total.subrange(0, k + 1).last() == total[k]);
            lemma_merge_state_inv(prefix);
        }
        let found = find_key(&eff, &e.key);
        match found {
            Some(i) => {
                proof {
                    assert(eff0[i as int].key == e@.key);
                    lemma_key_index_unique(eff0, e@.key, i as int);
                }
                let mut prev = eff.remove(i);
                let sc = e.scope;
                eff.insert(i, e);
                prev.overridden_by = Some(sc);
                hist.push(prev);
                proof {
                    assert(dv(eff@) =~= eff0.update(i as int, total[k]));
                    assert(dv(hist@) =~= hist0.push(entry_with_override(eff0[i as int], sc)));
                    assert(dv(hist@) == merge_state(total.subrange(0, k + 1)).0);
                    assert(dv(eff@) == merge_state(total.subrange(0, k + 1)).1);
                }
            },
            None => {
                proof {
                    lemma_key_index_bounds(eff0, e@.key);
                    assert(key_index(eff0, e@.key) == -1) by {
                        if key_index(eff0, e@.key) >= 0 {
                            assert(eff@[key_index(eff0, e@.key)]@.key == e@.key);
                        }
                    }
                }
                eff.push(e);
                proof {
                    assert(dv(eff@) =~= eff0.push(total[k]));
                    assert(dv(eff@) == merge_state(total.subrange(0, k + 1)).1);
                }
            },
        }
    }
    proof {
        assert(total.subrange(0, total.len() as int) =~= total);
    }
    let mut out = hist;
    out.append(&mut eff);
    proof {
        assert(out.deep_view() =~= merge_state(total).0 + merge_state(total).1);
    }
    out
}

} // verus!
