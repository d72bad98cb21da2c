//! Key-sorted string maps, as `BTreeMap<String, String>` keeps them: one
//! entry per key, keys in increasing order, a later insert replacing the value.
use vstd::prelude::*;

use crate::text::{
    chars_of, lemma_lex_asymmetric, lemma_lex_irreflexive, lemma_lex_total,
    lemma_lex_transitive, lex_less, lex_lt,
};

verus! {

/// A key and its value.
pub type Entry = (String, String);

/// The characters of an entry.
pub open spec fn entry_view(e: Entry) -> (Seq<char>, Seq<char>) {
    (e.0@, e.1@)
}

/// The characters of a list of entries.
pub open spec fn entry_views(v: Seq<Entry>) -> Seq<(Seq<char>, Seq<char>)> {
    v.map_values(|e: Entry| entry_view(e))
}

/// Whether the keys are strictly increasing.
pub open spec fn keys_sorted<V>(e: Seq<(Seq<char>, V)>) -> bool {
    forall|i: int, j: int| 0 <= i < j < e.len() ==> lex_lt(#[trigger] e[i].0, #[trigger] e[j].0)
}

/// The map that inserting the pairs in order builds (a later pair with the
/// same key replaces an earlier one).
pub open spec fn assoc<V>(p: Seq<(Seq<char>, V)>) -> Map<Seq<char>, V>
    decreases p.len(),
{
    if p.len() == 0 {
        Map::empty()
    } else {
        assoc(p.drop_last()).insert(p.last().0, p.last().1)
    }
}

/// Whether a key-sorted list holds exactly the map `m`.
pub open spec fn holds_map<V>(e: Seq<(Seq<char>, V)>, m: Map<Seq<char>, V>) -> bool {
    &&& keys_sorted(e)
    &&& forall|k: Seq<char>| #[trigger] m.dom().contains(k) <==> exists|i: int| 0 <= i < e.len() && #[trigger] e[i].0 == k
    &&& forall|i: int| 0 <= i < e.len() ==> m.dom().contains(#[trigger] e[i].0) && m[e[i].0] == e[i].1
}

/// A key-sorted list is determined by the map it holds.
pub proof fn lemma_holds_map_unique<V>(a: Seq<(Seq<char>, V)>, b: Seq<(Seq<char>, V)>, m: Map<Seq<char>, V>)
    requires
        holds_map(a, m),
        holds_map(b, m),
    ensures
        a == b,
    decreases a.len() + b.len(),
{
    if a.len() == 0 {
        if b.len() > 0 {
            assert(m.dom().contains(b[0].0));
        }
        assert(a =~= b);
    } else if b.len() == 0 {
        assert(m.dom().contains(a[0].0));
    } else {
        assert(m.dom().contains(a[0].0));
        assert(m.dom().contains(b[0].0));
        let j = choose|j: int| 0 <= j < b.len() && #[trigger] b[j].0 == a[0].0;
        let k = choose|k: int| 0 <= k < a.len() && #[trigger] a[k].0 == b[0].0;
        if j > 0 {
            assert(lex_lt(b[0].0, b[j].0));
            if k > 0 {
                assert(lex_lt(a[0].0, a[k].0));
                lemma_lex_asymmetric(a[0].0, a[k].0);
            } else {
                lemma_lex_irreflexive(a[0].0);
            }
        }
        assert(a[0].0 == b[0].0);
        assert(a[0] == b[0]);
        let key = a[0].0;
        let m2 = m.remove(key);
        let ta = a.drop_first();
        let tb = b.drop_first();
        assert forall|x: Seq<char>| #[trigger] m2.dom().contains(x) <==> exists|i: int| 0 <= i < ta.len() && #[trigger] ta[i].0 == x by {
            if m2.dom().contains(x) {
                let i = choose|i: int| 0 <= i < a.len() && #[trigger] a[i].0 == x;
                assert(i != 0);
                assert(ta[i - 1].0 == x);
            }
            if exists|i: int| 0 <= i < ta.len() && #[trigger] ta[i].0 == x {
                let i = choose|i: int| 0 <= i < ta.len() && #[trigger] ta[i].0 == x;
                assert(a[i + 1].0 == x);
                assert(lex_lt(a[0].0, a[i + 1].0));
                lemma_lex_irreflexive(x);
            }
        }
        assert forall|x: Seq<char>| #[trigger] m2.dom().contains(x) <==> exists|i: int| 0 <= i < tb.len() && #[trigger] tb[i].0 == x by {
            if m2.dom().contains(x) {
                let i = choose|i: int| 0 <= i < b.len() && #[trigger] b[i].0 == x;
                assert(i != 0);
                assert(tb[i - 1].0 == x);
            }
            if exists|i: int| 0 <= i < tb.len() && #[trigger] tb[i].0 == x {
                let i = choose|i: int| 0 <= i < tb.len() && #[trigger] tb[i].0 == x;
                assert(b[i + 1].0 == x);
                assert(lex_lt(b[0].0, b[i + 1].0));
                lemma_lex_irreflexive(x);
            }
        }
        assert forall|i: int| 0 <= i < ta.len() implies m2.dom().contains(#[trigger] ta[i].0) && m2[ta[i].0] == ta[i].1 by {
            assert(ta[i] == a[i + 1]);
            assert(lex_lt(a[0].0, a[i + 1].0));
            lemma_lex_irreflexive(a[0].0);
        }
        assert forall|i: int| 0 <= i < tb.len() implies m2.dom().contains(#[trigger] tb[i].0) && m2[tb[i].0] == tb[i].1 by {
            assert(tb[i] == b[i + 1]);
            assert(lex_lt(b[0].0, b[i + 1].0));
            lemma_lex_irreflexive(b[0].0);
        }
        assert(keys_sorted(ta)) by {
            assert forall|i: int, l: int| 0 <= i < l < ta.len() implies lex_lt(#[trigger] ta[i].0, #[trigger] ta[l].0) by {
                assert(ta[i] == a[i + 1] && ta[l] == a[l + 1]);
            }
        }
        assert(keys_sorted(tb)) by {
            assert forall|i: int, l: int| 0 <= i < l < tb.len() implies lex_lt(#[trigger] tb[i].0, #[trigger] tb[l].0) by {
                assert(tb[i] == b[i + 1] && tb[l] == b[l + 1]);
            }
        }
        lemma_holds_map_unique(ta, tb, m2);
        assert(a =~= seq![a[0]] + ta);
        assert(b =~= seq![b[0]] + tb);
    }
}

/// `e` with `k -> v` put in key order, replacing the value of an equal key.
pub open spec fn insert_sorted_entry<V>(e: Seq<(Seq<char>, V)>, k: Seq<char>, v: V) -> Seq<(Seq<char>, V)>
    decreases e.len(),
{
    if e.len() == 0 {
        seq![(k, v)]
    } else if e[0].0 == k {
        seq![(k, v)] + e.drop_first()
    } else if lex_lt(k, e[0].0) {
        seq![(k, v)] + e
    } else {
        seq![e[0]] + insert_sorted_entry(e.drop_first(), k, v)
    }
}

/// The key-sorted list that holds the map the pairs build: each pair put
/// in key order in turn.
pub open spec fn sorted_entries<V>(p: Seq<(Seq<char>, V)>) -> Seq<(Seq<char>, V)>
    decreases p.len(),
{
    if p.len() == 0 {
        Seq::empty()
    } else {
        insert_sorted_entry(sorted_entries(p.drop_last()), p.last().0, p.last().1)
    }
}

/// Without its first entry, a key-sorted list holds the map without that key.
proof fn lemma_holds_map_tail<V>(e: Seq<(Seq<char>, V)>, m: Map<Seq<char>, V>)
    requires
        holds_map(e, m),
        e.len() > 0,
    ensures
        holds_map(e.drop_first(), m.remove(e[0].0)),
{
    let t = e.drop_first();
    let mt = m.remove(e[0].0);
    assert forall|x: Seq<char>| #[trigger] mt.dom().contains(x) <==> exists|i: int| 0 <= i < t.len() && #[trigger] t[i].0 == x by {
        if mt.dom().contains(x) {
            let i = choose|i: int| 0 <= i < e.len() && #[trigger] e[i].0 == x;
            assert(i != 0);
            assert(t[i - 1].0 == x);
        }
        if exists|i: int| 0 <= i < t.len() && #[trigger] t[i].0 == x {
            let i = choose|i: int| 0 <= i < t.len() && #[trigger] t[i].0 == x;
            assert(e[i + 1].0 == x);
            assert(lex_lt(e[0].0, e[i + 1].0));
            lemma_lex_irreflexive(x);
        }
    }
    assert forall|i: int| 0 <= i < t.len() implies mt.dom().contains(#[trigger] t[i].0) && mt[t[i].0] == t[i].1 by {
        assert(t[i] == e[i + 1]);
        assert(lex_lt(e[0].0, e[i + 1].0));
        lemma_lex_irreflexive(e[0].0);
    }
    assert(keys_sorted(t)) by {
        assert forall|a: int, b: int| 0 <= a < b < t.len() implies lex_lt(#[trigger] t[a].0, #[trigger] t[b].0) by {
            assert(t[a] == e[a + 1] && t[b] == e[b + 1]);
        }
    }
}

/// Putting `k -> v` in key order keeps the list holding the map, with `k -> v` inserted.
pub proof fn lemma_insert_sorted_entry<V>(e: Seq<(Seq<char>, V)>, m: Map<Seq<char>, V>, k: Seq<char>, v: V)
    requires
        holds_map(e, m),
    ensures
        holds_map(insert_sorted_entry(e, k, v), m.insert(k, v)),
    decreases e.len(),
{
    let r = insert_sorted_entry(e, k, v);
    let nm = m.insert(k, v);
    if e.len() == 0 {
        assert forall|x: Seq<char>| #[trigger] nm.dom().contains(x) <==> exists|i: int| 0 <= i < r.len() && #[trigger] r[i].0 == x by {
            if x == k {
                assert(r[0].0 == x);
            }
        }
    } else if e[0].0 == k {
        assert forall|i: int| 0 <= i < r.len() implies #[trigger] r[i].0 == e[i].0 by {
            if i > 0 {
                assert(r[i] == e[i]);
            }
        }
        assert forall|i: int| 0 < i < r.len() implies lex_lt(k, #[trigger] r[i].0) by {
            assert(r[i] == e[i]);
        }
        assert(keys_sorted(r)) by {
            assert forall|a: int, b: int| 0 <= a < b < r.len() implies lex_lt(#[trigger] r[a].0, #[trigger] r[b].0) by {
                assert(r[a].0 == e[a].0 && r[b].0 == e[b].0);
            }
        }
        assert forall|x: Seq<char>| #[trigger] nm.dom().contains(x) <==> exists|i: int| 0 <= i < r.len() && #[trigger] r[i].0 == x by {
            if nm.dom().contains(x) {
                if x == k {
                    assert(r[0].0 == x);
                } else {
                    let i = choose|i: int| 0 <= i < e.len() && #[trigger] e[i].0 == x;
                    assert(r[i].0 == x);
                }
            }
            if exists|i: int| 0 <= i < r.len() && #[trigger] r[i].0 == x {
                let i = choose|i: int| 0 <= i < r.len() && #[trigger] r[i].0 == x;
                assert(e[i].0 == x);
            }
        }
        assert forall|i: int| 0 <= i < r.len() implies nm.dom().contains(#[trigger] r[i].0) && nm[r[i].0] == r[i].1 by {
            if i > 0 {
                assert(r[i] == e[i]);
                lemma_lex_irreflexive(k);
            }
        }
    } else if lex_lt(k, e[0].0) {
        assert forall|i: int| 0 <= i < e.len() implies lex_lt(k, #[trigger] e[i].0) by {
            if i > 0 {
                lemma_lex_transitive(k, e[0].0, e[i].0);
            }
        }
        assert forall|i: int| 0 < i < r.len() implies #[trigger] r[i] == e[i - 1] by {}
        assert(keys_sorted(r)) by {
            assert forall|a: int, b: int| 0 <= a < b < r.len() implies lex_lt(#[trigger] r[a].0, #[trigger] r[b].0) by {
                assert(r[b] == e[b - 1]);
                if a > 0 {
                    assert(r[a] == e[a - 1]);
                }
            }
        }
        assert forall|x: Seq<char>| #[trigger] nm.dom().contains(x) <==> exists|i: int| 0 <= i < r.len() && #[trigger] r[i].0 == x by {
            if nm.dom().contains(x) {
                if x == k {
                    assert(r[0].0 == x);
                } else {
                    let i = choose|i: int| 0 <= i < e.len() && #[trigger] e[i].0 == x;
                    assert(r[i + 1].0 == x);
                }
            }
            if exists|i: int| 0 <= i < r.len() && #[trigger] r[i].0 == x {
                let i = choose|i: int| 0 <= i < r.len() && #[trigger] r[i].0 == x;
                if i > 0 {
                    assert(e[i - 1].0 == x);
                }
            }
        }
        assert forall|i: int| 0 <= i < r.len() implies nm.dom().contains(#[trigger] r[i].0) && nm[r[i].0] == r[i].1 by {
            if i > 0 {
                assert(r[i] == e[i - 1]);
                assert(lex_lt(k, e[i - 1].0));
                lemma_lex_irreflexive(k);
            }
        }
    } else {
        lemma_lex_total(k, e[0].0);
        let t = e.drop_first();
        let mt = m.remove(e[0].0);
        lemma_holds_map_tail(e, m);
        lemma_insert_sorted_entry(t, mt, k, v);
        let rt = insert_sorted_entry(t, k, v);
        let nmt = mt.insert(k, v);
        assert(r == seq![e[0]] + rt);
        assert forall|i: int| 0 < i < r.len() implies #[trigger] r[i] == rt[i - 1] by {}
        assert forall|j: int| 0 <= j < rt.len() implies lex_lt(e[0].0, #[trigger] rt[j].0) by {
            assert(nmt.dom().contains(rt[j].0));
            if rt[j].0 != k {
                assert(mt.dom().contains(rt[j].0));
                let i = choose|i: int| 0 <= i < t.len() && #[trigger] t[i].0 == rt[j].0;
                assert(e[i + 1].0 == rt[j].0);
            }
        }
        assert(keys_sorted(r)) by {
            assert forall|a: int, b: int| 0 <= a < b < r.len() implies lex_lt(#[trigger] r[a].0, #[trigger] r[b].0) by {
                assert(r[b] == rt[b - 1]);
                if a > 0 {
                    assert(r[a] == rt[a - 1]);
                }
            }
        }
        assert forall|x: Seq<char>| #[trigger] nm.dom().contains(x) <==> exists|i: int| 0 <= i < r.len() && #[trigger] r[i].0 == x by {
            if nm.dom().contains(x) {
                if x == e[0].0 {
                    assert(r[0].0 == x);
                } else {
                    assert(nmt.dom().contains(x));
                    let j = choose|j: int| 0 <= j < rt.len() && #[trigger] rt[j].0 == x;
                    assert(r[j + 1].0 == x);
                }
            }
            if exists|i: int| 0 <= i < r.len() && #[trigger] r[i].0 == x {
                let i = choose|i: int| 0 <= i < r.len() && #[trigger] r[i].0 == x;
                if i > 0 {
                    assert(rt[i - 1].0 == x);
                    assert(nmt.dom().contains(x));
                }
            }
        }
        assert forall|i: int| 0 <= i < r.len() implies nm.dom().contains(#[trigger] r[i].0) && nm[r[i].0] == r[i].1 by {
            if i > 0 {
                assert(r[i] == rt[i - 1]);
                assert(nmt.dom().contains(rt[i - 1].0));
                assert(lex_lt(e[0].0, rt[i - 1].0));
                lemma_lex_irreflexive(e[0].0);
            } else {
                lemma_lex_irreflexive(k);
            }
        }
    }
}

/// `sorted_entries` holds the map the pairs build.
pub proof fn lemma_sorted_entries_hold<V>(p: Seq<(Seq<char>, V)>)
    ensures
        holds_map(sorted_entries(p), assoc(p)),
    decreases p.len(),
{
    if p.len() == 0 {
        assert(holds_map(sorted_entries(p), assoc(p)));
    } else {
        lemma_sorted_entries_hold(p.drop_last());
        lemma_insert_sorted_entry(sorted_entries(p.drop_last()), assoc(p.drop_last()), p.last().0, p.last().1);
    }
}

/// A key-sorted list holding the map that the pairs build is their
/// `sorted_entries`.
pub proof fn lemma_sorted_entries<V>(e: Seq<(Seq<char>, V)>, p: Seq<(Seq<char>, V)>)
    requires
        holds_map(e, assoc(p)),
    ensures
        e == sorted_entries(p),
{
    lemma_sorted_entries_hold(p);
    lemma_holds_map_unique(e, sorted_entries(p), assoc(p));
}

/// The map that pairs build has their keys; where no two pairs share a
/// key, each key maps to its pair's value.
pub proof fn lemma_assoc_distinct<V>(p: Seq<(Seq<char>, V)>)
    ensures
        forall|x: Seq<char>| #[trigger] assoc(p).dom().contains(x) <==> exists|c: int| 0 <= c < p.len() && #[trigger] p[c].0 == x,
        (forall|a: int, b: int| 0 <= a < b < p.len() ==> #[trigger] p[a].0 != #[trigger] p[b].0) ==> forall|c: int|
            0 <= c < p.len() ==> assoc(p)[#[trigger] p[c].0] == p[c].1,
    decreases p.len(),
{
    if p.len() > 0 {
        let q = p.drop_last();
        lemma_assoc_distinct(q);
        assert forall|x: Seq<char>| #[trigger] assoc(p).dom().contains(x) <==> exists|c: int| 0 <= c < p.len() && #[trigger] p[c].0 == x by {
            if assoc(p).dom().contains(x) && x != p.last().0 {
                assert(assoc(q).dom().contains(x));
                let c = choose|c: int| 0 <= c < q.len() && #[trigger] q[c].0 == x;
                assert(p[c].0 == x);
            }
            if x == p.last().0 {
                assert(p[p.len() - 1].0 == x);
            }
            if exists|c: int| 0 <= c < p.len() && #[trigger] p[c].0 == x {
                let c = choose|c: int| 0 <= c < p.len() && #[trigger] p[c].0 == x;
                if c < p.len() - 1 {
                    assert(q[c].0 == x);
                    assert(assoc(q).dom().contains(x));
                }
            }
        }
        if forall|a: int, b: int| 0 <= a < b < p.len() ==> #[trigger] p[a].0 != #[trigger] p[b].0 {
            assert forall|a: int, b: int| 0 <= a < b < q.len() implies #[trigger] q[a].0 != #[trigger] q[b].0 by {
                assert(q[a] == p[a] && q[b] == p[b]);
            }
            assert forall|c: int| 0 <= c < p.len() implies assoc(p)[#[trigger] p[c].0] == p[c].1 by {
                if c < p.len() - 1 {
                    assert(q[c] == p[c]);
                    assert(p[c].0 != p[p.len() - 1].0);
                }
            }
        }
    }
}

/// Whether some entry has the key `x`.
pub open spec fn has_key<V>(e: Seq<(Seq<char>, V)>, x: Seq<char>) -> bool {
    exists|i: int| 0 <= i < e.len() && #[trigger] e[i].0 == x
}

/// Two key-sorted lists with the same keys list them in the same order.
pub proof fn lemma_same_keys<V>(a: Seq<(Seq<char>, V)>, b: Seq<(Seq<char>, V)>)
    requires
        keys_sorted(a),
        keys_sorted(b),
        forall|x: Seq<char>| #[trigger] has_key(a, x) <==> has_key(b, x),
    ensures
        a.len() == b.len(),
        forall|i: int| 0 <= i < a.len() ==> #[trigger] a[i].0 == b[i].0,
{
    let ka = a.map_values(|e: (Seq<char>, V)| (e.0, ()));
    let kb = b.map_values(|e: (Seq<char>, V)| (e.0, ()));
    let m = Map::new(|x: Seq<char>| has_key(a, x), |x: Seq<char>| ());
    assert forall|x: Seq<char>| #[trigger] m.dom().contains(x) <==> exists|i: int| 0 <= i < ka.len() && #[trigger] ka[i].0 == x by {
        if m.dom().contains(x) {
            assert(has_key(a, x));
            let i = choose|i: int| 0 <= i < a.len() && #[trigger] a[i].0 == x;
            assert(ka[i].0 == x);
        }
        if exists|i: int| 0 <= i < ka.len() && #[trigger] ka[i].0 == x {
            let i = choose|i: int| 0 <= i < ka.len() && #[trigger] ka[i].0 == x;
            assert(a[i].0 == x);
            assert(has_key(a, x));
        }
    }
    assert forall|x: Seq<char>| #[trigger] m.dom().contains(x) <==> exists|i: int| 0 <= i < kb.len() && #[trigger] kb[i].0 == x by {
        if m.dom().contains(x) {
            assert(has_key(a, x));
            assert(has_key(b, x));
            let j = choose|j: int| 0 <= j < b.len() && #[trigger] b[j].0 == x;
            assert(kb[j].0 == x);
        }
        if exists|i: int| 0 <= i < kb.len() && #[trigger] kb[i].0 == x {
            let i = choose|i: int| 0 <= i < kb.len() && #[trigger] kb[i].0 == x;
            assert(b[i].0 == x);
            assert(has_key(b, x));
        }
    }
    assert(keys_sorted(ka)) by {
        assert forall|i: int, j: int| 0 <= i < j < ka.len() implies lex_lt(#[trigger] ka[i].0, #[trigger] ka[j].0) by {
            assert(ka[i].0 == a[i].0 && ka[j].0 == a[j].0);
        }
    }
    assert(keys_sorted(kb)) by {
        assert forall|i: int, j: int| 0 <= i < j < kb.len() implies lex_lt(#[trigger] kb[i].0, #[trigger] kb[j].0) by {
            assert(kb[i].0 == b[i].0 && kb[j].0 == b[j].0);
        }
    }
    assert(holds_map(ka, m));
    assert(holds_map(kb, m));
    lemma_holds_map_unique(ka, kb, m);
    assert forall|i: int| 0 <= i < a.len() implies #[trigger] a[i].0 == b[i].0 by {
        assert(ka[i].0 == a[i].0);
        assert(kb[i].0 == b[i].0);
    }
}

/// Inserts `k -> v` into a key-sorted list, replacing the value of an equal key.
pub fn insert_entry(out: &mut Vec<Entry>, k: String, v: String, Ghost(m): Ghost<Map<Seq<char>, Seq<char>>>)
    requires
        holds_map(entry_views(old(out)@), m),
    ensures
        holds_map(entry_views(final(out)@), m.insert(k@, v@)),
{
    let kc = chars_of(k.as_str());
    let ghost old_e = entry_views(out@);
    let mut i: usize = 0;
    let mut stop = false;
    while i < out.len() && !stop
        invariant
            i <= out.len(),
            kc@ == k@,
            old_e == entry_views(out@),
            holds_map(old_e, m),
            forall|j: int| 0 <= j < i ==> lex_lt(#[trigger] old_e[j].0, k@),
            stop ==> i < out.len() && !lex_lt(old_e[i as int].0, k@),
        decreases out.len() - i + (if stop { 0int } else { 1int }),
    {
        let oc = chars_of(out[i].0.as_str());
        assert(old_e[i as int].0 == oc@);
        if !lex_less(&oc, &kc) {
            stop = true;
        } else {
            i += 1;
        }
    }
    let ghost nm = m.insert(k@, v@);
    if i < out.len() && out[i].0 == k {
        let ghost idx = i as int;
        out.set(i, (k, v));
        let ghost new_e = entry_views(out@);
        proof {
            assert(new_e =~= old_e.update(idx, (k@, v@)));
            assert(keys_sorted(new_e)) by {
                assert forall|a: int, b: int| 0 <= a < b < new_e.len() implies lex_lt(#[trigger] new_e[a].0, #[trigger] new_e[b].0) by {
                    assert(lex_lt(old_e[a].0, old_e[b].0));
                }
            }
            assert forall|x: Seq<char>| #[trigger] nm.dom().contains(x) <==> exists|j: int| 0 <= j < new_e.len() && #[trigger] new_e[j].0 == x by {
                if nm.dom().contains(x) {
                    if x == k@ {
                        assert(new_e[idx].0 == x);
                    } else {
                        assert(m.dom().contains(x));
                        let j = choose|j: int| 0 <= j < old_e.len() && #[trigger] old_e[j].0 == x;
                        assert(new_e[j].0 == x);
                    }
                }
                if exists|j: int| 0 <= j < new_e.len() && #[trigger] new_e[j].0 == x {
                    let j = choose|j: int| 0 <= j < new_e.len() && #[trigger] new_e[j].0 == x;
                    assert(old_e[j].0 == x);
                }
            }
            assert forall|j: int| 0 <= j < new_e.len() implies nm.dom().contains(#[trigger] new_e[j].0) && nm[new_e[j].0] == new_e[j].1 by {
                if j != idx {
                    assert(new_e[j] == old_e[j]);
                    assert(j < idx ==> lex_lt(old_e[j].0, old_e[idx].0));
                    assert(j > idx ==> lex_lt(old_e[idx].0, old_e[j].0));
                    lemma_lex_irreflexive(k@);
                }
            }
        }
        return;
    }
    proof {
        if i < out.len() {
            lemma_lex_total(old_e[i as int].0, k@);
        }
    }
    let ghost idx = i as int;
    out.insert(i, (k, v));
    let ghost new_e = entry_views(out@);
    proof {
        assert(new_e =~= old_e.insert(idx, (k@, v@)));
        assert(keys_sorted(new_e)) by {
            assert forall|a: int, b: int| 0 <= a < b < new_e.len() implies lex_lt(#[trigger] new_e[a].0, #[trigger] new_e[b].0) by {
                if b < idx {
                    assert(lex_lt(old_e[a].0, old_e[b].0));
                } else if b == idx {
                } else if a < idx {
                    assert(new_e[b] == old_e[b - 1]);
                    if b - 1 > idx {
                        lemma_lex_transitive(k@, old_e[idx].0, old_e[b - 1].0);
                    }
                    lemma_lex_transitive(old_e[a].0, k@, old_e[b - 1].0);
                } else if a == idx {
                    assert(new_e[b] == old_e[b - 1]);
                    if b - 1 > idx {
                        lemma_lex_transitive(k@, old_e[idx].0, old_e[b - 1].0);
                    }
                } else {
                    assert(new_e[a] == old_e[a - 1]);
                    assert(new_e[b] == old_e[b - 1]);
                    assert(lex_lt(old_e[a - 1].0, old_e[b - 1].0));
                }
            }
        }
        assert forall|x: Seq<char>| #[trigger] nm.dom().contains(x) <==> exists|j: int| 0 <= j < new_e.len() && #[trigger] new_e[j].0 == x by {
            if nm.dom().contains(x) {
                if x == k@ {
                    assert(new_e[idx].0 == x);
                } else {
                    assert(m.dom().contains(x));
                    let j = choose|j: int| 0 <= j < old_e.len() && #[trigger] old_e[j].0 == x;
                    if j < idx {
                        assert(new_e[j].0 == x);
                    } else {
                        assert(new_e[j + 1].0 == x);
                    }
                }
            }
            if exists|j: int| 0 <= j < new_e.len() && #[trigger] new_e[j].0 == x {
                let j = choose|j: int| 0 <= j < new_e.len() && #[trigger] new_e[j].0 == x;
                if j < idx {
                    assert(old_e[j].0 == x);
                } else if j > idx {
                    assert(old_e[j - 1].0 == x);
                }
            }
        }
        assert forall|j: int| 0 <= j < new_e.len() implies nm.dom().contains(#[trigger] new_e[j].0) && nm[new_e[j].0] == new_e[j].1 by {
            if j < idx {
                assert(new_e[j] == old_e[j]);
                assert(lex_lt(old_e[j].0, k@));
                lemma_lex_irreflexive(k@);
            } else if j > idx {
                assert(new_e[j] == old_e[j - 1]);
                assert(lex_lt(k@, old_e[idx].0));
                if j - 1 > idx {
                    lemma_lex_transitive(k@, old_e[idx].0, old_e[j - 1].0);
                }
                lemma_lex_irreflexive(k@);
            }
        }
    }
}

/// The entries that inserting `pairs` in order into an empty map gives, in
/// key order.
pub fn entries_from_pairs(pairs: &Vec<Entry>) -> (r: Vec<Entry>)
    ensures
        holds_map(entry_views(r@), assoc(entry_views(pairs@))),
{
    let ghost p = entry_views(pairs@);
    let mut out: Vec<Entry> = Vec::new();
    let mut i: usize = 0;
    assert(p.take(0) =~= Seq::<(Seq<char>, Seq<char>)>::empty());
    assert(entry_views(out@) =~= Seq::<(Seq<char>, Seq<char>)>::empty());
    while i < pairs.len()
        invariant
            i <= pairs.len(),
            p == entry_views(pairs@),
            holds_map(entry_views(out@), assoc(p.take(i as int))),
        decreases pairs.len() - i,
    {
        assert(p.take(i + 1).drop_last() == p.take(i as int));
        assert(p.take(i + 1).last() == entry_view(pairs@[i as int]));
        let (k, v) = (pairs[i].0.clone(), pairs[i].1.clone());
        insert_entry(&mut out, k, v, Ghost(assoc(p.take(i as int))));
        i += 1;
    }
    assert(p.take(pairs.len() as int) == p);
    out
}

} // verus!
