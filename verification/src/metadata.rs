//! Request metadata: a map from keys to values, kept in the byte order of the keys.
use vstd::prelude::*;
use vstd::utf8::{encode_utf8, encode_utf8_decode_utf8};

use crate::order::{
    byte_order, compare_bytes, lemma_order_equal, lemma_order_flip, lemma_order_transitive, Order,
};

verus! {

/// The UTF-8 bytes of a key, by which keys are ordered.
pub open spec fn key_bytes(k: Seq<char>) -> Seq<u8> {
    encode_utf8(k)
}

/// Entries in strictly increasing byte order of their keys (so no key occurs twice).
pub open spec fn sorted_entries(s: Seq<(Seq<char>, Seq<char>)>) -> bool {
    forall|i: int, j: int|
        0 <= i < j < s.len() ==> byte_order(key_bytes(#[trigger] s[i].0), key_bytes(#[trigger] s[j].0))
            == Order::Less
}

/// Whether some entry has key `k`.
pub open spec fn has_key(s: Seq<(Seq<char>, Seq<char>)>, k: Seq<char>) -> bool {
    exists|i: int| 0 <= i < s.len() && (#[trigger] s[i]).0 == k
}

/// The place of an entry with key `k`, if there is one.
pub open spec fn key_index(s: Seq<(Seq<char>, Seq<char>)>, k: Seq<char>) -> int {
    choose|i: int| 0 <= i < s.len() && (#[trigger] s[i]).0 == k
}

/// The map that a list of entries with distinct keys stands for.
pub open spec fn entries_map(s: Seq<(Seq<char>, Seq<char>)>) -> Map<Seq<char>, Seq<char>> {
    Map::new(
        |k: Seq<char>| has_key(s, k),
        |k: Seq<char>| s[key_index(s, k)].1,
    )
}

/// `s` lists every entry of `m` exactly once, in increasing byte order of the keys.
pub open spec fn lists_map_in_order(s: Seq<(Seq<char>, Seq<char>)>, m: Map<Seq<char>, Seq<char>>) -> bool {
    &&& sorted_entries(s)
    &&& forall|i: int| 0 <= i < s.len() ==> m.contains_key((#[trigger] s[i]).0) && m[s[i].0] == s[i].1
    &&& forall|k: Seq<char>| #[trigger] m.contains_key(k) ==> has_key(s, k)
}

/// The map built by inserting the pairs in order; a later pair wins over an
/// earlier one with the same key.
pub open spec fn fold_pairs(s: Seq<(Seq<char>, Seq<char>)>) -> Map<Seq<char>, Seq<char>>
    decreases s.len(),
{
    if s.len() == 0 {
        Map::empty()
    } else {
        fold_pairs(s.drop_last()).insert(s.last().0, s.last().1)
    }
}

pub open spec fn pairs_view(v: Seq<(String, String)>) -> Seq<(Seq<char>, Seq<char>)> {
    v.map_values(|p: (String, String)| (p.0@, p.1@))
}

proof fn lemma_sorted_distinct(s: Seq<(Seq<char>, Seq<char>)>, i: int, j: int)
    requires
        sorted_entries(s),
        0 <= i < s.len(),
        0 <= j < s.len(),
        i != j,
    ensures
        s[i].0 != s[j].0,
{
    lemma_order_equal(key_bytes(s[i].0), key_bytes(s[j].0));
    if i < j {
        assert(byte_order(key_bytes(s[i].0), key_bytes(s[j].0)) == Order::Less);
    } else {
        assert(byte_order(key_bytes(s[j].0), key_bytes(s[i].0)) == Order::Less);
        lemma_order_equal(key_bytes(s[j].0), key_bytes(s[i].0));
    }
}

proof fn lemma_lookup(s: Seq<(Seq<char>, Seq<char>)>, i: int)
    requires
        sorted_entries(s),
        0 <= i < s.len(),
    ensures
        entries_map(s).contains_key(s[i].0),
        entries_map(s)[s[i].0] == s[i].1,
{
    let k = s[i].0;
    assert(has_key(s, k));
    let j = key_index(s, k);
    if j != i {
        lemma_sorted_distinct(s, i, j);
    }
}

pub proof fn lemma_lists_map(s: Seq<(Seq<char>, Seq<char>)>)
    requires
        sorted_entries(s),
    ensures
        lists_map_in_order(s, entries_map(s)),
{
    assert forall|i: int| 0 <= i < s.len() implies entries_map(s).contains_key((#[trigger] s[i]).0)
        && entries_map(s)[s[i].0] == s[i].1 by {
        lemma_lookup(s, i);
    }
}

proof fn lemma_sorted_take(s: Seq<(Seq<char>, Seq<char>)>, n: int)
    requires
        sorted_entries(s),
        0 <= n <= s.len(),
    ensures
        sorted_entries(s.take(n)),
{
    assert forall|i: int, j: int| 0 <= i < j < s.take(n).len() implies byte_order(
        key_bytes(#[trigger] s.take(n)[i].0),
        key_bytes(#[trigger] s.take(n)[j].0),
    ) == Order::Less by {
        assert(s.take(n)[i] == s[i]);
        assert(s.take(n)[j] == s[j]);
    }
}

/// Adding an entry whose key is new adds that key to the map.
proof fn lemma_map_insert_new(s: Seq<(Seq<char>, Seq<char>)>, p: int, k: Seq<char>, v: Seq<char>)
    requires
        sorted_entries(s),
        sorted_entries(s.insert(p, (k, v))),
        0 <= p <= s.len(),
        !has_key(s, k),
    ensures
        entries_map(s.insert(p, (k, v))) == entries_map(s).insert(k, v),
{
    let t = s.insert(p, (k, v));
    assert forall|x: Seq<char>| has_key(t, x) <==> (has_key(s, x) || x == k) by {
        if has_key(t, x) {
            let j = choose|j: int| 0 <= j < t.len() && (#[trigger] t[j]).0 == x;
            if j < p {
                assert(s[j] == t[j]);
            } else if j > p {
                assert(s[j - 1] == t[j]);
            }
        }
        if has_key(s, x) {
            let j = choose|j: int| 0 <= j < s.len() && (#[trigger] s[j]).0 == x;
            if j < p {
                assert(t[j] == s[j]);
            } else {
                assert(t[j + 1] == s[j]);
            }
        }
        if x == k {
            assert(t[p].0 == k);
        }
    }
    assert forall|x: Seq<char>| #[trigger] entries_map(t).contains_key(x) implies entries_map(t)[x]
        == entries_map(s).insert(k, v)[x] by {
        let j = choose|j: int| 0 <= j < t.len() && (#[trigger] t[j]).0 == x;
        lemma_lookup(t, j);
        if j < p {
            assert(s[j] == t[j]);
            lemma_lookup(s, j);
        } else if j > p {
            assert(s[j - 1] == t[j]);
            lemma_lookup(s, j - 1);
        }
    }
    assert(entries_map(t) =~= entries_map(s).insert(k, v));
}

/// Replacing the value of an entry replaces it in the map.
proof fn lemma_map_update(s: Seq<(Seq<char>, Seq<char>)>, p: int, v: Seq<char>)
    requires
        sorted_entries(s),
        0 <= p < s.len(),
    ensures
        sorted_entries(s.update(p, (s[p].0, v))),
        entries_map(s.update(p, (s[p].0, v))) == entries_map(s).insert(s[p].0, v),
{
    let k = s[p].0;
    let t = s.update(p, (k, v));
    assert forall|i: int, j: int| 0 <= i < j < t.len() implies byte_order(
        key_bytes(#[trigger] t[i].0),
        key_bytes(#[trigger] t[j].0),
    ) == Order::Less by {
        assert(t[i].0 == s[i].0);
        assert(t[j].0 == s[j].0);
    }
    assert forall|x: Seq<char>| has_key(t, x) <==> has_key(s, x) by {
        if has_key(t, x) {
            let j = choose|j: int| 0 <= j < t.len() && (#[trigger] t[j]).0 == x;
            assert(s[j].0 == t[j].0);
        }
        if has_key(s, x) {
            let j = choose|j: int| 0 <= j < s.len() && (#[trigger] s[j]).0 == x;
            assert(t[j].0 == s[j].0);
        }
    }
    assert(has_key(s, k)) by {
        assert(s[p].0 == k);
    }
    assert forall|x: Seq<char>| #[trigger] entries_map(t).contains_key(x) implies entries_map(t)[x]
        == entries_map(s).insert(k, v)[x] by {
        let j = choose|j: int| 0 <= j < t.len() && (#[trigger] t[j]).0 == x;
        lemma_lookup(t, j);
        if j != p {
            assert(s[j] == t[j]);
            lemma_lookup(s, j);
            lemma_sorted_distinct(s, j, p);
        }
    }
    assert(entries_map(t) =~= entries_map(s).insert(k, v));
}

/// Metadata sent with a request, as key/value pairs. Each key occurs once; the
/// entries are listed in the byte order of their keys.
pub struct Metadata {
    entries: Vec<(String, String)>,
}

/// Another name for [`Metadata`].
pub type MetadataMap = Metadata;

impl Metadata {
    /// The entries, in the order in which they are listed.
    pub closed spec fn entries(&self) -> Seq<(Seq<char>, Seq<char>)> {
        pairs_view(self.entries@)
    }

    #[verifier::type_invariant]
    spec fn inv(&self) -> bool {
        sorted_entries(pairs_view(self.entries@))
    }
}

impl View for Metadata {
    type V = Map<Seq<char>, Seq<char>>;

    open spec fn view(&self) -> Map<Seq<char>, Seq<char>> {
        entries_map(self.entries())
    }
}

impl Metadata {
    /// Metadata with no entries.
    pub fn new() -> (r: Metadata)
        ensures
            r@ == Map::<Seq<char>, Seq<char>>::empty(),
            r.entries().len() == 0,
    {
        let r = Metadata { entries: Vec::new() };
        assert(r@ =~= Map::<Seq<char>, Seq<char>>::empty());
        r
    }

    /// Sets the value of `key`, replacing the value it had.
    pub fn insert(&mut self, key: &str, value: &str)
        ensures
            final(self)@ == old(self)@.insert(key@, value@),
    {
        proof {
            use_type_invariant(&*self);
        }
        let mut entries: Vec<(String, String)> = Vec::new();
        std::mem::swap(&mut entries, &mut self.entries);
        let ghost s = pairs_view(entries@);
        let kb = key.as_bytes();
        let n = entries.len();
        let mut i: usize = 0;
        while i < n && compare_bytes(entries[i].0.as_str().as_bytes(), kb) == Order::Less
            invariant
                i <= n,
                n == entries@.len(),
                s == pairs_view(entries@),
                sorted_entries(s),
                kb@ == key_bytes(key@),
                forall|j: int| 0 <= j < i ==> byte_order(key_bytes(#[trigger] s[j].0), kb@) == Order::Less,
            decreases n - i,
        {
            i = i + 1;
        }
        let new_entry = (String::from_str(key), String::from_str(value));
        if i < n && compare_bytes(entries[i].0.as_str().as_bytes(), kb) == Order::Equal {
            proof {
                lemma_order_equal(key_bytes(s[i as int].0), kb@);
                encode_utf8_decode_utf8(s[i as int].0);
                encode_utf8_decode_utf8(key@);
                lemma_map_update(s, i as int, value@);
            }
            entries.set(i, new_entry);
            assert(pairs_view(entries@) =~= s.update(i as int, (s[i as int].0, value@)));
        } else {
            proof {
                if i < n {
                    lemma_order_flip(kb@, key_bytes(s[i as int].0));
                }
                let t = s.insert(i as int, (key@, value@));
                assert forall|a: int, b: int| 0 <= a < b < t.len() implies byte_order(
                    key_bytes(#[trigger] t[a].0),
                    key_bytes(#[trigger] t[b].0),
                ) == Order::Less by {
                    if b < i {
                        assert(t[a] == s[a] && t[b] == s[b]);
                    } else if b == i {
                        assert(t[a] == s[a]);
                    } else if a == i {
                        assert(t[b] == s[b - 1]);
                        if b - 1 > i {
                            lemma_order_transitive(kb@, key_bytes(s[i as int].0), key_bytes(s[b - 1].0));
                        }
                    } else if a < i {
                        assert(t[a] == s[a] && t[b] == s[b - 1]);
                    } else {
                        assert(t[a] == s[a - 1] && t[b] == s[b - 1]);
                    }
                }
                assert(!has_key(s, key@)) by {
                    if has_key(s, key@) {
                        let j = choose|j: int| 0 <= j < s.len() && (#[trigger] s[j]).0 == key@;
                        lemma_order_equal(key_bytes(s[j].0), kb@);
                        if j < i {
                            assert(byte_order(key_bytes(s[j].0), kb@) == Order::Less);
                        } else {
                            if j > i {
                                lemma_order_transitive(kb@, key_bytes(s[i as int].0), key_bytes(s[j].0));
                            }
                            lemma_order_flip(kb@, key_bytes(s[j].0));
                        }
                    }
                }
                lemma_map_insert_new(s, i as int, key@, value@);
            }
            entries.insert(i, new_entry);
            assert(pairs_view(entries@) =~= s.insert(i as int, (key@, value@)));
        }
        self.entries = entries;
    }
}

impl Metadata {
    /// The value of `key`, if it has one.
    pub fn get(&self, key: &str) -> (r: Option<&String>)
        ensures
            r is Some <==> self@.contains_key(key@),
            r matches Some(v) ==> v@ == self@[key@],
    {
        proof {
            use_type_invariant(self);
        }
        let ghost s = self.entries();
        let kb = key.as_bytes();
        let n = self.entries.len();
        let mut i: usize = 0;
        while i < n
            invariant
                i <= n,
                n == self.entries@.len(),
                s == self.entries(),
                sorted_entries(s),
                kb@ == key_bytes(key@),
                forall|j: int| 0 <= j < i ==> (#[trigger] s[j]).0 != key@,
            decreases n - i,
        {
            if compare_bytes(self.entries[i].0.as_str().as_bytes(), kb) == Order::Equal {
                proof {
                    lemma_order_equal(key_bytes(s[i as int].0), kb@);
                    encode_utf8_decode_utf8(s[i as int].0);
                    encode_utf8_decode_utf8(key@);
                    lemma_lookup(s, i as int);
                }
                return Some(&self.entries[i].1);
            }
            proof {
                lemma_order_equal(key_bytes(s[i as int].0), kb@);
            }
            i = i + 1;
        }
        None
    }

    /// The entries as pairs of string slices, in the byte order of their keys.
    pub fn iter(&self) -> (r: Vec<(&str, &str)>)
        ensures
            r@.len() == self.entries().len(),
            forall|i: int| 0 <= i < r@.len() ==> ((#[trigger] r@[i]).0@, r@[i].1@) == self.entries()[i],
            lists_map_in_order(self.entries(), self@),
    {
        proof {
            use_type_invariant(self);
            lemma_lists_map(self.entries());
        }
        let n = self.entries.len();
        let mut r: Vec<(&str, &str)> = Vec::new();
        let mut i: usize = 0;
        while i < n
            invariant
                i <= n,
                n == self.entries@.len(),
                r@.len() == i,
                forall|j: int| 0 <= j < i ==> ((#[trigger] r@[j]).0@, r@[j].1@) == self.entries()[j],
            decreases n - i,
        {
            let e = &self.entries[i];
            r.push((e.0.as_str(), e.1.as_str()));
            i = i + 1;
        }
        r
    }

    /// The entries as header pairs, in the byte order of their keys.
    pub fn to_headers(&self) -> (r: Vec<(&str, &str)>)
        ensures
            r@.len() == self.entries().len(),
            forall|i: int| 0 <= i < r@.len() ==> ((#[trigger] r@[i]).0@, r@[i].1@) == self.entries()[i],
            lists_map_in_order(self.entries(), self@),
    {
        self.iter()
    }

    /// A copy with the same entries.
    pub fn copy(&self) -> (r: Metadata)
        ensures
            r.entries() == self.entries(),
            r@ == self@,
    {
        proof {
            use_type_invariant(self);
        }
        let n = self.entries.len();
        let mut v: Vec<(String, String)> = Vec::new();
        let mut i: usize = 0;
        while i < n
            invariant
                i <= n,
                n == self.entries@.len(),
                pairs_view(v@) == self.entries().take(i as int),
            decreases n - i,
        {
            let e = &self.entries[i];
            let k = e.0.clone();
            let val = e.1.clone();
            assert(k@ == self.entries()[i as int].0);
            assert(val@ == self.entries()[i as int].1);
            let ghost before = v@;
            v.push((k, val));
            assert(pairs_view(v@) =~= pairs_view(before).push(self.entries()[i as int]));
            assert(pairs_view(v@) =~= self.entries().take(i + 1));
            i = i + 1;
        }
        assert(self.entries().take(n as int) =~= self.entries());
        Metadata { entries: v }
    }

    /// These entries with those of `extra` laid over them: a key of `extra`
    /// takes its value from `extra`.
    pub fn merged_with(&self, extra: &Metadata) -> (r: Metadata)
        ensures
            r@ == self@.union_prefer_right(extra@),
    {
        proof {
            use_type_invariant(extra);
        }
        let mut r = self.copy();
        let ghost s = extra.entries();
        let n = extra.entries.len();
        let mut i: usize = 0;
        assert(entries_map(s.take(0)) =~= Map::<Seq<char>, Seq<char>>::empty());
        assert(self@.union_prefer_right(Map::<Seq<char>, Seq<char>>::empty()) =~= self@);
        while i < n
            invariant
                i <= n,
                n == extra.entries@.len(),
                s == extra.entries(),
                sorted_entries(s),
                r@ == self@.union_prefer_right(entries_map(s.take(i as int))),
            decreases n - i,
        {
            let e = &extra.entries[i];
            let ghost before = r@;
            r.insert(e.0.as_str(), e.1.as_str());
            proof {
                let k = s[i as int].0;
                let v = s[i as int].1;
                lemma_sorted_take(s, i as int);
                lemma_sorted_take(s, i + 1);
                assert(s.take(i + 1) =~= s.take(i as int).insert(i as int, (k, v)));
                assert(!has_key(s.take(i as int), k)) by {
                    if has_key(s.take(i as int), k) {
                        let j = choose|j: int| 0 <= j < i && (#[trigger] s.take(i as int)[j]).0 == k;
                        assert(s.take(i as int)[j] == s[j]);
                        lemma_sorted_distinct(s, j, i as int);
                    }
                }
                lemma_map_insert_new(s.take(i as int), i as int, k, v);
                assert(r@ =~= self@.union_prefer_right(entries_map(s.take(i + 1))));
            }
            i = i + 1;
        }
        assert(s.take(n as int) =~= s);
        r
    }

    /// Metadata holding the given pairs; a later pair wins over an earlier one
    /// with the same key.
    pub fn from_entries(pairs: Vec<(String, String)>) -> (r: Metadata)
        ensures
            r@ == fold_pairs(pairs_view(pairs@)),
    {
        let ghost p = pairs_view(pairs@);
        let mut r = Metadata::new();
        let n = pairs.len();
        let mut i: usize = 0;
        assert(p.take(0) =~= Seq::<(Seq<char>, Seq<char>)>::empty());
        assert(fold_pairs(p.take(0)) =~= r@);
        while i < n
            invariant
                i <= n,
                n == pairs@.len(),
                p == pairs_view(pairs@),
                r@ == fold_pairs(p.take(i as int)),
            decreases n - i,
        {
            let e = &pairs[i];
            r.insert(e.0.as_str(), e.1.as_str());
            assert(p.take(i + 1).drop_last() =~= p.take(i as int));
            i = i + 1;
        }
        assert(p.take(n as int) =~= p);
        r
    }
}

impl Clone for Metadata {
    fn clone(&self) -> (r: Metadata)
        ensures
            r@ == self@,
            r.entries() == self.entries(),
    {
        self.copy()
    }
}

impl Default for Metadata {
    fn default() -> (r: Metadata)
        ensures
            r@ == Map::<Seq<char>, Seq<char>>::empty(),
    {
        Metadata::new()
    }
}

proof fn lemma_listing_drop_last(t: Seq<(Seq<char>, Seq<char>)>, m: Map<Seq<char>, Seq<char>>)
    requires
        lists_map_in_order(t, m),
        t.len() > 0,
    ensures
        lists_map_in_order(t.drop_last(), m.remove(t.last().0)),
{
    let n = t.len() - 1;
    let k = t[n].0;
    let m2 = m.remove(k);
    let d = t.drop_last();
    lemma_sorted_take(t, n);
    assert(d =~= t.take(n));
    assert forall|x: int| 0 <= x < d.len() implies m2.contains_key((#[trigger] d[x]).0) && m2[d[x].0]
        == d[x].1 by {
        assert(d[x] == t[x]);
        lemma_sorted_distinct(t, x, n);
    }
    assert forall|key: Seq<char>| #[trigger] m2.contains_key(key) implies has_key(d, key) by {
        let y = choose|y: int| 0 <= y < t.len() && (#[trigger] t[y]).0 == key;
        assert(y != n);
        assert(d[y] == t[y]);
    }
}

/// Law: a map has one listing in key order, so the order in which metadata
/// entries (and the headers made from them) come out depends on the map alone.
pub proof fn lemma_listing_unique(
    s1: Seq<(Seq<char>, Seq<char>)>,
    s2: Seq<(Seq<char>, Seq<char>)>,
    m: Map<Seq<char>, Seq<char>>,
)
    requires
        lists_map_in_order(s1, m),
        lists_map_in_order(s2, m),
    ensures
        s1 == s2,
    decreases s1.len(),
{
    if s1.len() == 0 {
        if s2.len() > 0 {
            assert(m.contains_key(s2[0].0));
        }
        assert(s1 =~= s2);
    } else if s2.len() == 0 {
        assert(m.contains_key(s1[0].0));
    } else {
        let n1 = s1.len() - 1;
        let n2 = s2.len() - 1;
        let a = s1[n1];
        let b = s2[n2];
        assert(m.contains_key(a.0));
        assert(m.contains_key(b.0));
        let j = choose|j: int| 0 <= j < s2.len() && (#[trigger] s2[j]).0 == a.0;
        let i = choose|i: int| 0 <= i < s1.len() && (#[trigger] s1[i]).0 == b.0;
        if a.0 != b.0 {
            assert(j < n2);
            assert(i < n1);
            assert(byte_order(key_bytes(s2[j].0), key_bytes(s2[n2].0)) == Order::Less);
            assert(byte_order(key_bytes(s1[i].0), key_bytes(s1[n1].0)) == Order::Less);
            lemma_order_flip(key_bytes(a.0), key_bytes(b.0));
        }
        assert(a == b);
        let k = a.0;
        let m2 = m.remove(k);
        let t1 = s1.drop_last();
        let t2 = s2.drop_last();
        lemma_listing_drop_last(s1, m);
        lemma_listing_drop_last(s2, m);
        assert(lists_map_in_order(t1, m2));
        assert(lists_map_in_order(t2, m2));
        lemma_listing_unique(t1, t2, m2);
        assert(s1 =~= t1.push(a));
        assert(s2 =~= t2.push(b));
    }
}

} // verus!
