//! Maps keyed by names, kept in the byte order of their keys.
use vstd::prelude::*;
use vstd::string::*;
use vstd::utf8::{encode_utf8, encode_utf8_decode_utf8, encode_utf8_valid_utf8};
use crate::text::same;

verus! {

/// The lexicographic order of byte sequences.
pub open spec fn bytes_lt(a: Seq<u8>, b: Seq<u8>, i: int) -> bool
    decreases b.len() - i,
{
    if i < 0 || i >= b.len() {
        false
    } else if i >= a.len() {
        true
    } else if a[i] != b[i] {
        a[i] < b[i]
    } else {
        bytes_lt(a, b, i + 1)
    }
}

/// The order of names: that of their UTF-8 encodings.
pub open spec fn key_lt(a: Seq<char>, b: Seq<char>) -> bool {
    bytes_lt(encode_utf8(a), encode_utf8(b), 0)
}

proof fn lemma_bytes_lt_total(a: Seq<u8>, b: Seq<u8>, i: int)
    requires
        0 <= i,
        forall|k: int| 0 <= k < i && k < a.len() && k < b.len() ==> a[k] == b[k],
        i <= a.len(),
        i <= b.len(),
    ensures
        !(bytes_lt(a, b, i) && bytes_lt(b, a, i)),
        a != b ==> bytes_lt(a, b, i) || bytes_lt(b, a, i),
    decreases a.len() - i,
{
    if i < a.len() && i < b.len() && a[i] == b[i] {
        lemma_bytes_lt_total(a, b, i + 1);
    } else if i == a.len() && i == b.len() {
        assert(a =~= b);
    }
}

proof fn lemma_bytes_lt_irreflexive(a: Seq<u8>, i: int)
    requires
        0 <= i <= a.len(),
    ensures
        !bytes_lt(a, a, i),
    decreases a.len() - i,
{
    if i < a.len() {
        lemma_bytes_lt_irreflexive(a, i + 1);
    }
}

proof fn lemma_bytes_lt_transitive(a: Seq<u8>, b: Seq<u8>, c: Seq<u8>, i: int)
    requires
        0 <= i <= a.len(),
        i <= b.len(),
        i <= c.len(),
        bytes_lt(a, b, i),
        bytes_lt(b, c, i),
    ensures
        bytes_lt(a, c, i),
    decreases a.len() - i,
{
    if i < a.len() && i < b.len() && i < c.len() && a[i] == b[i] && b[i] == c[i] {
        lemma_bytes_lt_transitive(a, b, c, i + 1);
    }
}

/// Names are totally ordered.
pub proof fn law_key_order(a: Seq<char>, b: Seq<char>, c: Seq<char>)
    ensures
        !key_lt(a, a),
        !(key_lt(a, b) && key_lt(b, a)),
        a != b ==> key_lt(a, b) || key_lt(b, a),
        key_lt(a, b) && key_lt(b, c) ==> key_lt(a, c),
{
    broadcast use {encode_utf8_decode_utf8, encode_utf8_valid_utf8};

    let x = encode_utf8(a);
    let y = encode_utf8(b);
    assert(vstd::utf8::decode_utf8(x) == a);
    assert(vstd::utf8::decode_utf8(y) == b);
    lemma_bytes_lt_irreflexive(x, 0);
    lemma_bytes_lt_total(x, y, 0);
    if key_lt(a, b) && key_lt(b, c) {
        lemma_bytes_lt_transitive(x, y, encode_utf8(c), 0);
    }
}

/// Whether `a` comes before `b`.
pub fn before(a: &str, b: &str) -> (r: bool)
    ensures
        r == key_lt(a@, b@),
{
    let x = a.as_bytes();
    let y = b.as_bytes();
    let mut i: usize = 0;
    while i < y.len()
        invariant
            x@ == encode_utf8(a@),
            y@ == encode_utf8(b@),
            i <= y@.len(),
            i <= x@.len(),
            bytes_lt(x@, y@, i as int) == key_lt(a@, b@),
        decreases y@.len() - i,
    {
        if i >= x.len() {
            return true;
        }
        if x[i] != y[i] {
            return x[i] < y[i];
        }
        i += 1;
    }
    false
}

/// The keys of a list of entries.
pub open spec fn keys_of<V>(s: Seq<(Seq<char>, V)>) -> Seq<Seq<char>> {
    Seq::new(s.len(), |i: int| s[i].0)
}

/// First index at or after `i` whose key does not come before `k`.
pub open spec fn pos_of(keys: Seq<Seq<char>>, k: Seq<char>, i: int) -> int
    decreases keys.len() - i,
{
    if 0 <= i < keys.len() && key_lt(keys[i], k) {
        pos_of(keys, k, i + 1)
    } else {
        i
    }
}

/// Whether the keys strictly ascend.
pub open spec fn ascending(keys: Seq<Seq<char>>) -> bool {
    forall|i: int, j: int|
        #![trigger keys[i], keys[j]]
        0 <= i < j < keys.len() ==> key_lt(keys[i], keys[j])
}

/// The value stored under `k`.
pub open spec fn get_of<V>(s: Seq<(Seq<char>, V)>, k: Seq<char>) -> Option<V> {
    let p = pos_of(keys_of(s), k, 0);
    if p < s.len() && s[p].0 == k {
        Some(s[p].1)
    } else {
        None
    }
}

/// The entries with `v` stored under `k`.
pub open spec fn put_of<V>(s: Seq<(Seq<char>, V)>, k: Seq<char>, v: V) -> Seq<(Seq<char>, V)> {
    let p = pos_of(keys_of(s), k, 0);
    if p < s.len() && s[p].0 == k {
        s.update(p, (k, v))
    } else {
        s.insert(p, (k, v))
    }
}

/// `pos_of` stays inside the list, everything before it comes before `k`, and what stands
/// there does not.
pub proof fn lemma_pos(keys: Seq<Seq<char>>, k: Seq<char>, i: int)
    requires
        0 <= i <= keys.len(),
    ensures
        i <= pos_of(keys, k, i) <= keys.len(),
        forall|j: int| i <= j < pos_of(keys, k, i) ==> key_lt(#[trigger] keys[j], k),
        pos_of(keys, k, i) < keys.len() ==> !key_lt(keys[pos_of(keys, k, i)], k),
    decreases keys.len() - i,
{
    if i < keys.len() && key_lt(keys[i], k) {
        lemma_pos(keys, k, i + 1);
    }
}

/// An entry is the stored one or was there before.
pub proof fn lemma_put_entries<V>(s: Seq<(Seq<char>, V)>, k: Seq<char>, v: V)
    ensures
        forall|i: int|
            0 <= i < put_of(s, k, v).len() ==> (#[trigger] put_of(s, k, v)[i]) == (k, v)
                || s.contains(put_of(s, k, v)[i]),
{
    let p = pos_of(keys_of(s), k, 0);
    lemma_pos(keys_of(s), k, 0);
    let t = put_of(s, k, v);
    assert forall|i: int| 0 <= i < t.len() implies (#[trigger] t[i]) == (k, v) || s.contains(t[i]) by {
        if p < s.len() && s[p].0 == k {
            assert(i == p || t[i] == s[i]);
        } else if i < p {
            assert(t[i] == s[i]);
        } else if i > p {
            assert(t[i] == s[i - 1]);
        }
    }
}

/// In an ascending list, the position of a key that occurs is where it occurs.
proof fn lemma_pos_exact(keys: Seq<Seq<char>>, p: int, i: int)
    requires
        ascending(keys),
        0 <= i <= p < keys.len(),
    ensures
        pos_of(keys, keys[p], i) == p,
    decreases p - i,
{
    if i < p {
        lemma_pos_exact(keys, p, i + 1);
    } else {
        law_key_order(keys[p], keys[p], keys[p]);
    }
}

/// Storing a value keeps the keys ascending, is read back, and leaves every other key as it
/// was.
pub proof fn law_put_get<V>(s: Seq<(Seq<char>, V)>, k: Seq<char>, v: V, other: Seq<char>)
    requires
        ascending(keys_of(s)),
    ensures
        ascending(keys_of(put_of(s, k, v))),
        get_of(put_of(s, k, v), k) == Some(v),
        other != k ==> get_of(put_of(s, k, v), other) == get_of(s, other),
{
    let ks = keys_of(s);
    let p = pos_of(ks, k, 0);
    lemma_pos(ks, k, 0);
    let t = put_of(s, k, v);
    let kt = keys_of(t);
    if p < s.len() && s[p].0 == k {
        assert(kt =~= ks);
        assert(kt[p] == k);
        lemma_pos_exact(kt, p, 0);
        if other != k {
            lemma_pos(ks, other, 0);
        }
    } else {
        assert(kt =~= ks.insert(p, k));
        assert forall|i: int, j: int|
            #![trigger kt[i], kt[j]]
            0 <= i < j < kt.len() implies key_lt(kt[i], kt[j]) by {
            if i < p && j == p {
                assert(key_lt(ks[i], k));
            } else if i == p {
                // The key at `p` does not come before `k` and differs from it.
                let x = ks[p];
                law_key_order(x, k, k);
                law_key_order(k, x, ks[j - 1]);
                if p < j - 1 {
                    assert(key_lt(ks[p], ks[j - 1]));
                }
            } else if i < p && j > p {
                assert(key_lt(ks[i], ks[j - 1]));
            } else if i > p {
                assert(key_lt(ks[i - 1], ks[j - 1]));
            } else {
                assert(key_lt(ks[i], ks[j]));
            }
        }
        assert(kt[p] == k);
        lemma_pos_exact(kt, p, 0);
        if other != k {
            lemma_get_skip(s, t, p, other);
        }
    }
}

/// An entry with another key does not change what is found under `other`.
proof fn lemma_get_skip<V>(s: Seq<(Seq<char>, V)>, t: Seq<(Seq<char>, V)>, p: int, other: Seq<char>)
    requires
        0 <= p <= s.len(),
        t.len() == s.len() + 1,
        forall|i: int| 0 <= i < p ==> #[trigger] t[i] == s[i],
        forall|i: int| p <= i < s.len() ==> #[trigger] s[i] == t[i + 1],
        t[p].0 != other,
        ascending(keys_of(s)),
        ascending(keys_of(t)),
    ensures
        get_of(t, other) == get_of(s, other),
{
    let ks = keys_of(s);
    let kt = keys_of(t);
    let q = pos_of(ks, other, 0);
    let r = pos_of(kt, other, 0);
    lemma_pos(ks, other, 0);
    lemma_pos(kt, other, 0);
    if get_of(s, other) is Some {
        if q < p {
            assert(kt[q] == other);
            lemma_pos_exact(kt, q, 0);
        } else {
            assert(s[q] == t[q + 1]);
            assert(kt[q + 1] == other);
            lemma_pos_exact(kt, q + 1, 0);
        }
    } else if get_of(t, other) is Some {
        if r < p {
            assert(t[r] == s[r]);
            assert(ks[r] == other);
            lemma_pos_exact(ks, r, 0);
        } else {
            assert(s[r - 1] == t[r]);
            assert(ks[r - 1] == other);
            lemma_pos_exact(ks, r - 1, 0);
        }
    }
}

/// The keys of a vector of named values.
pub open spec fn vec_keys<T>(v: Seq<(String, T)>) -> Seq<Seq<char>> {
    Seq::new(v.len(), |i: int| v[i].0@)
}

/// Where `k` stands, or belongs, in a vector of named values.
pub fn position<T>(v: &Vec<(String, T)>, k: &str) -> (r: usize)
    ensures
        r == pos_of(vec_keys(v@), k@, 0),
        r <= v@.len(),
{
    let ghost keys = vec_keys(v@);
    let mut i: usize = 0;
    while i < v.len() && before(v[i].0.as_str(), k)
        invariant
            keys == vec_keys(v@),
            i <= v@.len(),
            pos_of(keys, k@, i as int) == pos_of(keys, k@, 0),
        decreases v@.len() - i,
    {
        i += 1;
    }
    i
}

/// A map from names to values, in the order of its keys.
#[derive(Debug, PartialEq, Eq)]
pub struct NameMap<T> {
    entries: Vec<(String, T)>,
}

impl<T> NameMap<T> {
    #[verifier::type_invariant]
    spec fn wf(self) -> bool {
        ascending(vec_keys(self.entries@))
    }
}

impl<T: View> View for NameMap<T> {
    type V = Seq<(Seq<char>, T::V)>;

    closed spec fn view(&self) -> Seq<(Seq<char>, T::V)> {
        Seq::new(self.entries@.len(), |i: int| (self.entries@[i].0@, self.entries@[i].1@))
    }
}

impl<T: View> Default for NameMap<T> {
    fn default() -> (r: Self)
        ensures
            r@.len() == 0,
    {
        NameMap { entries: Vec::new() }
    }
}

impl<T: View> NameMap<T> {
    pub fn new() -> (r: Self)
        ensures
            r@ == Seq::<(Seq<char>, T::V)>::empty(),
    {
        let r = NameMap { entries: Vec::new() };
        assert(r@ =~= Seq::<(Seq<char>, T::V)>::empty());
        r
    }

    /// The value stored under `key`.
    pub fn get(&self, key: &str) -> (r: Option<&T>)
        ensures
            match r {
                Some(v) => get_of(self@, key@) == Some(v@),
                None => get_of(self@, key@) is None,
            },
            ascending(keys_of(self@)),
    {
        proof {
            use_type_invariant(self);
        }
        let p: usize = position(&self.entries, key);
        assert(vec_keys(self.entries@) =~= keys_of(self@));
        if p < self.entries.len() && same(self.entries[p].0.as_str(), key) {
            Some(&self.entries[p].1)
        } else {
            None
        }
    }

    /// Whether a value is stored under `key`.
    pub fn contains_key(&self, key: &str) -> (r: bool)
        ensures
            r == get_of(self@, key@) is Some,
    {
        self.get(key).is_some()
    }

    /// Store `value` under `key`, replacing an earlier one.
    pub fn insert(&mut self, key: String, value: T)
        ensures
            final(self)@ == put_of(old(self)@, key@, value@),
            ascending(keys_of(final(self)@)),
    {
        proof {
            use_type_invariant(&*self);
            assert(vec_keys(self.entries@) =~= keys_of(self@));
            law_put_get(self@, key@, value@, key@);
        }
        let mut entries: Vec<(String, T)> = Vec::new();
        std::mem::swap(&mut entries, &mut self.entries);
        let ghost s0 = old(self)@;
        assert(vec_keys(entries@) =~= keys_of(s0));
        let p: usize = position(&entries, key.as_str());
        let ghost k = key@;
        let ghost v = value@;
        let ghost e0 = entries@;
        if p < entries.len() && same(entries[p].0.as_str(), key.as_str()) {
            entries.set(p, (key, value));
            assert(vec_keys(entries@) =~= keys_of(s0.update(p as int, (k, v))));
        } else {
            entries.insert(p, (key, value));
            assert(vec_keys(entries@) =~= keys_of(s0.insert(p as int, (k, v))));
        }
        std::mem::swap(&mut entries, &mut self.entries);
        assert(self@ =~= put_of(s0, k, v));
    }

    /// Append an entry whose key comes after those present.
    pub fn push(&mut self, key: String, value: T)
        requires
            ascending(keys_of(old(self)@.push((key@, value@)))),
        ensures
            final(self)@ == old(self)@.push((key@, value@)),
    {
        let ghost k = key@;
        let ghost v = value@;
        let ghost s0 = old(self)@;
        let mut entries: Vec<(String, T)> = Vec::new();
        std::mem::swap(&mut entries, &mut self.entries);
        entries.push((key, value));
        assert(vec_keys(entries@) =~= keys_of(s0.push((k, v))));
        std::mem::swap(&mut entries, &mut self.entries);
        assert(self@ =~= s0.push((k, v)));
    }

    /// Number of entries. The keys ascend.
    pub fn len(&self) -> (r: usize)
        ensures
            r == self@.len(),
            ascending(keys_of(self@)),
    {
        proof {
            use_type_invariant(self);
            assert(vec_keys(self.entries@) =~= keys_of(self@));
        }
        self.entries.len()
    }

    /// The `i`-th key, in order.
    pub fn key(&self, i: usize) -> (r: &String)
        requires
            i < self@.len(),
        ensures
            r@ == self@[i as int].0,
    {
        &self.entries[i].0
    }

    /// The value of the `i`-th key, in order.
    pub fn value(&self, i: usize) -> (r: &T)
        requires
            i < self@.len(),
        ensures
            r@ == self@[i as int].1,
    {
        &self.entries[i].1
    }
}

} // verus!
