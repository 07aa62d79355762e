//! A map from text keys to values whose entries stay in ascending key order.
//!
//! Keys are ordered as strings are: by their UTF-8 bytes, lexicographically.

use vstd::prelude::*;
use vstd::utf8::*;
use crate::value::Value;

verus! {

broadcast use encode_utf8_decode_utf8;

/// The UTF-8 encoding of a key.
pub open spec fn key_bytes(k: Seq<char>) -> Seq<u8> {
    encode_utf8(k)
}

/// Lexicographic order on byte strings, a proper prefix coming first.
pub open spec fn bytes_lt(a: Seq<u8>, b: Seq<u8>) -> bool
    decreases a.len(),
{
    if b.len() == 0 {
        false
    } else if a.len() == 0 {
        true
    } else if a[0] != b[0] {
        a[0] < b[0]
    } else {
        bytes_lt(a.drop_first(), b.drop_first())
    }
}

/// The order of keys: that of their UTF-8 encodings.
pub open spec fn key_lt(a: Seq<char>, b: Seq<char>) -> bool {
    bytes_lt(key_bytes(a), key_bytes(b))
}

/// No byte string comes before itself.
pub proof fn lemma_bytes_lt_irreflexive(a: Seq<u8>)
    ensures
        !bytes_lt(a, a),
    decreases a.len(),
{
    if a.len() > 0 {
        lemma_bytes_lt_irreflexive(a.drop_first());
    }
}

/// The order is transitive.
pub proof fn lemma_bytes_lt_transitive(a: Seq<u8>, b: Seq<u8>, c: Seq<u8>)
    requires
        bytes_lt(a, b),
        bytes_lt(b, c),
    ensures
        bytes_lt(a, c),
    decreases a.len(),
{
    if a.len() > 0 && b.len() > 0 && c.len() > 0 && a[0] == b[0] && b[0] == c[0] {
        lemma_bytes_lt_transitive(a.drop_first(), b.drop_first(), c.drop_first());
    }
}

/// Two byte strings are equal or one comes before the other.
pub proof fn lemma_bytes_lt_total(a: Seq<u8>, b: Seq<u8>)
    ensures
        a == b || bytes_lt(a, b) || bytes_lt(b, a),
    decreases a.len(),
{
    if a.len() > 0 && b.len() > 0 && a[0] == b[0] {
        lemma_bytes_lt_total(a.drop_first(), b.drop_first());
        if a.drop_first() == b.drop_first() {
            assert(a =~= seq![a[0]] + a.drop_first());
            assert(b =~= seq![b[0]] + b.drop_first());
        }
    } else if a.len() == 0 && b.len() == 0 {
        assert(a =~= b);
    }
}

/// Keys with the same encoding are the same key.
pub proof fn lemma_key_bytes_injective(a: Seq<char>, b: Seq<char>)
    requires
        key_bytes(a) == key_bytes(b),
    ensures
        a == b,
{
    assert(decode_utf8(encode_utf8(a)) == a);
    assert(decode_utf8(encode_utf8(b)) == b);
}

/// How one key stands to another.
#[derive(Debug, Clone, Copy, PartialEq, Eq, Structural)]
pub enum KeyOrder {
    Less,
    Equal,
    Greater,
}

/// Compares two keys in the order of the map.
pub fn compare_keys(a: &str, b: &str) -> (r: KeyOrder)
    ensures
        r == KeyOrder::Less <==> key_lt(a@, b@),
        r == KeyOrder::Equal <==> a@ == b@,
        r == KeyOrder::Greater <==> key_lt(b@, a@),
{
    let x = a.as_bytes();
    let y = b.as_bytes();
    let ghost xs = key_bytes(a@);
    let ghost ys = key_bytes(b@);
    let mut i: usize = 0;
    proof {
        assert(xs.skip(0) =~= xs);
        assert(ys.skip(0) =~= ys);
    }
    while i < x.len() && i < y.len() && x[i] == y[i]
        invariant
            x@ == xs,
            y@ == ys,
            i <= xs.len(),
            i <= ys.len(),
            xs.take(i as int) =~= ys.take(i as int),
            bytes_lt(xs, ys) == bytes_lt(xs.skip(i as int), ys.skip(i as int)),
            bytes_lt(ys, xs) == bytes_lt(ys.skip(i as int), xs.skip(i as int)),
        decreases x.len() - i,
    {
        proof {
            assert(xs.skip(i as int).drop_first() =~= xs.skip(i + 1));
            assert(ys.skip(i as int).drop_first() =~= ys.skip(i + 1));
            assert(xs.take(i + 1) =~= xs.take(i as int).push(xs[i as int]));
            assert(ys.take(i + 1) =~= ys.take(i as int).push(ys[i as int]));
        }
        i = i + 1;
    }
    let r = if i < x.len() && i < y.len() {
        if x[i] < y[i] {
            KeyOrder::Less
        } else {
            KeyOrder::Greater
        }
    } else if i < y.len() {
        KeyOrder::Less
    } else if i < x.len() {
        KeyOrder::Greater
    } else {
        KeyOrder::Equal
    };
    proof {
        lemma_bytes_lt_irreflexive(xs);
        if i == xs.len() && i == ys.len() {
            assert(xs =~= xs.take(i as int));
            assert(ys =~= ys.take(i as int));
            lemma_key_bytes_injective(a@, b@);
        }
        if a@ == b@ {
            assert(xs == ys);
        }
        if bytes_lt(xs, ys) {
            if bytes_lt(ys, xs) {
                lemma_bytes_lt_transitive(xs, ys, xs);
            }
        }
    }
    r
}

/// The position of a key among the entries, where it occurs.
pub open spec fn index_of(s: Seq<(String, Value)>, k: Seq<char>) -> int {
    choose|i: int| 0 <= i < s.len() && s[i].0@ == k
}

/// The keys of the entries are in strictly ascending order.
pub open spec fn sorted_keys(s: Seq<(String, Value)>) -> bool {
    forall|i: int, j: int| 0 <= i < j < s.len() ==> key_lt(#[trigger] s[i].0@, #[trigger] s[j].0@)
}

/// The map that a sequence of entries stands for.
pub open spec fn map_of(s: Seq<(String, Value)>) -> Map<Seq<char>, Value> {
    Map::new(
        |k: Seq<char>| exists|i: int| 0 <= i < s.len() && s[i].0@ == k,
        |k: Seq<char>| s[index_of(s, k)].1,
    )
}

/// In sorted entries a key occurs at one position only.
pub proof fn lemma_sorted_unique(s: Seq<(String, Value)>, i: int, j: int)
    requires
        sorted_keys(s),
        0 <= i < s.len(),
        0 <= j < s.len(),
        s[i].0@ == s[j].0@,
    ensures
        i == j,
{
    if i < j {
        lemma_bytes_lt_irreflexive(key_bytes(s[i].0@));
    } else if j < i {
        lemma_bytes_lt_irreflexive(key_bytes(s[i].0@));
    }
}

/// The map of sorted entries sends the key of each entry to its value.
pub proof fn lemma_map_of_entry(s: Seq<(String, Value)>, i: int)
    requires
        sorted_keys(s),
        0 <= i < s.len(),
    ensures
        map_of(s).contains_key(s[i].0@),
        map_of(s)[s[i].0@] == s[i].1,
        index_of(s, s[i].0@) == i,
{
    let k = s[i].0@;
    assert(exists|j: int| 0 <= j < s.len() && s[j].0@ == k);
    let j = index_of(s, k);
    lemma_sorted_unique(s, i, j);
}

/// A map from text keys to values, kept in ascending key order.
pub struct ValueMap {
    entries: Vec<(String, Value)>,
}

impl View for ValueMap {
    type V = Map<Seq<char>, Value>;

    open spec fn view(&self) -> Map<Seq<char>, Value> {
        map_of(self.entries())
    }
}

impl ValueMap {
    /// The entries, in the order in which they are kept.
    pub closed spec fn entries(&self) -> Seq<(String, Value)> {
        self.entries@
    }

    /// The entries are in strictly ascending key order.
    pub open spec fn wf(&self) -> bool {
        sorted_keys(self.entries())
    }

    /// An empty map.
    pub fn new() -> (m: Self)
        ensures
            m.wf(),
            m.entries().len() == 0,
            m@ == Map::<Seq<char>, Value>::empty(),
    {
        let m = ValueMap { entries: Vec::new() };
        assert(m@ =~= Map::<Seq<char>, Value>::empty());
        m
    }

    /// The number of entries.
    pub fn len(&self) -> (n: usize)
        requires
            self.wf(),
        ensures
            n == self.entries().len(),
            n == self@.len(),
    {
        proof {
            self.lemma_len();
        }
        self.entries.len()
    }

    /// The entries, moved out in ascending key order.
    pub fn into_entries(self) -> (v: Vec<(String, Value)>)
        ensures
            v@ == self.entries(),
    {
        self.entries
    }

    /// Finds the position of a key.
    fn find(&self, key: &str) -> (r: Option<usize>)
        requires
            self.wf(),
        ensures
            match r {
                Some(i) => i < self.entries().len() && self.entries()[i as int].0@ == key@,
                None => !self@.contains_key(key@),
            },
    {
        let mut i: usize = 0;
        while i < self.entries.len()
            invariant
                i <= self.entries@.len(),
                forall|j: int| 0 <= j < i ==> self.entries@[j].0@ != key@,
            decreases self.entries@.len() - i,
        {
            if compare_keys(self.entries[i].0.as_str(), key) == KeyOrder::Equal {
                return Some(i);
            }
            i = i + 1;
        }
        None
    }

    /// The value under a key, if there is one.
    pub fn get(&self, key: &str) -> (r: Option<&Value>)
        requires
            self.wf(),
        ensures
            match r {
                Some(v) => self@.contains_key(key@) && self@[key@] == *v,
                None => !self@.contains_key(key@),
            },
    {
        match self.find(key) {
            Some(i) => {
                proof {
                    lemma_map_of_entry(self.entries@, i as int);
                }
                Some(&self.entries[i].1)
            },
            None => None,
        }
    }

    /// Puts a value under a key, replacing the one it held.
    pub fn insert(&mut self, key: String, value: Value)
        requires
            old(self).wf(),
        ensures
            final(self).wf(),
            final(self)@ == old(self)@.insert(key@, value),
    {
        let ghost s = self.entries@;
        let ghost k = key@;
        let mut i: usize = 0;
        while i < self.entries.len()
            invariant_except_break
                self.entries@ == s,
                s == old(self).entries(),
                sorted_keys(s),
                i <= s.len(),
                key@ == k,
                forall|j: int| 0 <= j < i ==> key_lt(#[trigger] s[j].0@, k),
            ensures
                self.entries@ == s,
                s == old(self).entries(),
                key@ == k,
                i <= s.len(),
                forall|j: int| 0 <= j < i ==> key_lt(#[trigger] s[j].0@, k),
                i < s.len() ==> key_lt(k, s[i as int].0@),
            decreases s.len() - i,
        {
            let order = compare_keys(self.entries[i].0.as_str(), key.as_str());
            if order == KeyOrder::Equal {
                assert(s[i as int].0@ == k);
                self.entries.set(i, (key, value));
                proof {
                    let t = self.entries@;
                    assert(sorted_keys(t)) by {
                        assert forall|a: int, b: int| 0 <= a < b < t.len() implies key_lt(
                            #[trigger] t[a].0@,
                            #[trigger] t[b].0@,
                        ) by {
                            assert(s[a].0@ == t[a].0@);
                            assert(s[b].0@ == t[b].0@);
                        }
                    }
                    assert(map_of(t) =~= map_of(s).insert(k, value)) by {
                        lemma_map_of_entry(t, i as int);
                        assert forall|q: Seq<char>| #[trigger] map_of(t).contains_key(q) <==> map_of(
                            s,
                        ).insert(k, value).contains_key(q) by {
                            if q == k {
                                assert(t[i as int].0@ == q);
                            } else {
                                if map_of(t).contains_key(q) {
                                    let j = choose|j: int| 0 <= j < t.len() && t[j].0@ == q;
                                    assert(s[j].0@ == q);
                                }
                                if map_of(s).contains_key(q) {
                                    let j = choose|j: int| 0 <= j < s.len() && s[j].0@ == q;
                                    assert(t[j].0@ == q);
                                }
                            }
                        }
                        assert forall|q: Seq<char>| #[trigger] map_of(t).contains_key(q) implies map_of(
                            t,
                        )[q] == map_of(s).insert(k, value)[q] by {
                            if q != k {
                                let j = choose|j: int| 0 <= j < t.len() && t[j].0@ == q;
                                lemma_map_of_entry(t, j);
                                assert(s[j].0@ == q);
                                lemma_map_of_entry(s, j);
                            }
                        }
                    }
                }
                return;
            } else if order == KeyOrder::Greater {
                break;
            }
            assert(key_lt(s[i as int].0@, k));
            i = i + 1;
        }
        // Every key before position `i` is below `key`; the key at `i`, if any, is above it.
        proof {
            assert(i < s.len() ==> key_lt(k, s[i as int].0@));
        }
        self.entries.insert(i, (key, value));
        proof {
            let t = self.entries@;
            assert(t.len() == s.len() + 1);
            assert forall|j: int| 0 <= j < i implies t[j] == s[j] by {}
            assert forall|j: int| i < j < t.len() implies t[j] == s[j - 1] by {}
            assert(t[i as int].0@ == k);
            assert(sorted_keys(t)) by {
                assert forall|a: int, b: int| 0 <= a < b < t.len() implies key_lt(
                    #[trigger] t[a].0@,
                    #[trigger] t[b].0@,
                ) by {
                    if b < i {
                    } else if a < i && b == i {
                    } else if a < i && b > i {
                        assert(t[b] == s[b - 1]);
                        if b - 1 == i {
                        } else {
                            assert(key_lt(s[i as int].0@, s[b - 1].0@));
                            lemma_bytes_lt_transitive(
                                key_bytes(k),
                                key_bytes(s[i as int].0@),
                                key_bytes(s[b - 1].0@),
                            );
                        }
                        lemma_bytes_lt_transitive(
                            key_bytes(s[a].0@),
                            key_bytes(k),
                            key_bytes(s[b - 1].0@),
                        );
                    } else if a == i {
                        assert(t[b] == s[b - 1]);
                        if b - 1 > i {
                            assert(key_lt(s[i as int].0@, s[b - 1].0@));
                            lemma_bytes_lt_transitive(
                                key_bytes(k),
                                key_bytes(s[i as int].0@),
                                key_bytes(s[b - 1].0@),
                            );
                        }
                    } else {
                        assert(t[a] == s[a - 1]);
                        assert(t[b] == s[b - 1]);
                    }
                }
            }
            assert(!map_of(s).contains_key(k)) by {
                if map_of(s).contains_key(k) {
                    let j = choose|j: int| 0 <= j < s.len() && s[j].0@ == k;
                    lemma_bytes_lt_irreflexive(key_bytes(k));
                    if j < i {
                    } else {
                        if j > i {
                            lemma_bytes_lt_transitive(
                                key_bytes(k),
                                key_bytes(s[i as int].0@),
                                key_bytes(k),
                            );
                        }
                    }
                }
            }
            assert(map_of(t) =~= map_of(s).insert(k, value)) by {
                lemma_map_of_entry(t, i as int);
                assert forall|q: Seq<char>| #[trigger] map_of(t).contains_key(q) <==> map_of(
                    s,
                ).insert(k, value).contains_key(q) by {
                    if map_of(t).contains_key(q) && q != k {
                        let j = choose|j: int| 0 <= j < t.len() && t[j].0@ == q;
                        if j < i {
                            assert(s[j].0@ == q);
                        } else {
                            assert(s[j - 1].0@ == q);
                        }
                    }
                    if map_of(s).contains_key(q) {
                        let j = choose|j: int| 0 <= j < s.len() && s[j].0@ == q;
                        if j < i {
                            assert(t[j].0@ == q);
                        } else {
                            assert(t[j + 1].0@ == q);
                        }
                    }
                }
                assert forall|q: Seq<char>| #[trigger] map_of(t).contains_key(q) implies map_of(
                    t,
                )[q] == map_of(s).insert(k, value)[q] by {
                    if q != k {
                        let j = choose|j: int| 0 <= j < t.len() && t[j].0@ == q;
                        lemma_map_of_entry(t, j);
                        if j < i {
                            lemma_map_of_entry(s, j);
                        } else {
                            lemma_map_of_entry(s, j - 1);
                        }
                    }
                }
            }
        }
    }

    /// Takes out the value under a key, if there is one.
    pub fn remove(&mut self, key: &str) -> (r: Option<Value>)
        requires
            old(self).wf(),
        ensures
            final(self).wf(),
            final(self)@ == old(self)@.remove(key@),
            match r {
                Some(v) => old(self)@.contains_key(key@) && old(self)@[key@] == v,
                None => !old(self)@.contains_key(key@),
            },
    {
        let ghost s = self.entries@;
        match self.find(key) {
            None => {
                assert(map_of(s) =~= map_of(s).remove(key@));
                None
            },
            Some(i) => {
                proof {
                    lemma_map_of_entry(s, i as int);
                }
                let (_k, v) = self.entries.remove(i);
                proof {
                    let t = self.entries@;
                    let k = key@;
                    assert forall|j: int| 0 <= j < i implies t[j] == s[j] by {}
                    assert forall|j: int| i <= j < t.len() implies t[j] == s[j + 1] by {}
                    assert(sorted_keys(t)) by {
                        assert forall|a: int, b: int| 0 <= a < b < t.len() implies key_lt(
                            #[trigger] t[a].0@,
                            #[trigger] t[b].0@,
                        ) by {
                            let a0 = if a < i { a } else { a + 1 };
                            let b0 = if b < i { b } else { b + 1 };
                            assert(t[a] == s[a0]);
                            assert(t[b] == s[b0]);
                        }
                    }
                    assert(map_of(t) =~= map_of(s).remove(k)) by {
                        assert forall|q: Seq<char>| #[trigger] map_of(t).contains_key(q) <==> map_of(
                            s,
                        ).remove(k).contains_key(q) by {
                            if map_of(t).contains_key(q) {
                                let j = choose|j: int| 0 <= j < t.len() && t[j].0@ == q;
                                let j0 = if j < i { j } else { j + 1 };
                                assert(s[j0].0@ == q);
                                if q == k {
                                    lemma_sorted_unique(s, j0, i as int);
                                }
                            }
                            if map_of(s).contains_key(q) && q != k {
                                let j = choose|j: int| 0 <= j < s.len() && s[j].0@ == q;
                                if j < i {
                                    assert(t[j].0@ == q);
                                } else {
                                    assert(t[j - 1].0@ == q);
                                }
                            }
                        }
                        assert forall|q: Seq<char>| #[trigger] map_of(t).contains_key(q) implies map_of(
                            t,
                        )[q] == map_of(s).remove(k)[q] by {
                            let j = choose|j: int| 0 <= j < t.len() && t[j].0@ == q;
                            lemma_map_of_entry(t, j);
                            let j0 = if j < i { j } else { j + 1 };
                            lemma_map_of_entry(s, j0);
                        }
                    }
                }
                Some(v)
            },
        }
    }

    /// The map holds one key per entry.
    pub proof fn lemma_len(&self)
        requires
            self.wf(),
        ensures
            self@.len() == self.entries().len(),
            self@.dom().finite(),
    {
        let s = self.entries();
        let keys = s.map_values(|e: (String, Value)| e.0@);
        assert(self@.dom() =~= keys.to_set()) by {
            assert forall|q: Seq<char>| #[trigger] self@.dom().contains(q) <==> keys.to_set().contains(q) by {
                if self@.dom().contains(q) {
                    let j = choose|j: int| 0 <= j < s.len() && s[j].0@ == q;
                    assert(keys[j] == q);
                }
                if keys.to_set().contains(q) {
                    let j = choose|j: int| 0 <= j < keys.len() && keys[j] == q;
                    assert(s[j].0@ == q);
                }
            }
        }
        assert(keys.no_duplicates()) by {
            assert forall|a: int, b: int| 0 <= a < keys.len() && 0 <= b < keys.len() && a != b implies keys[a] != keys[b] by {
                if keys[a] == keys[b] {
                    lemma_sorted_unique(s, a, b);
                }
            }
        }
        keys.unique_seq_to_set();
    }
}

} // verus!
