//! Maps with text keys, kept in ascending key order.

use vstd::prelude::*;
use crate::text::chars_of;

verus! {

/// `a` comes strictly before `b` in the order of `String`: the first
/// differing character decides, and a proper prefix comes first.
pub open spec fn lex_lt(a: Seq<char>, b: Seq<char>) -> bool
    decreases a.len(),
{
    if a.len() == 0 {
        b.len() > 0
    } else if b.len() == 0 {
        false
    } else if a[0] != b[0] {
        (a[0] as u32) < (b[0] as u32)
    } else {
        lex_lt(a.drop_first(), b.drop_first())
    }
}

/// No text comes before itself.
pub proof fn lemma_lex_irreflexive(a: Seq<char>)
    ensures
        !lex_lt(a, a),
    decreases a.len(),
{
    if a.len() > 0 {
        lemma_lex_irreflexive(a.drop_first());
    }
}

/// The order of texts is transitive.
pub proof fn lemma_lex_transitive(a: Seq<char>, b: Seq<char>, c: Seq<char>)
    requires
        lex_lt(a, b),
        lex_lt(b, c),
    ensures
        lex_lt(a, c),
    decreases a.len(),
{
    if a.len() > 0 && b.len() > 0 && c.len() > 0 {
        if a[0] == b[0] && b[0] == c[0] {
            lemma_lex_transitive(a.drop_first(), b.drop_first(), c.drop_first());
        }
    }
}

/// Of two different texts, one comes before the other.
pub proof fn lemma_lex_total(a: Seq<char>, b: Seq<char>)
    requires
        a != b,
    ensures
        lex_lt(a, b) || lex_lt(b, a),
    decreases a.len(),
{
    if a.len() == 0 {
        if b.len() == 0 {
            assert(a =~= b);
        }
    } else if b.len() == 0 {
    } else if a[0] != b[0] {
        vstd::utf8::char_u32_cast(a[0], a[0] as u32);
        vstd::utf8::char_u32_cast(b[0], b[0] as u32);
    } else {
        if a.drop_first() == b.drop_first() {
            assert(a =~= seq![a[0]] + a.drop_first());
            assert(b =~= seq![b[0]] + b.drop_first());
        }
        lemma_lex_total(a.drop_first(), b.drop_first());
    }
}

/// Keys in strictly ascending order.
pub open spec fn keys_ascending<W>(p: Seq<(Seq<char>, W)>) -> bool {
    forall|i: int, j: int| 0 <= i < j < p.len() ==> lex_lt(#[trigger] p[i].0, #[trigger] p[j].0)
}

/// The map that a sequence of pairs stands for; a later pair wins over an
/// earlier one with the same key.
pub open spec fn map_of<W>(p: Seq<(Seq<char>, W)>) -> Map<Seq<char>, W>
    decreases p.len(),
{
    if p.len() == 0 {
        Map::empty()
    } else {
        map_of(p.drop_last()).insert(p.last().0, p.last().1)
    }
}

/// A key has a value exactly where some pair holds it.
pub proof fn lemma_map_of_dom<W>(p: Seq<(Seq<char>, W)>, k: Seq<char>)
    ensures
        map_of(p).contains_key(k) <==> exists|i: int| 0 <= i < p.len() && #[trigger] p[i].0 == k,
    decreases p.len(),
{
    if p.len() > 0 {
        lemma_map_of_dom(p.drop_last(), k);
        if map_of(p.drop_last()).contains_key(k) {
            let i = choose|i: int| 0 <= i < p.drop_last().len() && #[trigger] p.drop_last()[i].0 == k;
            assert(p[i].0 == k);
        }
        if exists|i: int| 0 <= i < p.len() && #[trigger] p[i].0 == k {
            let i = choose|i: int| 0 <= i < p.len() && #[trigger] p[i].0 == k;
            if i < p.len() - 1 {
                assert(p.drop_last()[i].0 == k);
            }
        }
    }
}

/// In ascending pairs, the key at `i` maps to the value at `i`.
pub proof fn lemma_map_of_index<W>(p: Seq<(Seq<char>, W)>, i: int)
    requires
        keys_ascending(p),
        0 <= i < p.len(),
    ensures
        map_of(p).contains_key(p[i].0),
        map_of(p)[p[i].0] == p[i].1,
    decreases p.len(),
{
    lemma_map_of_dom(p, p[i].0);
    if i < p.len() - 1 {
        let q = p.drop_last();
        assert(keys_ascending(q)) by {
            assert forall|a: int, b: int| 0 <= a < b < q.len() implies lex_lt(#[trigger] q[a].0, #[trigger] q[b].0) by {
                assert(q[a] == p[a] && q[b] == p[b]);
            }
        }
        lemma_map_of_index(q, i);
        assert(q[i] == p[i]);
        assert(lex_lt(p[i].0, p.last().0));
        lemma_lex_irreflexive(p[i].0);
    }
}

/// Putting a new key in its place keeps the pairs ascending and adds the key
/// to the map.
pub proof fn lemma_insert_at<W>(p: Seq<(Seq<char>, W)>, i: int, k: Seq<char>, v: W)
    requires
        keys_ascending(p),
        0 <= i <= p.len(),
        forall|j: int| 0 <= j < i ==> lex_lt(#[trigger] p[j].0, k),
        forall|j: int| i <= j < p.len() ==> lex_lt(k, #[trigger] p[j].0),
    ensures
        keys_ascending(p.insert(i, (k, v))),
        map_of(p.insert(i, (k, v))) == map_of(p).insert(k, v),
{
    let q = p.insert(i, (k, v));
    assert forall|a: int, b: int| 0 <= a < b < q.len() implies lex_lt(#[trigger] q[a].0, #[trigger] q[b].0) by {
        if b < i {
        } else if b == i {
        } else if a < i {
            lemma_lex_transitive(p[a].0, k, p[b - 1].0);
        } else if a == i {
        } else {
            assert(q[a] == p[a - 1] && q[b] == p[b - 1]);
        }
    }
    assert forall|k2: Seq<char>| #[trigger] map_of(q).contains_key(k2) == map_of(p).insert(k, v).contains_key(k2) by {
        lemma_map_of_dom(q, k2);
        lemma_map_of_dom(p, k2);
        assert(q[i].0 == k);
        if exists|j: int| 0 <= j < p.len() && #[trigger] p[j].0 == k2 {
            let j = choose|j: int| 0 <= j < p.len() && #[trigger] p[j].0 == k2;
            if j < i {
                assert(q[j].0 == k2);
            } else {
                assert(q[j + 1].0 == k2);
            }
        }
        if exists|j: int| 0 <= j < q.len() && #[trigger] q[j].0 == k2 {
            let j = choose|j: int| 0 <= j < q.len() && #[trigger] q[j].0 == k2;
            if j < i {
                assert(p[j].0 == k2);
            } else if j > i {
                assert(p[j - 1].0 == k2);
            }
        }
    }
    assert forall|k2: Seq<char>| #[trigger] map_of(q).contains_key(k2) implies map_of(q)[k2] == map_of(p).insert(k, v)[k2] by {
        lemma_map_of_dom(q, k2);
        let j = choose|j: int| 0 <= j < q.len() && #[trigger] q[j].0 == k2;
        lemma_map_of_index(q, j);
        if j < i {
            lemma_map_of_index(p, j);
            lemma_lex_irreflexive(k);
        } else if j > i {
            lemma_map_of_index(p, j - 1);
            lemma_lex_irreflexive(k);
        }
    }
    assert(map_of(q) =~= map_of(p).insert(k, v));
}

/// Changing the value at `i` keeps the pairs ascending and changes the value
/// of its key in the map.
pub proof fn lemma_update_at<W>(p: Seq<(Seq<char>, W)>, i: int, v: W)
    requires
        keys_ascending(p),
        0 <= i < p.len(),
    ensures
        keys_ascending(p.update(i, (p[i].0, v))),
        map_of(p.update(i, (p[i].0, v))) == map_of(p).insert(p[i].0, v),
{
    let k = p[i].0;
    let q = p.update(i, (k, v));
    assert forall|a: int, b: int| 0 <= a < b < q.len() implies lex_lt(#[trigger] q[a].0, #[trigger] q[b].0) by {
        assert(q[a].0 == p[a].0 && q[b].0 == p[b].0);
    }
    assert forall|k2: Seq<char>| #[trigger] map_of(q).contains_key(k2) == map_of(p).insert(k, v).contains_key(k2) by {
        lemma_map_of_dom(q, k2);
        lemma_map_of_dom(p, k2);
        if exists|j: int| 0 <= j < p.len() && #[trigger] p[j].0 == k2 {
            let j = choose|j: int| 0 <= j < p.len() && #[trigger] p[j].0 == k2;
            assert(q[j].0 == k2);
        }
        if exists|j: int| 0 <= j < q.len() && #[trigger] q[j].0 == k2 {
            let j = choose|j: int| 0 <= j < q.len() && #[trigger] q[j].0 == k2;
            assert(p[j].0 == k2);
        }
        lemma_map_of_index(p, i);
    }
    assert forall|k2: Seq<char>| #[trigger] map_of(q).contains_key(k2) implies map_of(q)[k2] == map_of(p).insert(k, v)[k2] by {
        lemma_map_of_dom(q, k2);
        let j = choose|j: int| 0 <= j < q.len() && #[trigger] q[j].0 == k2;
        lemma_map_of_index(q, j);
        if j != i {
            lemma_map_of_index(p, j);
            if j < i {
                assert(lex_lt(p[j].0, p[i].0));
            } else {
                assert(lex_lt(p[i].0, p[j].0));
            }
            lemma_lex_irreflexive(k);
        }
    }
    assert(map_of(q) =~= map_of(p).insert(k, v));
}

/// Dropping the pair at `i` keeps the pairs ascending and removes its key
/// from the map.
pub proof fn lemma_remove_at<W>(p: Seq<(Seq<char>, W)>, i: int)
    requires
        keys_ascending(p),
        0 <= i < p.len(),
    ensures
        keys_ascending(p.remove(i)),
        map_of(p.remove(i)) == map_of(p).remove(p[i].0),
{
    let k = p[i].0;
    let q = p.remove(i);
    assert forall|a: int, b: int| 0 <= a < b < q.len() implies lex_lt(#[trigger] q[a].0, #[trigger] q[b].0) by {
        if b < i {
        } else if a < i {
            assert(q[b] == p[b + 1]);
        } else {
            assert(q[a] == p[a + 1] && q[b] == p[b + 1]);
        }
    }
    assert forall|k2: Seq<char>| #[trigger] map_of(q).contains_key(k2) == map_of(p).remove(k).contains_key(k2) by {
        lemma_map_of_dom(q, k2);
        lemma_map_of_dom(p, k2);
        if exists|j: int| 0 <= j < p.len() && #[trigger] p[j].0 == k2 {
            let j = choose|j: int| 0 <= j < p.len() && #[trigger] p[j].0 == k2;
            if j < i {
                assert(q[j].0 == k2);
            } else if j > i {
                assert(q[j - 1].0 == k2);
            }
        }
        if exists|j: int| 0 <= j < q.len() && #[trigger] q[j].0 == k2 {
            let j = choose|j: int| 0 <= j < q.len() && #[trigger] q[j].0 == k2;
            if j < i {
                assert(p[j].0 == k2);
                assert(lex_lt(p[j].0, p[i].0));
            } else {
                assert(p[j + 1].0 == k2);
                assert(lex_lt(p[i].0, p[j + 1].0));
            }
            lemma_lex_irreflexive(k2);
        }
    }
    assert forall|k2: Seq<char>| #[trigger] map_of(q).contains_key(k2) implies map_of(q)[k2] == map_of(p).remove(k)[k2] by {
        lemma_map_of_dom(q, k2);
        let j = choose|j: int| 0 <= j < q.len() && #[trigger] q[j].0 == k2;
        lemma_map_of_index(q, j);
        if j < i {
            lemma_map_of_index(p, j);
        } else {
            lemma_map_of_index(p, j + 1);
        }
    }
    assert(map_of(q) =~= map_of(p).remove(k));
}

/// Whether `a` comes strictly before `b`.
pub fn text_lt(a: &[char], b: &[char]) -> (res: bool)
    ensures
        res == lex_lt(a@, b@),
{
    let mut i: usize = 0;
    assert(a@.skip(0) =~= a@);
    assert(b@.skip(0) =~= b@);
    while i < a.len() && i < b.len() && a[i] == b[i]
        invariant
            i <= a@.len(),
            i <= b@.len(),
            lex_lt(a@, b@) == lex_lt(a@.skip(i as int), b@.skip(i as int)),
        decreases a@.len() - i,
    {
        assert(a@.skip(i as int).drop_first() =~= a@.skip(i + 1));
        assert(b@.skip(i as int).drop_first() =~= b@.skip(i + 1));
        i = i + 1;
    }
    if i == a.len() {
        i < b.len()
    } else if i == b.len() {
        false
    } else {
        (a[i] as u32) < (b[i] as u32)
    }
}

/// Whether `a` and `b` hold the same characters.
pub fn text_eq(a: &[char], b: &[char]) -> (res: bool)
    ensures
        res == (a@ == b@),
{
    if a.len() != b.len() {
        return false;
    }
    let mut i: usize = 0;
    while i < a.len()
        invariant
            i <= a@.len() == b@.len(),
            a@.take(i as int) == b@.take(i as int),
        decreases a@.len() - i,
    {
        if a[i] != b[i] {
            return false;
        }
        assert(a@.take(i + 1) =~= a@.take(i as int).push(a@[i as int]));
        assert(b@.take(i + 1) =~= b@.take(i as int).push(b@[i as int]));
        i = i + 1;
    }
    assert(a@ =~= a@.take(i as int));
    assert(b@ =~= b@.take(i as int));
    true
}

/// A map from texts to values, kept as pairs in ascending key order.
pub struct StrMap<V: DeepView> {
    entries: Vec<(String, V)>,
}

impl<V: DeepView> StrMap<V> {
    /// The pairs of the map, keys and values by their views, in ascending key
    /// order.
    pub closed spec fn pairs(&self) -> Seq<(Seq<char>, V::V)> {
        self.entries@.map_values(|e: (String, V)| (e.0@, e.1.deep_view()))
    }

    #[verifier::type_invariant]
    closed spec fn ascending(&self) -> bool {
        keys_ascending(self.pairs())
    }

    /// The map that the pairs stand for.
    pub open spec fn view(&self) -> Map<Seq<char>, V::V> {
        map_of(self.pairs())
    }

    /// An empty map.
    pub fn new() -> (res: Self)
        ensures
            res.pairs() == Seq::<(Seq<char>, V::V)>::empty(),
            res.view() == Map::<Seq<char>, V::V>::empty(),
    {
        let res = StrMap { entries: Vec::new() };
        assert(res.pairs() =~= Seq::<(Seq<char>, V::V)>::empty());
        assert(res.view() =~= Map::<Seq<char>, V::V>::empty());
        res
    }

    /// The number of keys.
    pub fn len(&self) -> (res: usize)
        ensures
            res == self.pairs().len(),
            keys_ascending(self.pairs()),
    {
        proof {
            use_type_invariant(self);
        }
        self.entries.len()
    }

    /// The first position whose key does not come before `key`, and whether
    /// the key there is `key`.
    fn find(&self, key: &[char]) -> (res: (usize, bool))
        ensures
            res.0 <= self.pairs().len(),
            forall|j: int| 0 <= j < res.0 ==> lex_lt(#[trigger] self.pairs()[j].0, key@),
            forall|j: int| res.0 <= j < self.pairs().len() ==> !lex_lt(#[trigger] self.pairs()[j].0, key@),
            res.1 <==> res.0 < self.pairs().len() && self.pairs()[res.0 as int].0 == key@,
            res.1 ==> map_of(self.pairs()).contains_key(key@) && map_of(self.pairs())[key@] == self.pairs()[res.0 as int].1,
            !res.1 ==> !map_of(self.pairs()).contains_key(key@),
    {
        proof {
            use_type_invariant(self);
        }
        let ghost p = self.pairs();
        let mut i: usize = 0;
        while i < self.entries.len()
            invariant
                p == self.pairs(),
                keys_ascending(p),
                i <= p.len(),
                p.len() == self.entries@.len(),
                forall|j: int| 0 <= j < i ==> lex_lt(#[trigger] p[j].0, key@),
            decreases p.len() - i,
        {
            let k = chars_of(self.entries[i].0.as_str());
            assert(k@ == p[i as int].0);
            if !text_lt(k.as_slice(), key) {
                proof {
                    assert forall|j: int| i <= j < p.len() implies !lex_lt(#[trigger] p[j].0, key@) by {
                        if j > i && lex_lt(p[j].0, key@) {
                            assert(lex_lt(p[i as int].0, p[j].0));
                            lemma_lex_transitive(p[i as int].0, p[j].0, key@);
                        }
                    }
                }
                let found = text_eq(k.as_slice(), key);
                proof {
                    if found {
                        lemma_map_of_index(p, i as int);
                    } else {
                        assert forall|j: int| 0 <= j < p.len() implies #[trigger] p[j].0 != key@ by {
                            if j > i && p[j].0 == key@ {
                                assert(lex_lt(p[i as int].0, p[j].0));
                                lemma_lex_total(p[i as int].0, key@);
                            }
                            if j < i {
                                lemma_lex_irreflexive(key@);
                            }
                        }
                        lemma_map_of_dom(p, key@);
                    }
                }
                return (i, found);
            }
            i = i + 1;
        }
        proof {
            assert forall|j: int| 0 <= j < p.len() implies #[trigger] p[j].0 != key@ by {
                lemma_lex_irreflexive(key@);
            }
            lemma_map_of_dom(p, key@);
        }
        (i, false)
    }

    /// Whether `key` has a value.
    pub fn contains_key(&self, key: &str) -> (res: bool)
        ensures
            res == self.view().contains_key(key@),
    {
        let k = chars_of(key);
        self.find(k.as_slice()).1
    }

    /// The value of `key`, if it has one.
    pub fn get(&self, key: &str) -> (res: Option<&V>)
        ensures
            res is Some <==> self.view().contains_key(key@),
            res matches Some(v) ==> v.deep_view() == self.view()[key@],
    {
        let k = chars_of(key);
        let (i, found) = self.find(k.as_slice());
        if found {
            Some(&self.entries[i].1)
        } else {
            None
        }
    }

    /// Sets the value of `key` to `value`, returning the value it had.
    pub fn insert(&mut self, key: String, value: V) -> (res: Option<V>)
        ensures
            final(self).view() == old(self).view().insert(key@, value.deep_view()),
            res is Some <==> old(self).view().contains_key(key@),
            res matches Some(v) ==> v.deep_view() == old(self).view()[key@],
            final(self).pairs().len() == if old(self).view().contains_key(key@) {
                old(self).pairs().len()
            } else {
                old(self).pairs().len() + 1
            },
    {
        let k = chars_of(key.as_str());
        let (i, found) = self.find(k.as_slice());
        proof {
            use_type_invariant(&*self);
        }
        let ghost p = self.pairs();
        let mut entries: Vec<(String, V)> = Vec::new();
        std::mem::swap(&mut entries, &mut self.entries);
        assert(entries@.map_values(|e: (String, V)| (e.0@, e.1.deep_view())) == p);
        if found {
            let old_entry = entries.remove(i);
            entries.insert(i, (key, value));
            proof {
                lemma_update_at(p, i as int, value.deep_view());
                assert(entries@.map_values(|e: (String, V)| (e.0@, e.1.deep_view())) =~= p.update(
                    i as int,
                    (p[i as int].0, value.deep_view()),
                ));
            }
            self.entries = entries;
            Some(old_entry.1)
        } else {
            entries.insert(i, (key, value));
            proof {
                assert forall|j: int| i <= j < p.len() implies lex_lt(k@, #[trigger] p[j].0) by {
                    if j == i {
                        lemma_lex_total(k@, p[j].0);
                    } else {
                        assert(lex_lt(p[i as int].0, p[j].0));
                        if !lex_lt(k@, p[i as int].0) {
                            lemma_lex_total(k@, p[i as int].0);
                        }
                        lemma_lex_transitive(k@, p[i as int].0, p[j].0);
                    }
                }
                lemma_insert_at(p, i as int, k@, value.deep_view());
                assert(entries@.map_values(|e: (String, V)| (e.0@, e.1.deep_view())) =~= p.insert(
                    i as int,
                    (k@, value.deep_view()),
                ));
            }
            self.entries = entries;
            None
        }
    }

    /// Removes `key`, returning the value it had.
    pub fn remove(&mut self, key: &str) -> (res: Option<V>)
        ensures
            final(self).view() == old(self).view().remove(key@),
            res is Some <==> old(self).view().contains_key(key@),
            res matches Some(v) ==> v.deep_view() == old(self).view()[key@],
    {
        let k = chars_of(key);
        let (i, found) = self.find(k.as_slice());
        if !found {
            assert(old(self).view().remove(key@) =~= old(self).view());
            return None;
        }
        proof {
            use_type_invariant(&*self);
        }
        let ghost p = self.pairs();
        let mut entries: Vec<(String, V)> = Vec::new();
        std::mem::swap(&mut entries, &mut self.entries);
        assert(entries@.map_values(|e: (String, V)| (e.0@, e.1.deep_view())) == p);
        let old_entry = entries.remove(i);
        proof {
            lemma_remove_at(p, i as int);
            assert(entries@.map_values(|e: (String, V)| (e.0@, e.1.deep_view())) =~= p.remove(i as int));
        }
        self.entries = entries;
        Some(old_entry.1)
    }

    /// Removes every key.
    pub fn clear(&mut self)
        ensures
            final(self).view() == Map::<Seq<char>, V::V>::empty(),
            final(self).pairs().len() == 0,
    {
        self.entries = Vec::new();
        assert(self.pairs() =~= Seq::<(Seq<char>, V::V)>::empty());
        assert(self.view() =~= Map::<Seq<char>, V::V>::empty());
    }

    /// The key and value at position `i` in ascending key order.
    pub fn entry_at(&self, i: usize) -> (res: (&String, &V))
        requires
            i < self.pairs().len(),
        ensures
            res.0@ == self.pairs()[i as int].0,
            res.1.deep_view() == self.pairs()[i as int].1,
    {
        let e = &self.entries[i];
        (&e.0, &e.1)
    }
}

} // verus!
