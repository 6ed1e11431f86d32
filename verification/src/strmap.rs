//! An association map keyed by `String`, the shape shared by the token
//! registry, the invalidation state store, the known-routes catalog and the
//! session registry. Its mathematical model is a `Map<Seq<char>, V>`.
use vstd::prelude::*;

verus! {

/// No two entries of the sequence carry the same key.
pub open spec fn unique_keys<V>(s: Seq<(String, V)>) -> bool {
    forall|i: int, j: int|
        0 <= i < j < s.len() ==> #[trigger] s[i].0@ != #[trigger] s[j].0@
}

/// The map described by a sequence of key/value pairs; a later entry for a
/// key overrides an earlier one.
pub open spec fn map_of<V>(s: Seq<(String, V)>) -> Map<Seq<char>, V>
    decreases s.len(),
{
    if s.len() == 0 {
        Map::empty()
    } else {
        map_of(s.drop_last()).insert(s.last().0@, s.last().1)
    }
}

/// A key is in the map exactly when some entry carries it.
pub proof fn lemma_map_of_contains<V>(s: Seq<(String, V)>, k: Seq<char>)
    ensures
        map_of(s).contains_key(k) <==> exists|i: int| 0 <= i < s.len() && #[trigger] s[i].0@ == k,
    decreases s.len(),
{
    if s.len() > 0 {
        lemma_map_of_contains(s.drop_last(), k);
        if s.last().0@ == k {
            assert(s[s.len() - 1].0@ == k);
        } else {
            if exists|i: int| 0 <= i < s.len() && #[trigger] s[i].0@ == k {
                let i = choose|i: int| 0 <= i < s.len() && #[trigger] s[i].0@ == k;
                assert(s.drop_last()[i].0@ == k);
            }
        }
    }
}

/// No entry carries the key, so the map lacks it.
pub proof fn lemma_map_of_absent<V>(s: Seq<(String, V)>, k: Seq<char>)
    requires
        forall|i: int| 0 <= i < s.len() ==> #[trigger] s[i].0@ != k,
    ensures
        !map_of(s).contains_key(k),
{
    lemma_map_of_contains(s, k);
}

/// With unique keys, the map sends each entry's key to that entry's value.
pub proof fn lemma_map_of_index<V>(s: Seq<(String, V)>, i: int)
    requires
        unique_keys(s),
        0 <= i < s.len(),
    ensures
        map_of(s).contains_key(s[i].0@),
        map_of(s)[s[i].0@] == s[i].1,
    decreases s.len(),
{
    if i == s.len() - 1 {
    } else {
        assert(s[i].0@ != s[s.len() - 1].0@);
        assert(s.drop_last()[i] == s[i]);
        lemma_map_of_index(s.drop_last(), i);
    }
}

/// Replacing the entry at `i` by one with the same key updates the map at
/// that key and nothing else.
pub proof fn lemma_map_of_update<V>(s: Seq<(String, V)>, i: int, p: (String, V))
    requires
        unique_keys(s),
        0 <= i < s.len(),
        p.0@ == s[i].0@,
    ensures
        unique_keys(s.update(i, p)),
        map_of(s.update(i, p)) == map_of(s).insert(p.0@, p.1),
    decreases s.len(),
{
    let t = s.update(i, p);
    assert forall|a: int, b: int| 0 <= a < b < t.len() implies #[trigger] t[a].0@
        != #[trigger] t[b].0@ by {
        assert(t[a].0@ == s[a].0@);
        assert(t[b].0@ == s[b].0@);
    }
    if i == s.len() - 1 {
        assert(t.drop_last() =~= s.drop_last());
        assert(map_of(t) =~= map_of(s).insert(p.0@, p.1));
    } else {
        assert(t.drop_last() =~= s.drop_last().update(i, p));
        assert(t.last() == s.last());
        lemma_map_of_update(s.drop_last(), i, p);
        assert(map_of(t) =~= map_of(s).insert(p.0@, p.1));
    }
}

/// Removing the entry at `i` removes exactly that entry's key from the map.
pub proof fn lemma_map_of_remove<V>(s: Seq<(String, V)>, i: int)
    requires
        unique_keys(s),
        0 <= i < s.len(),
    ensures
        unique_keys(s.remove(i)),
        map_of(s.remove(i)) == map_of(s).remove(s[i].0@),
    decreases s.len(),
{
    let t = s.remove(i);
    assert forall|a: int, b: int| 0 <= a < b < t.len() implies #[trigger] t[a].0@
        != #[trigger] t[b].0@ by {
        let a0 = if a < i { a } else { a + 1 };
        let b0 = if b < i { b } else { b + 1 };
        assert(t[a] == s[a0]);
        assert(t[b] == s[b0]);
    }
    if i == s.len() - 1 {
        assert(t =~= s.drop_last());
        assert forall|j: int| 0 <= j < s.drop_last().len() implies #[trigger] s.drop_last()[j].0@
            != s[i].0@ by {}
        lemma_map_of_absent(s.drop_last(), s[i].0@);
        assert(map_of(t) =~= map_of(s).remove(s[i].0@));
    } else {
        assert(t.drop_last() =~= s.drop_last().remove(i));
        assert(t.last() == s.last());
        lemma_map_of_remove(s.drop_last(), i);
        assert(map_of(t) =~= map_of(s).remove(s[i].0@));
    }
}

/// An association map from `String` keys to values of type `V`, viewed as a
/// `Map<Seq<char>, V>`. All operations keep the keys unique.
pub struct StrMap<V> {
    pairs: Vec<(String, V)>,
}

impl<V> View for StrMap<V> {
    type V = Map<Seq<char>, V>;

    closed spec fn view(&self) -> Map<Seq<char>, V> {
        map_of(self.pairs@)
    }
}

impl<V> StrMap<V> {
    /// The underlying entry sequence, for contracts that speak of iteration
    /// order or of entry counts.
    pub closed spec fn entries_seq(&self) -> Seq<(String, V)> {
        self.pairs@
    }

    /// Internal well-formedness: one entry per key.
    pub closed spec fn wf(&self) -> bool {
        unique_keys(self.pairs@)
    }

    /// The view is the map the entry sequence describes.
    pub proof fn lemma_view_is_entries(&self)
        ensures
            self@ == map_of(self.entries_seq()),
    {
    }

    /// The entry sequence enumerates exactly the map.
    pub proof fn lemma_entries_correspond(&self)
        requires
            self.wf(),
        ensures
            unique_keys(self.entries_seq()),
            forall|i: int|
                0 <= i < self.entries_seq().len() ==> self@.contains_key(
                    #[trigger] self.entries_seq()[i].0@,
                ) && self@[self.entries_seq()[i].0@] == self.entries_seq()[i].1,
            forall|k: Seq<char>|
                self@.contains_key(k) ==> exists|i: int|
                    0 <= i < self.entries_seq().len() && #[trigger] self.entries_seq()[i].0@ == k,
    {
        assert(self.entries_seq() == self.pairs@);
        assert forall|i: int| 0 <= i < self.pairs@.len() implies self@.contains_key(
            #[trigger] self.pairs@[i].0@,
        ) && self@[self.pairs@[i].0@] == self.pairs@[i].1 by {
            lemma_map_of_index(self.pairs@, i);
        }
        assert forall|k: Seq<char>| self@.contains_key(k) implies exists|i: int|
            0 <= i < self.pairs@.len() && #[trigger] self.pairs@[i].0@ == k by {
            lemma_map_of_contains(self.pairs@, k);
        }
    }

    pub fn new() -> (r: StrMap<V>)
        ensures
            r.wf(),
            r@ == Map::<Seq<char>, V>::empty(),
            r.entries_seq().len() == 0,
    {
        StrMap { pairs: Vec::new() }
    }

    /// The position of the entry carrying `k`, if one does.
    fn find(&self, k: &String) -> (r: Option<usize>)
        ensures
            match r {
                Some(i) => i < self.pairs@.len() && self.pairs@[i as int].0@ == k@,
                None => forall|i: int| 0 <= i < self.pairs@.len() ==> #[trigger] self.pairs@[i].0@ != k@,
            },
    {
        let mut i: usize = 0;
        while i < self.pairs.len()
            invariant
                i <= self.pairs@.len(),
                forall|j: int| 0 <= j < i ==> #[trigger] self.pairs@[j].0@ != k@,
            decreases self.pairs@.len() - i,
        {
            if self.pairs[i].0.eq(k) {
                return Some(i);
            }
            i = i + 1;
        }
        None
    }

    pub fn len(&self) -> (r: usize)
        ensures
            r == self.entries_seq().len(),
    {
        self.pairs.len()
    }

    /// The entry at position `i`, for iteration over the map.
    pub fn entry_at(&self, i: usize) -> (r: (&String, &V))
        requires
            i < self.entries_seq().len(),
        ensures
            *r.0 == self.entries_seq()[i as int].0,
            *r.1 == self.entries_seq()[i as int].1,
    {
        let p = &self.pairs[i];
        (&p.0, &p.1)
    }

    pub fn contains_key(&self, k: &String) -> (r: bool)
        requires
            self.wf(),
        ensures
            r == self@.contains_key(k@),
    {
        proof {
            lemma_map_of_contains(self.pairs@, k@);
        }
        match self.find(k) {
            Some(_) => true,
            None => false,
        }
    }

    pub fn get(&self, k: &String) -> (r: Option<&V>)
        requires
            self.wf(),
        ensures
            match r {
                Some(v) => self@.contains_key(k@) && *v == self@[k@],
                None => !self@.contains_key(k@),
            },
    {
        match self.find(k) {
            Some(i) => {
                proof {
                    lemma_map_of_index(self.pairs@, i as int);
                }
                Some(&self.pairs[i].1)
            },
            None => {
                proof {
                    lemma_map_of_absent(self.pairs@, k@);
                }
                None
            },
        }
    }

    /// Upsert. An existing entry keeps its position; a new key is appended.
    pub fn insert(&mut self, k: String, v: V)
        requires
            old(self).wf(),
        ensures
            final(self).wf(),
            final(self)@ == old(self)@.insert(k@, v),
            final(self).entries_seq().len() == if old(self)@.contains_key(k@) {
                old(self).entries_seq().len()
            } else {
                old(self).entries_seq().len() + 1
            },
    {
        proof {
            lemma_map_of_contains(self.pairs@, k@);
        }
        match self.find(&k) {
            Some(i) => {
                proof {
                    lemma_map_of_update(self.pairs@, i as int, (k, v));
                }
                self.pairs[i] = (k, v);
            },
            None => {
                proof {
                    lemma_map_of_absent(self.pairs@, k@);
                }
                self.pairs.push((k, v));
                proof {
                    assert(self.pairs@.drop_last() =~= old(self).pairs@);
                }
            },
        }
    }

    /// Remove the entry for `k`, handing its value back.
    pub fn take(&mut self, k: &String) -> (r: Option<V>)
        requires
            old(self).wf(),
        ensures
            final(self).wf(),
            final(self)@ == old(self)@.remove(k@),
            match r {
                Some(v) => old(self)@.contains_key(k@) && v == old(self)@[k@],
                None => !old(self)@.contains_key(k@),
            },
    {
        match self.find(k) {
            Some(i) => {
                proof {
                    lemma_map_of_index(self.pairs@, i as int);
                    lemma_map_of_remove(self.pairs@, i as int);
                }
                let (_, v) = self.pairs.remove(i);
                Some(v)
            },
            None => {
                proof {
                    lemma_map_of_absent(self.pairs@, k@);
                    assert(map_of(self.pairs@) =~= map_of(self.pairs@).remove(k@));
                }
                None
            },
        }
    }

    /// A copy of every key, in entry order.
    pub fn keys_cloned(&self) -> (r: Vec<String>)
        requires
            self.wf(),
        ensures
            r@.len() == self.entries_seq().len(),
            forall|i: int| 0 <= i < r@.len() ==> #[trigger] r@[i]@ == self.entries_seq()[i].0@,
            forall|i: int| 0 <= i < r@.len() ==> self@.contains_key(#[trigger] r@[i]@),
            forall|k: Seq<char>|
                self@.contains_key(k) ==> exists|i: int| 0 <= i < r@.len() && #[trigger] r@[i]@
                    == k,
            forall|i: int, j: int| 0 <= i < j < r@.len() ==> #[trigger] r@[i]@ != #[trigger] r@[j]@,
    {
        proof {
            self.lemma_entries_correspond();
        }
        let mut out: Vec<String> = Vec::new();
        let mut i: usize = 0;
        while i < self.pairs.len()
            invariant
                i <= self.pairs@.len(),
                out@.len() == i,
                forall|j: int| 0 <= j < i ==> #[trigger] out@[j]@ == self.pairs@[j].0@,
            decreases self.pairs@.len() - i,
        {
            out.push(self.pairs[i].0.clone());
            i = i + 1;
        }
        proof {
            assert forall|k: Seq<char>| self@.contains_key(k) implies exists|i: int|
                0 <= i < out@.len() && #[trigger] out@[i]@ == k by {
                let i = choose|i: int|
                    0 <= i < self.pairs@.len() && #[trigger] self.pairs@[i].0@ == k;
                assert(out@[i]@ == k);
            }
        }
        out
    }
}

impl StrMap<i64> {
    /// A copy of the entries, in entry order.
    pub fn to_pairs(&self) -> (r: Vec<(String, i64)>)
        requires
            self.wf(),
        ensures
            r@.len() == self.entries_seq().len(),
            forall|i: int|
                0 <= i < r@.len() ==> #[trigger] r@[i].0@ == self.entries_seq()[i].0@ && r@[i].1
                    == self.entries_seq()[i].1,
            unique_keys(r@),
            map_of(r@) == self@,
    {
        let mut out: Vec<(String, i64)> = Vec::new();
        let mut i: usize = 0;
        while i < self.pairs.len()
            invariant
                i <= self.pairs@.len(),
                out@.len() == i,
                forall|j: int|
                    0 <= j < i ==> #[trigger] out@[j].0@ == self.pairs@[j].0@ && out@[j].1
                        == self.pairs@[j].1,
            decreases self.pairs@.len() - i,
        {
            let (k, v) = &self.pairs[i];
            out.push((k.clone(), *v));
            i = i + 1;
        }
        proof {
            lemma_map_of_congruent(out@, self.pairs@);
        }
        out
    }
}

/// Two pairwise view-equal sequences describe the same map.
proof fn lemma_map_of_congruent(a: Seq<(String, i64)>, b: Seq<(String, i64)>)
    requires
        a.len() == b.len(),
        forall|i: int| 0 <= i < a.len() ==> #[trigger] a[i].0@ == b[i].0@ && a[i].1 == b[i].1,
    ensures
        map_of(a) == map_of(b),
    decreases a.len(),
{
    if a.len() > 0 {
        lemma_map_of_congruent(a.drop_last(), b.drop_last());
        assert(map_of(a) =~= map_of(b));
    }
}

} // verus!
