//! A small map from strings to values, kept in the order of first insertion.
use vstd::prelude::*;
use crate::text;

verus! {

/// Entries of a map keyed by strings; no key occurs twice.
#[derive(Debug, Clone)]
pub struct Table<V> {
    pub entries: Vec<(String, V)>,
}

/// The map that a list of entries stands for: a later entry hides an earlier one.
pub open spec fn map_of<V: View>(s: Seq<(String, V)>) -> Map<Seq<char>, V::V>
    decreases s.len(),
{
    if s.len() == 0 {
        Map::empty()
    } else {
        map_of(s.drop_last()).insert(s.last().0@, s.last().1@)
    }
}

/// Whether no two entries have the same key.
pub open spec fn distinct<V>(s: Seq<(String, V)>) -> bool {
    forall|i: int, j: int| 0 <= i < j < s.len() ==> #[trigger] s[i].0@ != #[trigger] s[j].0@
}

impl<V: View> View for Table<V> {
    type V = Map<Seq<char>, V::V>;

    open spec fn view(&self) -> Map<Seq<char>, V::V> {
        map_of(self.entries@)
    }
}

/// A map holds exactly the keys of its entries, and under distinct keys each
/// entry's value.
pub proof fn lemma_map_of<V: View>(s: Seq<(String, V)>)
    ensures
        forall|i: int|
            0 <= i < s.len() ==> map_of(s).dom().contains((#[trigger] s[i]).0@),
        forall|k: Seq<char>| #[trigger]
            map_of(s).dom().contains(k) ==> exists|i: int|
                0 <= i < s.len() && (#[trigger] s[i]).0@ == k,
        distinct(s) ==> forall|i: int|
            0 <= i < s.len() ==> map_of(s)[(#[trigger] s[i]).0@] == s[i].1@,
    decreases s.len(),
{
    if s.len() > 0 {
        let t = s.drop_last();
        lemma_map_of(t);
        assert forall|i: int| 0 <= i < s.len() implies map_of(s).dom().contains(
            (#[trigger] s[i]).0@,
        ) by {
            if i < t.len() {
                assert(t[i] == s[i]);
            }
        }
        assert forall|k: Seq<char>| #[trigger] map_of(s).dom().contains(k) implies exists|i: int|
            0 <= i < s.len() && (#[trigger] s[i]).0@ == k by {
            if k == s.last().0@ {
                assert(s[s.len() - 1].0@ == k);
            } else {
                assert(map_of(t).dom().contains(k));
                let i = choose|i: int| 0 <= i < t.len() && (#[trigger] t[i]).0@ == k;
                assert(s[i].0@ == k);
            }
        }
        if distinct(s) {
            assert(distinct(t)) by {
                assert forall|i: int, j: int| 0 <= i < j < t.len() implies #[trigger] t[i].0@
                    != #[trigger] t[j].0@ by {
                    assert(t[i] == s[i] && t[j] == s[j]);
                }
            }
            assert forall|i: int| 0 <= i < s.len() implies map_of(s)[(#[trigger] s[i]).0@]
                == s[i].1@ by {
                if i < t.len() {
                    assert(t[i] == s[i]);
                    assert(s[i].0@ != s[s.len() - 1].0@);
                }
            }
        }
    }
}

/// Replacing the value of one entry replaces that key's value.
proof fn lemma_update<V: View>(s: Seq<(String, V)>, i: int, e: (String, V))
    requires
        distinct(s),
        0 <= i < s.len(),
        e.0@ == s[i].0@,
    ensures
        distinct(s.update(i, e)),
        map_of(s.update(i, e)) == map_of(s).insert(e.0@, e.1@),
{
    let u = s.update(i, e);
    assert forall|a: int, b: int| 0 <= a < b < u.len() implies #[trigger] u[a].0@
        != #[trigger] u[b].0@ by {
        assert(u[a].0@ == s[a].0@);
        assert(u[b].0@ == s[b].0@);
    }
    lemma_map_of(s);
    lemma_map_of(u);
    let m = map_of(s).insert(e.0@, e.1@);
    assert forall|k: Seq<char>| #[trigger] map_of(u).dom().contains(k) == m.dom().contains(k) by {
        if map_of(u).dom().contains(k) {
            let a = choose|a: int| 0 <= a < u.len() && (#[trigger] u[a]).0@ == k;
            assert(s[a].0@ == k);
        }
        if m.dom().contains(k) {
            if k != e.0@ {
                let a = choose|a: int| 0 <= a < s.len() && (#[trigger] s[a]).0@ == k;
                assert(u[a].0@ == k);
            } else {
                assert(u[i].0@ == k);
            }
        }
    }
    assert forall|k: Seq<char>| #[trigger] map_of(u).dom().contains(k) implies map_of(u)[k]
        == m[k] by {
        let a = choose|a: int| 0 <= a < u.len() && (#[trigger] u[a]).0@ == k;
        if a == i {
            assert(u[a] == e);
        } else {
            assert(u[a] == s[a]);
            assert(s[a].0@ != s[i].0@);
        }
    }
    assert(map_of(u) =~= m);
}

impl<V> Table<V> {
    /// Whether no key occurs twice.
    pub open spec fn wf(&self) -> bool {
        distinct(self.entries@)
    }
}

impl<V: View> Table<V> {
    /// An empty map.
    pub fn new() -> (r: Self)
        ensures
            r.wf(),
            r@ == Map::<Seq<char>, V::V>::empty(),
            r.entries@.len() == 0,
    {
        Table { entries: Vec::new() }
    }

    /// Where the entry of a key stands.
    fn position(&self, key: &str) -> (r: Option<usize>)
        requires
            self.wf(),
        ensures
            match r {
                Some(i) => i < self.entries@.len() && self.entries@[i as int].0@ == key@,
                None => !self@.dom().contains(key@),
            },
    {
        let mut i: usize = 0;
        while i < self.entries.len()
            invariant
                0 <= i <= self.entries@.len(),
                forall|j: int| 0 <= j < i ==> (#[trigger] self.entries@[j]).0@ != key@,
            decreases self.entries@.len() - i,
        {
            if text::same(self.entries[i].0.as_str(), key) {
                return Some(i);
            }
            i += 1;
        }
        proof {
            lemma_map_of(self.entries@);
        }
        None
    }

    /// The value of a key.
    pub fn get(&self, key: &str) -> (r: Option<&V>)
        requires
            self.wf(),
        ensures
            match r {
                Some(v) => self@.dom().contains(key@) && v@ == self@[key@],
                None => !self@.dom().contains(key@),
            },
    {
        match self.position(key) {
            Some(i) => {
                proof {
                    lemma_map_of(self.entries@);
                    assert(self.entries@[i as int].0@ == key@);
                }
                Some(&self.entries[i].1)
            },
            None => None,
        }
    }

    /// Whether a key is there.
    pub fn contains(&self, key: &str) -> (r: bool)
        requires
            self.wf(),
        ensures
            r == self@.dom().contains(key@),
    {
        match self.get(key) {
            Some(_) => true,
            None => false,
        }
    }

    /// Sets the value of a key.
    pub fn insert(&mut self, key: String, value: V)
        requires
            old(self).wf(),
        ensures
            final(self).wf(),
            final(self)@ == old(self)@.insert(key@, value@),
    {
        match self.position(key.as_str()) {
            Some(i) => {
                proof {
                    lemma_update(self.entries@, i as int, (key, value));
                }
                self.entries.set(i, (key, value));
            },
            None => {
                let ghost before = self.entries@;
                proof {
                    lemma_map_of(before);
                }
                self.entries.push((key, value));
                assert(self.entries@.drop_last() =~= before);
                assert forall|a: int, b: int| 0 <= a < b < self.entries@.len() implies #[trigger] self.entries@[a].0@
                    != #[trigger] self.entries@[b].0@ by {
                    assert(self.entries@[a] == before[a]);
                    if b < before.len() {
                        assert(self.entries@[b] == before[b]);
                    }
                }
            },
        }
    }

    /// Whether there is no key.
    pub fn is_empty(&self) -> (r: bool)
        ensures
            r == (self@ =~= Map::<Seq<char>, V::V>::empty()),
            r == (self.entries@.len() == 0),
    {
        proof {
            lemma_map_of(self.entries@);
            if self.entries@.len() > 0 {
                assert(self@.dom().contains(self.entries@[0].0@));
            }
        }
        self.entries.len() == 0
    }

    /// How many keys there are.
    pub fn len(&self) -> (r: usize)
        ensures
            r == self.entries@.len(),
    {
        self.entries.len()
    }
}

} // verus!
