//! The flat representation of a document: a mapping from `/`-joined
//! paths to string values, stored as an association list whose keys
//! are unique, and modelled as a `Map<Seq<char>, Seq<char>>`.

use vstd::prelude::*;

verus! {

broadcast use vstd::std_specs::vec::group_vec_axioms;

/// No two entries share a key.
pub open spec fn unique_keys(es: Seq<(String, String)>) -> bool {
    forall|i: int, j: int| 0 <= i < j < es.len() ==> (#[trigger] es[i]).0@ != (#[trigger] es[j]).0@
}

/// The map an entry list denotes, later entries winning.
pub open spec fn pairs_map(es: Seq<(String, String)>) -> Map<Seq<char>, Seq<char>>
    decreases es.len(),
{
    if es.len() == 0 {
        Map::empty()
    } else {
        pairs_map(es.drop_last()).insert(es.last().0@, es.last().1@)
    }
}

/// A key is in the map exactly when some entry holds it.
pub proof fn lemma_pairs_map_contains(es: Seq<(String, String)>)
    ensures
        forall|k: Seq<char>|
            #[trigger] pairs_map(es).contains_key(k) <==> exists|i: int|
                0 <= i < es.len() && (#[trigger] es[i]).0@ == k,
    decreases es.len(),
{
    if es.len() > 0 {
        lemma_pairs_map_contains(es.drop_last());
        assert forall|k: Seq<char>| #[trigger] pairs_map(es).contains_key(k) implies exists|i: int|
            0 <= i < es.len() && (#[trigger] es[i]).0@ == k by {
            if k == es.last().0@ {
                assert(es[es.len() - 1].0@ == k);
            } else {
                assert(pairs_map(es.drop_last()).contains_key(k));
                let i = choose|i: int| 0 <= i < es.drop_last().len() && (#[trigger] es.drop_last()[i]).0@ == k;
                assert(es[i].0@ == k);
            }
        }
        assert forall|k: Seq<char>|
            (exists|i: int| 0 <= i < es.len() && (#[trigger] es[i]).0@ == k) implies #[trigger] pairs_map(
            es,
        ).contains_key(k) by {
            let i = choose|i: int| 0 <= i < es.len() && (#[trigger] es[i]).0@ == k;
            if i < es.len() - 1 {
                assert(es.drop_last()[i].0@ == k);
                assert(pairs_map(es.drop_last()).contains_key(k));
            } else {
                assert(k == es.last().0@);
            }
        }
    }
}

/// With unique keys, each entry's value is the map's value at its key.
pub proof fn lemma_pairs_map_index(es: Seq<(String, String)>)
    requires
        unique_keys(es),
    ensures
        forall|i: int|
            0 <= i < es.len() ==> pairs_map(es).contains_key((#[trigger] es[i]).0@) && pairs_map(
                es,
            )[es[i].0@] == es[i].1@,
    decreases es.len(),
{
    if es.len() > 0 {
        assert(es.drop_last() =~= es.subrange(0, es.len() - 1));
        lemma_pairs_map_index(es.drop_last());
        assert forall|i: int| 0 <= i < es.len() implies pairs_map(es).contains_key(
            (#[trigger] es[i]).0@,
        ) && pairs_map(es)[es[i].0@] == es[i].1@ by {
            if i < es.len() - 1 {
                assert(es.drop_last()[i] == es[i]);
                assert(es[i].0@ != es.last().0@);
            }
        }
    }
}

/// A mapping from flat keys to string values. Entry order is not part
/// of the model; the model is the finite map of the entries.
pub struct FlatMap {
    entries: Vec<(String, String)>,
}

impl View for FlatMap {
    type V = Map<Seq<char>, Seq<char>>;

    closed spec fn view(&self) -> Map<Seq<char>, Seq<char>> {
        pairs_map(self.entries@)
    }
}

impl FlatMap {
    /// Internal validity: entry keys are unique.
    pub closed spec fn wf(&self) -> bool {
        unique_keys(self.entries@)
    }

    /// An empty mapping.
    pub fn new() -> (r: FlatMap)
        ensures
            r.wf(),
            r@ == Map::<Seq<char>, Seq<char>>::empty(),
    {
        FlatMap { entries: Vec::new() }
    }

    /// Adds `key -> value`, overwriting any entry with the same key.
    #[verifier::loop_isolation(false)]
    pub fn insert(&mut self, key: String, value: String)
        requires
            old(self).wf(),
        ensures
            final(self).wf(),
            final(self)@ == old(self)@.insert(key@, value@),
    {
        let n = self.entries.len();
        let mut i: usize = 0;
        while i < n
            invariant
                0 <= i <= n == self.entries@.len(),
                self == old(self),
                forall|k: int| 0 <= k < i ==> (#[trigger] self.entries@[k]).0@ != key@,
            decreases n - i,
        {
            if self.entries[i].0 == key {
                let ghost es0 = self.entries@;
                let ghost updated = es0.update(i as int, (key, value));
                self.entries[i] = (key, value);
                proof {
                    assert(self.entries@ =~= updated);
                    lemma_pairs_map_update(es0, i as int, updated[i as int]);
                }
                return ;
            }
            i = i + 1;
        }
        let ghost es0 = self.entries@;
        self.entries.push((key, value));
        proof {
            assert(self.entries@.drop_last() =~= es0);
            lemma_pairs_map_contains(es0);
            assert(!pairs_map(es0).contains_key(key@));
        }
    }

    /// Looks a key up; `None` exactly when the key is absent.
    #[verifier::loop_isolation(false)]
    pub fn get(&self, key: &String) -> (r: Option<&String>)
        requires
            self.wf(),
        ensures
            match r {
                Some(v) => self@.contains_key(key@) && v@ == self@[key@],
                None => !self@.contains_key(key@),
            },
    {
        let n = self.entries.len();
        let mut i: usize = 0;
        while i < n
            invariant
                0 <= i <= n == self.entries@.len(),
                forall|k: int| 0 <= k < i ==> (#[trigger] self.entries@[k]).0@ != key@,
            decreases n - i,
        {
            if self.entries[i].0 == *key {
                proof {
                    lemma_pairs_map_index(self.entries@);
                }
                return Some(&self.entries[i].1);
            }
            i = i + 1;
        }
        proof {
            lemma_pairs_map_contains(self.entries@);
        }
        None
    }

    /// Reports whether the key is present.
    pub fn contains_key(&self, key: &String) -> (r: bool)
        requires
            self.wf(),
        ensures
            r == self@.contains_key(key@),
    {
        match self.get(key) {
            Some(_) => true,
            None => false,
        }
    }

    /// Every key of the mapping, each exactly once, with its value.
    #[verifier::loop_isolation(false)]
    pub fn items(&self) -> (out: Vec<(String, String)>)
        requires
            self.wf(),
        ensures
            unique_keys(out@),
            forall|i: int|
                0 <= i < out@.len() ==> self@.contains_key((#[trigger] out@[i]).0@) && self@[
                    out@[i].0@
                ] == out@[i].1@,
            forall|k: Seq<char>| self@.contains_key(k) ==> exists|i: int|
                0 <= i < out@.len() && (#[trigger] out@[i]).0@ == k,
    {
        proof {
            lemma_pairs_map_contains(self.entries@);
            lemma_pairs_map_index(self.entries@);
        }
        let n = self.entries.len();
        let mut out: Vec<(String, String)> = Vec::new();
        let mut i: usize = 0;
        while i < n
            invariant
                0 <= i <= n == self.entries@.len(),
                out@.len() == i,
                forall|k: int| 0 <= k < i ==> #[trigger] out@[k] == self.entries@[k],
            decreases n - i,
        {
            let pair = (self.entries[i].0.clone(), self.entries[i].1.clone());
            out.push(pair);
            i = i + 1;
        }
        proof {
            assert(out@ =~= self.entries@);
        }
        out
    }
}

/// Updating the entry that holds a key denotes inserting at that key.
pub proof fn lemma_pairs_map_update(es: Seq<(String, String)>, i: int, x: (String, String))
    requires
        unique_keys(es),
        0 <= i < es.len(),
        es[i].0@ == x.0@,
    ensures
        unique_keys(es.update(i, x)),
        pairs_map(es.update(i, x)) == pairs_map(es).insert(x.0@, x.1@),
    decreases es.len(),
{
    let up = es.update(i, x);
    if i == es.len() - 1 {
        assert(up.drop_last() =~= es.drop_last());
        assert(pairs_map(up) =~= pairs_map(es).insert(x.0@, x.1@));
    } else {
        assert(up.drop_last() =~= es.drop_last().update(i, x));
        assert(es.drop_last() =~= es.subrange(0, es.len() - 1));
        lemma_pairs_map_update(es.drop_last(), i, x);
        assert(up.last() == es.last());
        assert(es.last().0@ != x.0@);
        assert(pairs_map(up) =~= pairs_map(es).insert(x.0@, x.1@));
    }
}

} // verus!
