//! A small table from names to texts, such as the engine binaries of a host.
use crate::text;
use vstd::prelude::*;

verus! {

/// The map that a list of pairs denotes: a later pair replaces an earlier one of the same key.
pub open spec fn pairs_map<V>(pairs: Seq<(Seq<char>, V)>) -> Map<Seq<char>, V>
    decreases pairs.len(),
{
    if pairs.len() == 0 {
        Map::empty()
    } else {
        pairs_map(pairs.drop_last()).insert(pairs.last().0, pairs.last().1)
    }
}

/// The keys of the map are those of the list, and the map is finite.
pub proof fn lemma_pairs_map_keys<V>(pairs: Seq<(Seq<char>, V)>, key: Seq<char>)
    ensures
        pairs_map(pairs).dom().finite(),
        pairs_map(pairs).contains_key(key) <==> exists|i: int|
            0 <= i < pairs.len() && (#[trigger] pairs[i]).0 == key,
    decreases pairs.len(),
{
    if pairs.len() > 0 {
        let rest = pairs.drop_last();
        lemma_pairs_map_keys(rest, key);
        if pairs_map(pairs).contains_key(key) {
            if pairs.last().0 == key {
                assert(pairs[pairs.len() - 1].0 == key);
            } else {
                let i = choose|i: int| 0 <= i < rest.len() && (#[trigger] rest[i]).0 == key;
                assert(pairs[i].0 == key);
            }
        }
        if exists|i: int| 0 <= i < pairs.len() && (#[trigger] pairs[i]).0 == key {
            let i = choose|i: int| 0 <= i < pairs.len() && (#[trigger] pairs[i]).0 == key;
            if i < rest.len() {
                assert(rest[i].0 == key);
            }
        }
    }
}

/// The value of a key is that of the last pair with the key.
pub proof fn lemma_pairs_map_value<V>(pairs: Seq<(Seq<char>, V)>, i: int)
    requires
        0 <= i < pairs.len(),
        forall|j: int| i < j < pairs.len() ==> (#[trigger] pairs[j]).0 != pairs[i].0,
    ensures
        pairs_map(pairs).contains_key(pairs[i].0),
        pairs_map(pairs)[pairs[i].0] == pairs[i].1,
    decreases pairs.len(),
{
    if i < pairs.len() - 1 {
        let rest = pairs.drop_last();
        assert forall|j: int| i < j < rest.len() implies (#[trigger] rest[j]).0 != rest[i].0 by {
            assert(rest[j] == pairs[j]);
        }
        lemma_pairs_map_value(rest, i);
        assert(pairs[pairs.len() - 1].0 != pairs[i].0);
    }
}

/// What the map holds stands in the list.
pub proof fn lemma_pairs_map_from<V>(pairs: Seq<(Seq<char>, V)>, key: Seq<char>)
    requires
        pairs_map(pairs).contains_key(key),
    ensures
        pairs.contains((key, pairs_map(pairs)[key])),
    decreases pairs.len(),
{
    let rest = pairs.drop_last();
    if pairs.last().0 == key {
        assert(pairs[pairs.len() - 1] == (key, pairs_map(pairs)[key]));
    } else {
        lemma_pairs_map_from(rest, key);
        let i = choose|i: int| 0 <= i < rest.len() && rest[i] == (key, pairs_map(rest)[key]);
        assert(pairs[i] == (key, pairs_map(pairs)[key]));
    }
}

/// No key occurs twice.
pub open spec fn distinct_keys<V>(pairs: Seq<(Seq<char>, V)>) -> bool {
    forall|i: int, j: int|
        0 <= i < j < pairs.len() ==> (#[trigger] pairs[i]).0 != (#[trigger] pairs[j]).0
}

/// The characters of the keys and values of a list of pairs.
pub open spec fn pair_views(pairs: Seq<(String, String)>) -> Seq<(Seq<char>, Seq<char>)> {
    pairs.map_values(|p: (String, String)| (p.0@, p.1@))
}

/// A table from names to texts. Each name occurs once.
#[derive(Debug)]
pub struct Table {
    entries: Vec<(String, String)>,
}

impl View for Table {
    type V = Map<Seq<char>, Seq<char>>;

    closed spec fn view(&self) -> Map<Seq<char>, Seq<char>> {
        pairs_map(pair_views(self.entries@))
    }
}

proof fn lemma_replace(pairs: Seq<(Seq<char>, Seq<char>)>, i: int, value: Seq<char>)
    requires
        0 <= i < pairs.len(),
        distinct_keys(pairs),
    ensures
        distinct_keys(pairs.update(i, (pairs[i].0, value))),
        pairs_map(pairs.update(i, (pairs[i].0, value))) == pairs_map(pairs).insert(
            pairs[i].0,
            value,
        ),
    decreases pairs.len(),
{
    let new = pairs.update(i, (pairs[i].0, value));
    let rest = pairs.drop_last();
    if i == pairs.len() - 1 {
        assert(new.drop_last() =~= rest);
        assert(pairs_map(new) =~= pairs_map(pairs).insert(pairs[i].0, value));
    } else {
        lemma_replace(rest, i, value);
        assert(new.drop_last() =~= rest.update(i, (rest[i].0, value)));
        assert(pairs[i].0 != pairs[pairs.len() - 1].0);
        assert(pairs_map(new) =~= pairs_map(pairs).insert(pairs[i].0, value));
    }
}

impl Table {
    /// Each name occurs once.
    #[verifier::type_invariant]
    spec fn wf(self) -> bool {
        distinct_keys(pair_views(self.entries@))
    }

    /// A table without entries.
    pub fn new() -> (r: Table)
        ensures
            r@ == Map::<Seq<char>, Seq<char>>::empty(),
    {
        Table { entries: Vec::new() }
    }

    /// The place of `key` among the entries, or their number.
    fn position(&self, key: &str) -> (r: usize)
        ensures
            r <= self.entries@.len(),
            r < self.entries@.len() ==> self.entries@[r as int].0@ == key@,
            r == self.entries@.len() ==> forall|j: int|
                0 <= j < self.entries@.len() ==> (#[trigger] self.entries@[j]).0@ != key@,
    {
        let mut i: usize = 0;
        while i < self.entries.len()
            invariant
                i <= self.entries@.len(),
                forall|j: int| 0 <= j < i ==> (#[trigger] self.entries@[j]).0@ != key@,
            decreases self.entries.len() - i,
        {
            if text::same(self.entries[i].0.as_str(), key) {
                return i;
            }
            i = i + 1;
        }
        i
    }

    /// The text under `key`.
    pub fn get(&self, key: &str) -> (r: Option<&String>)
        ensures
            match r {
                Some(value) => self@.contains_key(key@) && self@[key@] == value@,
                None => !self@.contains_key(key@),
            },
    {
        proof {
            use_type_invariant(self);
        }
        let i: usize = self.position(key);
        let ghost pairs = pair_views(self.entries@);
        if i < self.entries.len() {
            proof {
                lemma_pairs_map_value(pairs, i as int);
            }
            Some(&self.entries[i].1)
        } else {
            proof {
                lemma_pairs_map_keys(pairs, key@);
            }
            None
        }
    }

    /// Tells whether there is a text under `key`.
    pub fn contains_key(&self, key: &str) -> (r: bool)
        ensures
            r == self@.contains_key(key@),
    {
        self.get(key).is_some()
    }

    /// Puts `value` under `key`, in place of what was there.
    pub fn insert(&mut self, key: String, value: String)
        ensures
            final(self)@ == old(self)@.insert(key@, value@),
    {
        proof {
            use_type_invariant(&*self);
        }
        let i: usize = self.position(key.as_str());
        let ghost before = pair_views(self.entries@);
        let mut entries: Vec<(String, String)> = Vec::new();
        std::mem::swap(&mut entries, &mut self.entries);
        if i < entries.len() {
            proof {
                lemma_replace(before, i as int, value@);
            }
            entries.set(i, (key, value));
            proof {
                assert(pair_views(entries@) =~= before.update(i as int, (before[i as int].0, value@)));
            }
        } else {
            entries.push((key, value));
            proof {
                let after = pair_views(entries@);
                assert(after =~= before.push((key@, value@)));
                assert(after.drop_last() =~= before);
                assert forall|a: int, b: int| 0 <= a < b < after.len() implies (
                #[trigger] after[a]).0 != (#[trigger] after[b]).0 by {
                    if b == before.len() {
                        assert(before[a] == after[a]);
                    } else {
                        assert(before[a] == after[a] && before[b] == after[b]);
                    }
                }
            }
        }
        self.entries = entries;
    }

    /// The entries as pairs, each name once.
    pub fn to_pairs(&self) -> (r: Vec<(String, String)>)
        ensures
            pairs_map(pair_views(r@)) == self@,
            distinct_keys(pair_views(r@)),
    {
        proof {
            use_type_invariant(self);
        }
        let mut r: Vec<(String, String)> = Vec::new();
        let mut i: usize = 0;
        while i < self.entries.len()
            invariant
                i <= self.entries@.len(),
                pair_views(r@) == pair_views(self.entries@).take(i as int),
            decreases self.entries.len() - i,
        {
            let ghost before = r@;
            r.push((self.entries[i].0.clone(), self.entries[i].1.clone()));
            proof {
                let all = pair_views(self.entries@);
                assert(pair_views(r@) =~= pair_views(before).push(all[i as int]));
                assert(all.take(i + 1) =~= all.take(i as int).push(all[i as int]));
            }
            i = i + 1;
        }
        proof {
            assert(pair_views(r@) =~= pair_views(self.entries@));
        }
        r
    }
}

impl Clone for Table {
    fn clone(&self) -> (r: Table)
        ensures
            r@ == self@,
    {
        Table { entries: self.to_pairs() }
    }
}

} // verus!
