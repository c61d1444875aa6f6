//! Tables keyed by text.
use vstd::prelude::*;
use crate::text::{same, Text};

verus! {

/// A table that holds at most one value for each text and remembers the order
/// in which the texts first came in.
#[derive(Debug)]
#[verifier::reject_recursive_types(V)]
pub struct Table<V> {
    pairs: Vec<(String, V)>,
}

/// The texts of a list of pairs.
pub closed spec fn keys_of<V>(pairs: Seq<(String, V)>) -> Seq<Text> {
    Seq::new(pairs.len(), |i: int| pairs[i].0@)
}

/// Where the pair of a text stands.
spec fn place_of<V>(pairs: Seq<(String, V)>, k: Text) -> int {
    choose|i: int| 0 <= i < pairs.len() && keys_of(pairs)[i] == k
}

/// What a list of pairs holds.
pub closed spec fn map_of<V>(pairs: Seq<(String, V)>) -> Map<Text, V> {
    Map::new(
        |k: Text| keys_of(pairs).contains(k),
        |k: Text| pairs[place_of(pairs, k)].1,
    )
}

impl<V> View for Table<V> {
    type V = Map<Text, V>;

    closed spec fn view(&self) -> Map<Text, V> {
        map_of(self.pairs@)
    }
}

impl<V> Table<V> {
    /// No text occurs twice.
    #[verifier::type_invariant]
    closed spec fn wf(self) -> bool {
        keys_of(self.pairs@).no_duplicates()
    }

    /// The texts in the order in which they came in.
    pub closed spec fn keys(&self) -> Seq<Text> {
        keys_of(self.pairs@)
    }

    /// An empty table.
    pub fn new() -> (r: Self)
        ensures
            r@ == Map::<Text, V>::empty(),
            r.keys() == Seq::<Text>::empty(),
    {
        let pairs: Vec<(String, V)> = Vec::new();
        let r = Table { pairs };
        proof {
            assert(keys_of(r.pairs@) =~= Seq::<Text>::empty());
            assert(r@ =~= Map::<Text, V>::empty());
        }
        r
    }

    /// How many texts the table holds a value for.
    pub fn len(&self) -> (n: usize)
        ensures
            n == self.keys().len(),
            self.keys().no_duplicates(),
            forall|k: Text| self@.contains_key(k) <==> #[trigger] self.keys().contains(k),
    {
        proof {
            use_type_invariant(self);
        }
        self.pairs.len()
    }

    /// The text that came in as number `i`.
    pub fn key_at(&self, i: usize) -> (k: &str)
        requires
            i < self.keys().len(),
        ensures
            k@ == self.keys()[i as int],
            self@.contains_key(k@),
    {
        proof {
            assert(keys_of(self.pairs@).contains(keys_of(self.pairs@)[i as int]));
        }
        self.pairs[i].0.as_str()
    }

    /// The value of the text that came in as number `i`.
    pub fn value_at(&self, i: usize) -> (v: &V)
        requires
            i < self.keys().len(),
        ensures
            *v == self@[self.keys()[i as int]],
    {
        proof {
            use_type_invariant(self);
            lemma_map_at(self.pairs@, i as int);
        }
        &self.pairs[i].1
    }

    /// Where the pair of a text stands.
    fn position(&self, key: &str) -> (r: Option<usize>)
        ensures
            match r {
                Some(i) => i < self.pairs@.len() && self.pairs@[i as int].0@ == key@,
                None => forall|i: int| 0 <= i < self.pairs@.len() ==> self.pairs@[i].0@ != key@,
            },
    {
        let mut i: usize = 0;
        while i < self.pairs.len()
            invariant
                i <= self.pairs@.len(),
                forall|k: int| 0 <= k < i ==> self.pairs@[k].0@ != key@,
            decreases self.pairs@.len() - i,
        {
            if same(self.pairs[i].0.as_str(), key) {
                return Some(i);
            }
            i = i + 1;
        }
        None
    }

    /// The value of a text.
    pub fn get(&self, key: &str) -> (r: Option<&V>)
        ensures
            match r {
                Some(v) => self@.contains_key(key@) && *v == self@[key@],
                None => !self@.contains_key(key@),
            },
    {
        proof {
            use_type_invariant(self);
        }
        match self.position(key) {
            Some(i) => {
                proof {
                    lemma_map_at(self.pairs@, i as int);
                }
                Some(&self.pairs[i].1)
            },
            None => {
                proof {
                    assert(!keys_of(self.pairs@).contains(key@));
                }
                None
            },
        }
    }

    /// Gives a text a value, in place of the one it had.
    pub fn insert(&mut self, key: String, value: V)
        ensures
            final(self)@ == old(self)@.insert(key@, value),
            final(self).keys() == if old(self)@.contains_key(key@) {
                old(self).keys()
            } else {
                old(self).keys().push(key@)
            },
            forall|k: Text|
                final(self)@.contains_key(k) <==> #[trigger] final(self).keys().contains(k),
    {
        proof {
            use_type_invariant(&*self);
        }
        let at = self.position(key.as_str());
        let ghost before = self.pairs@;
        let ghost k = key@;
        let mut pairs: Vec<(String, V)> = Vec::new();
        std::mem::swap(&mut pairs, &mut self.pairs);
        match at {
            Some(i) => {
                pairs[i] = (key, value);
                proof {
                    lemma_map_at(before, i as int);
                    assert(keys_of(pairs@) =~= keys_of(before));
                    lemma_updated(before, pairs@, i as int, k, value);
                }
            },
            None => {
                pairs.push((key, value));
                proof {
                    assert(!keys_of(before).contains(k));
                    assert(keys_of(pairs@) =~= keys_of(before).push(k));
                    lemma_updated(before, pairs@, before.len() as int, k, value);
                }
            },
        }
        self.pairs = pairs;
    }
}

/// What a list of pairs without repetition holds for one of its texts.
proof fn lemma_map_at<V>(pairs: Seq<(String, V)>, i: int)
    requires
        0 <= i < pairs.len(),
        keys_of(pairs).no_duplicates(),
    ensures
        map_of(pairs).contains_key(pairs[i].0@),
        map_of(pairs)[pairs[i].0@] == pairs[i].1,
{
    let k = pairs[i].0@;
    assert(keys_of(pairs)[i] == k);
    assert(keys_of(pairs).contains(k));
    assert(keys_of(pairs)[place_of(pairs, k)] == k);
}

/// Replacing or adding one pair changes what is held for its text alone.
proof fn lemma_updated<V>(
    before: Seq<(String, V)>,
    after: Seq<(String, V)>,
    i: int,
    k: Text,
    value: V,
)
    requires
        keys_of(before).no_duplicates(),
        before.len() <= after.len(),
        0 <= i < after.len(),
        after[i].0@ == k,
        after[i].1 == value,
        forall|j: int| 0 <= j < after.len() && j != i ==> j < before.len() && after[j] == before[j],
        i < before.len() ==> before[i].0@ == k,
        i == before.len() ==> !keys_of(before).contains(k),
        i <= before.len(),
        after.len() <= before.len() + 1,
        after.len() > before.len() ==> i == before.len(),
    ensures
        keys_of(after).no_duplicates(),
        map_of(after) == map_of(before).insert(k, value),
{
    assert forall|a: int, b: int| 0 <= a < b < after.len() implies keys_of(after)[a] != keys_of(
        after,
    )[b] by {
        assert(a < before.len());
        assert(keys_of(before)[a] == keys_of(after)[a]);
        if b < before.len() {
            assert(keys_of(before)[b] == keys_of(after)[b]);
        } else {
            assert(keys_of(before).contains(keys_of(before)[a]));
        }
    }
    assert(keys_of(after).no_duplicates());
    assert forall|t: Text| #[trigger] map_of(after).contains_key(t) == map_of(before).insert(
        k,
        value,
    ).contains_key(t) by {
        if keys_of(after).contains(t) {
            let j = choose|j: int| 0 <= j < after.len() && keys_of(after)[j] == t;
            if j != i {
                assert(keys_of(before)[j] == t);
            }
        }
        if keys_of(before).contains(t) {
            let j = choose|j: int| 0 <= j < before.len() && keys_of(before)[j] == t;
            assert(keys_of(after)[j] == t);
        }
        assert(keys_of(after)[i] == k);
    }
    assert forall|t: Text| #[trigger] map_of(after).contains_key(t) implies map_of(after)[t] == map_of(
        before,
    ).insert(k, value)[t] by {
        let j = choose|j: int| 0 <= j < after.len() && keys_of(after)[j] == t;
        lemma_map_at(after, j);
        if j != i {
            lemma_map_at(before, j);
            assert(keys_of(after)[i] == k);
            assert(t != k);
        }
    }
    assert(map_of(after) =~= map_of(before).insert(k, value));
}

} // verus!
