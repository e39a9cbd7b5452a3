//! The tags of a map element: a small map from key to value.

use vstd::prelude::*;
use vstd::std_specs::cmp::PartialEqSpecImpl;

verus! {

/// What a `Tags` value stands for: each key with its value.
pub type TagMap = Map<Seq<char>, Seq<char>>;

/// The map that a list of pairs stands for. Where a key occurs twice, the
/// pair nearest the front counts.
pub open spec fn pairs_map(pairs: Seq<(Seq<char>, Seq<char>)>) -> TagMap
    decreases pairs.len(),
{
    if pairs.len() == 0 {
        Map::empty()
    } else {
        pairs_map(pairs.drop_first()).insert(pairs[0].0, pairs[0].1)
    }
}

proof fn lemma_absent(pairs: Seq<(Seq<char>, Seq<char>)>, key: Seq<char>)
    requires
        forall|j: int| 0 <= j < pairs.len() ==> pairs[j].0 != key,
    ensures
        !pairs_map(pairs).contains_key(key),
    decreases pairs.len(),
{
    if pairs.len() > 0 {
        let rest = pairs.drop_first();
        assert forall|j: int| 0 <= j < rest.len() implies rest[j].0 != key by {
            assert(rest[j] == pairs[j + 1]);
        }
        lemma_absent(rest, key);
    }
}

proof fn lemma_first(pairs: Seq<(Seq<char>, Seq<char>)>, key: Seq<char>, at: int)
    requires
        0 <= at < pairs.len(),
        forall|j: int| 0 <= j < at ==> pairs[j].0 != key,
        pairs[at].0 == key,
    ensures
        pairs_map(pairs).contains_key(key),
        pairs_map(pairs)[key] == pairs[at].1,
    decreases at,
{
    if at > 0 {
        let rest = pairs.drop_first();
        assert forall|j: int| 0 <= j < at - 1 implies rest[j].0 != key by {
            assert(rest[j] == pairs[j + 1]);
        }
        lemma_first(rest, key, at - 1);
    }
}

proof fn lemma_push(pairs: Seq<(Seq<char>, Seq<char>)>, pair: (Seq<char>, Seq<char>))
    requires
        forall|j: int| 0 <= j < pairs.len() ==> pairs[j].0 != pair.0,
    ensures
        pairs_map(pairs.push(pair)) == pairs_map(pairs).insert(pair.0, pair.1),
    decreases pairs.len(),
{
    if pairs.len() == 0 {
        assert(pairs.push(pair).drop_first() =~= pairs);
    } else {
        let rest = pairs.drop_first();
        assert forall|j: int| 0 <= j < rest.len() implies rest[j].0 != pair.0 by {
            assert(rest[j] == pairs[j + 1]);
        }
        lemma_push(rest, pair);
        assert(pairs.push(pair).drop_first() =~= rest.push(pair));
        assert(pairs_map(pairs.push(pair)) =~= pairs_map(pairs).insert(pair.0, pair.1));
    }
}

proof fn lemma_update(pairs: Seq<(Seq<char>, Seq<char>)>, at: int, pair: (Seq<char>, Seq<char>))
    requires
        0 <= at < pairs.len(),
        forall|j: int| 0 <= j < at ==> pairs[j].0 != pair.0,
        pairs[at].0 == pair.0,
    ensures
        pairs_map(pairs.update(at, pair)) == pairs_map(pairs).insert(pair.0, pair.1),
    decreases at,
{
    let rest = pairs.drop_first();
    if at == 0 {
        assert(pairs.update(at, pair).drop_first() =~= rest);
        assert(pairs_map(pairs.update(at, pair)) =~= pairs_map(pairs).insert(pair.0, pair.1));
    } else {
        assert forall|j: int| 0 <= j < at - 1 implies rest[j].0 != pair.0 by {
            assert(rest[j] == pairs[j + 1]);
        }
        lemma_update(rest, at - 1, pair);
        assert(pairs.update(at, pair).drop_first() =~= rest.update(at - 1, pair));
        assert(pairs_map(pairs.update(at, pair)) =~= pairs_map(pairs).insert(pair.0, pair.1));
    }
}

/// Whether no key stands in two pairs.
pub open spec fn distinct_keys(pairs: Seq<(Seq<char>, Seq<char>)>) -> bool {
    forall|i: int, j: int| 0 <= i < j < pairs.len() ==> pairs[i].0 != pairs[j].0
}

proof fn lemma_keys(pairs: Seq<(Seq<char>, Seq<char>)>)
    requires
        distinct_keys(pairs),
    ensures
        pairs_map(pairs).dom().finite(),
        pairs_map(pairs).dom().len() == pairs.len(),
    decreases pairs.len(),
{
    if pairs.len() > 0 {
        let rest = pairs.drop_first();
        assert forall|i: int, j: int| 0 <= i < j < rest.len() implies rest[i].0 != rest[j].0 by {
            assert(rest[i] == pairs[i + 1]);
            assert(rest[j] == pairs[j + 1]);
        }
        lemma_keys(rest);
        assert forall|j: int| 0 <= j < rest.len() implies rest[j].0 != pairs[0].0 by {
            assert(rest[j] == pairs[j + 1]);
        }
        lemma_absent(rest, pairs[0].0);
        assert(pairs_map(pairs).dom() =~= pairs_map(rest).dom().insert(pairs[0].0));
    }
}

/// The tags of a node, a way or a relation. Each key has one value; the order
/// in which the tags were inserted is of no account.
#[derive(Debug)]
pub struct Tags {
    pairs: Vec<(String, String)>,
}

impl View for Tags {
    type V = TagMap;

    closed spec fn view(&self) -> TagMap {
        pairs_map(self.pairs.deep_view())
    }
}

impl DeepView for Tags {
    type V = TagMap;

    open spec fn deep_view(&self) -> TagMap {
        self@
    }
}

impl Tags {
    #[verifier::type_invariant]
    spec fn one_pair_for_each_key(self) -> bool {
        distinct_keys(self.pairs.deep_view())
    }

    /// No tags.
    pub fn new() -> (tags: Tags)
        ensures
            tags@ == TagMap::empty(),
    {
        let pairs: Vec<(String, String)> = Vec::new();
        assert(pairs.deep_view() =~= Seq::empty());
        Tags { pairs }
    }

    /// The place of the pair that holds `key`, if there is one.
    fn position(&self, key: &String) -> (at: Option<usize>)
        ensures
            match at {
                Some(i) => {
                    &&& i < self.pairs@.len()
                    &&& self.pairs@[i as int].0@ == key@
                    &&& forall|j: int| 0 <= j < i ==> self.pairs@[j].0@ != key@
                },
                None => forall|j: int| 0 <= j < self.pairs@.len() ==> self.pairs@[j].0@ != key@,
            },
    {
        let mut i: usize = 0;
        while i < self.pairs.len()
            invariant
                i <= self.pairs@.len(),
                forall|j: int| 0 <= j < i ==> self.pairs@[j].0@ != key@,
            decreases self.pairs@.len() - i,
        {
            if self.pairs[i].0 == *key {
                return Some(i);
            }
            i += 1;
        }
        None
    }

    /// Gives `key` the value `value`, in place of the value it had, if any.
    pub fn insert(&mut self, key: String, value: String)
        ensures
            final(self)@ == old(self)@.insert(key@, value@),
    {
        proof {
            use_type_invariant(&*self);
        }
        let at = self.position(&key);
        let ghost before = self.pairs.deep_view();
        let ghost pair = (key@, value@);
        let mut pairs: Vec<(String, String)> = Vec::new();
        assert(pairs.deep_view() =~= Seq::empty());
        core::mem::swap(&mut self.pairs, &mut pairs);
        match at {
            Some(i) => {
                pairs.set(i, (key, value));
                proof {
                    assert(pairs.deep_view() =~= before.update(i as int, pair));
                    lemma_update(before, i as int, pair);
                    assert forall|a: int, b: int| 0 <= a < b < before.len() implies before.update(
                        i as int,
                        pair,
                    )[a].0 != before.update(i as int, pair)[b].0 by {
                        assert(before[a].0 != before[b].0);
                    }
                }
            },
            None => {
                pairs.push((key, value));
                proof {
                    assert(pairs.deep_view() =~= before.push(pair));
                    lemma_push(before, pair);
                    assert forall|a: int, b: int| 0 <= a < b < before.len() + 1 implies before.push(
                        pair,
                    )[a].0 != before.push(pair)[b].0 by {
                        if b < before.len() {
                            assert(before[a].0 != before[b].0);
                        }
                    }
                }
            },
        }
        self.pairs = pairs;
    }

    /// The value of `key`, if it has one.
    pub fn get(&self, key: &String) -> (value: Option<&String>)
        ensures
            match value {
                Some(v) => self@.contains_key(key@) && self@[key@] == v@,
                None => !self@.contains_key(key@),
            },
    {
        match self.position(key) {
            Some(i) => {
                proof {
                    lemma_first(self.pairs.deep_view(), key@, i as int);
                }
                Some(&self.pairs[i].1)
            },
            None => {
                proof {
                    lemma_absent(self.pairs.deep_view(), key@);
                }
                None
            },
        }
    }

    /// The number of tags.
    pub fn len(&self) -> (n: usize)
        ensures
            self@.dom().finite(),
            n == self@.dom().len(),
    {
        proof {
            use_type_invariant(self);
            lemma_keys(self.pairs.deep_view());
        }
        self.pairs.len()
    }

    /// Whether there is no tag at all.
    pub fn is_empty(&self) -> (empty: bool)
        ensures
            empty == (self@ == TagMap::empty()),
    {
        proof {
            let pairs = self.pairs.deep_view();
            if pairs.len() > 0 {
                assert(pairs_map(pairs).contains_key(pairs[0].0));
            }
        }
        self.pairs.len() == 0
    }

    /// The keys, each once, in no order of account.
    pub fn keys(&self) -> (keys: Vec<&String>)
        ensures
            keys@.len() == self@.dom().len(),
            forall|i: int| 0 <= i < keys@.len() ==> self@.contains_key(#[trigger] keys@[i]@),
            forall|i: int, j: int| 0 <= i < j < keys@.len() ==> keys@[i]@ != keys@[j]@,
    {
        proof {
            use_type_invariant(self);
            lemma_keys(self.pairs.deep_view());
        }
        let mut keys: Vec<&String> = Vec::new();
        let mut i: usize = 0;
        while i < self.pairs.len()
            invariant
                i <= self.pairs@.len(),
                keys@.len() == i,
                forall|j: int| 0 <= j < i ==> keys@[j]@ == self.pairs@[j].0@,
            decreases self.pairs@.len() - i,
        {
            keys.push(&self.pairs[i].0);
            i += 1;
        }
        proof {
            let pairs = self.pairs.deep_view();
            assert forall|j: int| 0 <= j < keys@.len() implies self@.contains_key(
                #[trigger] keys@[j]@,
            ) by {
                lemma_contains(pairs, j);
            }
            assert forall|a: int, b: int| 0 <= a < b < keys@.len() implies keys@[a]@
                != keys@[b]@ by {
                assert(pairs[a].0 != pairs[b].0);
            }
        }
        keys
    }

    /// Whether every tag of `self` is a tag of `other`, with the same value.
    fn within(&self, other: &Tags) -> (all: bool)
        ensures
            all == self@.submap_of(other@),
    {
        let mut i: usize = 0;
        while i < self.pairs.len()
            invariant
                i <= self.pairs@.len(),
                forall|j: int|
                    0 <= j < i ==> other@.contains_key(#[trigger] self.pairs@[j].0@) && other@[self.pairs@[j].0@]
                        == self@[self.pairs@[j].0@],
            decreases self.pairs@.len() - i,
        {
            let key = &self.pairs[i].0;
            proof {
                lemma_contains(self.pairs.deep_view(), i as int);
            }
            let same = match (self.get(key), other.get(key)) {
                (Some(mine), Some(theirs)) => *mine == *theirs,
                _ => false,
            };
            if !same {
                assert(self@.contains_key(key@));
                return false;
            }
            i += 1;
        }
        proof {
            let pairs = self.pairs.deep_view();
            assert forall|k: Seq<char>| #[trigger] self@.dom().contains(k) implies other@.dom().contains(k)
                && self@[k] == other@[k] by {
                if forall|j: int| 0 <= j < pairs.len() ==> pairs[j].0 != k {
                    lemma_absent(pairs, k);
                } else {
                    let j = choose|j: int| 0 <= j < pairs.len() && pairs[j].0 == k;
                    assert(self.pairs@[j].0@ == k);
                }
            }
        }
        true
    }
}

proof fn lemma_contains(pairs: Seq<(Seq<char>, Seq<char>)>, at: int)
    requires
        0 <= at < pairs.len(),
    ensures
        pairs_map(pairs).contains_key(pairs[at].0),
    decreases at,
{
    if at > 0 {
        lemma_contains(pairs.drop_first(), at - 1);
    }
}

impl PartialEq for Tags {
    /// Whether the two hold the same tags.
    fn eq(&self, other: &Tags) -> (equal: bool) {
        let equal = self.within(other) && other.within(self);
        proof {
            if equal {
                assert forall|k: Seq<char>| self@.dom().contains(k) == other@.dom().contains(
                    k,
                ) by {
                    if self@.dom().contains(k) {
                        assert(other@.dom().contains(k));
                    }
                    if other@.dom().contains(k) {
                        assert(self@.dom().contains(k));
                    }
                }
                assert forall|k: Seq<char>| self@.dom().contains(k) implies self@[k]
                    == other@[k] by {}
                assert(self@ =~= other@);
            }
        }
        equal
    }
}

impl PartialEqSpecImpl for Tags {
    open spec fn obeys_eq_spec() -> bool {
        true
    }

    open spec fn eq_spec(&self, other: &Tags) -> bool {
        self@ == other@
    }
}

impl Clone for Tags {
    fn clone(&self) -> (tags: Tags)
        ensures
            tags@ == self@,
    {
        proof {
            use_type_invariant(self);
        }
        let mut pairs: Vec<(String, String)> = Vec::new();
        let mut i: usize = 0;
        while i < self.pairs.len()
            invariant
                i <= self.pairs@.len(),
                pairs@.len() == i,
                pairs.deep_view() == self.pairs.deep_view().take(i as int),
            decreases self.pairs@.len() - i,
        {
            let ghost copied = pairs.deep_view();
            pairs.push((self.pairs[i].0.clone(), self.pairs[i].1.clone()));
            assert forall|j: int| 0 <= j <= i implies pairs.deep_view()[j]
                == self.pairs.deep_view()[j] by {
                if j < i {
                    assert(pairs.deep_view()[j] == copied[j]);
                }
            }
            assert(pairs.deep_view() =~= self.pairs.deep_view().take(i + 1));
            i += 1;
        }
        assert(self.pairs.deep_view().take(i as int) =~= self.pairs.deep_view());
        Tags { pairs }
    }
}

} // verus!
