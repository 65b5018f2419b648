//! A string-to-string table with one value per key, kept in the order in which
//! keys were first inserted. It holds query strings, headers and path
//! parameters.
use vstd::prelude::*;

verus! {

pub type Pair = (Seq<char>, Seq<char>);

/// No key occurs twice.
pub open spec fn distinct_keys(ps: Seq<Pair>) -> bool {
    forall|i: int, j: int| 0 <= i < j < ps.len() ==> #[trigger] ps[i].0 != #[trigger] ps[j].0
}

/// The mapping that inserting the pairs one after another gives: on a repeated
/// key the last value wins.
pub open spec fn pairs_map(ps: Seq<Pair>) -> Map<Seq<char>, Seq<char>>
    decreases ps.len(),
{
    if ps.len() == 0 {
        Map::empty()
    } else {
        pairs_map(ps.drop_last()).insert(ps.last().0, ps.last().1)
    }
}

pub proof fn lemma_pairs_map_has(ps: Seq<Pair>, i: int)
    requires
        distinct_keys(ps),
        0 <= i < ps.len(),
    ensures
        pairs_map(ps).contains_key(ps[i].0),
        pairs_map(ps)[ps[i].0] == ps[i].1,
    decreases ps.len(),
{
    if i < ps.len() - 1 {
        assert(ps.drop_last()[i] == ps[i]);
        lemma_pairs_map_has(ps.drop_last(), i);
    }
}

pub proof fn lemma_pairs_map_lacks(ps: Seq<Pair>, k: Seq<char>)
    requires
        forall|i: int| 0 <= i < ps.len() ==> #[trigger] ps[i].0 != k,
    ensures
        !pairs_map(ps).contains_key(k),
    decreases ps.len(),
{
    if ps.len() > 0 {
        lemma_pairs_map_lacks(ps.drop_last(), k);
    }
}

pub proof fn lemma_pairs_map_update(ps: Seq<Pair>, i: int, v: Seq<char>)
    requires
        distinct_keys(ps),
        0 <= i < ps.len(),
    ensures
        pairs_map(ps.update(i, (ps[i].0, v))) == pairs_map(ps).insert(ps[i].0, v),
    decreases ps.len(),
{
    let qs = ps.update(i, (ps[i].0, v));
    if i == ps.len() - 1 {
        assert(qs.drop_last() =~= ps.drop_last());
        assert(pairs_map(qs) =~= pairs_map(ps).insert(ps[i].0, v));
    } else {
        assert(qs.drop_last() =~= ps.drop_last().update(i, (ps[i].0, v)));
        lemma_pairs_map_update(ps.drop_last(), i, v);
        assert(ps[i].0 != ps.last().0);
        assert(pairs_map(qs) =~= pairs_map(ps).insert(ps[i].0, v));
    }
}

/// A table from strings to strings with one value per key.
#[derive(Debug)]
pub struct KeyValues {
    entries: Vec<(String, String)>,
}

impl KeyValues {
    /// The entries, in the order in which their keys were first inserted.
    pub closed spec fn pairs(&self) -> Seq<Pair> {
        self.entries@.map_values(|e: (String, String)| (e.0@, e.1@))
    }

    #[verifier::type_invariant]
    spec fn keys_unique(&self) -> bool {
        distinct_keys(self.pairs())
    }

    pub fn new() -> (r: KeyValues)
        ensures
            r@ == Map::<Seq<char>, Seq<char>>::empty(),
            r.pairs() == Seq::<Pair>::empty(),
    {
        let r = KeyValues { entries: Vec::new() };
        assert(r.pairs() =~= Seq::<Pair>::empty());
        r
    }

    /// Sets `key` to `value`, replacing the value the key had; a new key goes
    /// after the others.
    pub fn insert(&mut self, key: String, value: String)
        ensures
            final(self)@ == old(self)@.insert(key@, value@),
            old(self)@.contains_key(key@) ==> final(self).pairs().len() == old(self).pairs().len(),
            !old(self)@.contains_key(key@) ==> final(self).pairs() == old(self).pairs().push(
                (key@, value@),
            ),
            forall|j: int|
                0 <= j < old(self).pairs().len() ==> #[trigger] final(self).pairs()[j] == if old(
                    self,
                ).pairs()[j].0 == key@ {
                    (key@, value@)
                } else {
                    old(self).pairs()[j]
                },
    {
        proof {
            use_type_invariant(&*self);
        }
        let ghost ps = self.pairs();
        let mut out: Vec<(String, String)> = Vec::new();
        let mut found = false;
        let mut i: usize = 0;
        while i < self.entries.len()
            invariant
                i <= self.entries@.len(),
                self.pairs() == ps,
                distinct_keys(ps),
                out@.len() == i,
                found == exists|j: int| 0 <= j < i && #[trigger] ps[j].0 == key@,
                forall|j: int|
                    0 <= j < i ==> (#[trigger] out@[j].0@, out@[j].1@) == if ps[j].0 == key@ {
                        (key@, value@)
                    } else {
                        ps[j]
                    },
            decreases self.entries@.len() - i,
        {
            assert(ps[i as int] == (self.entries@[i as int].0@, self.entries@[i as int].1@));
            if self.entries[i].0 == key {
                out.push((key.clone(), value.clone()));
                found = true;
                assert(ps[i as int].0 == key@);
            } else {
                out.push((self.entries[i].0.clone(), self.entries[i].1.clone()));
                assert(ps[i as int].0 != key@);
            }
            i += 1;
        }
        let ghost kv = (key@, value@);
        if found {
            let ghost i0 = choose|j: int| 0 <= j < ps.len() && #[trigger] ps[j].0 == key@;
            let ghost qs = ps.update(i0, kv);
            proof {
                lemma_pairs_map_update(ps, i0, value@);
                lemma_pairs_map_has(ps, i0);
            }
            *self = KeyValues { entries: out };
            assert(self.pairs() =~= qs);
            assert forall|a: int, b: int| 0 <= a < b < qs.len() implies #[trigger] qs[a].0
                != #[trigger] qs[b].0 by {
                assert(ps[a].0 != ps[b].0);
            }
        } else {
            proof {
                lemma_pairs_map_lacks(ps, key@);
            }
            out.push((key, value));
            *self = KeyValues { entries: out };
            assert(self.pairs() =~= ps.push(kv));
            assert(self.pairs().drop_last() =~= ps);
            assert forall|a: int, b: int| 0 <= a < b < self.pairs().len() implies #[trigger] self.pairs()[a].0
                != #[trigger] self.pairs()[b].0 by {
                if b == ps.len() {
                    assert(ps[a].0 != key@);
                } else {
                    assert(ps[a].0 != ps[b].0);
                }
            }
        }
    }

    /// The value of `key`, if it has one.
    pub fn get(&self, key: &str) -> (r: Option<&String>)
        ensures
            match r {
                Some(v) => self@.contains_key(key@) && v@ == self@[key@],
                None => !self@.contains_key(key@),
            },
    {
        proof {
            use_type_invariant(self);
        }
        let k = key.to_owned();
        let mut i: usize = 0;
        while i < self.entries.len()
            invariant
                i <= self.entries@.len(),
                k@ == key@,
                distinct_keys(self.pairs()),
                forall|j: int| 0 <= j < i ==> #[trigger] self.pairs()[j].0 != key@,
            decreases self.entries@.len() - i,
        {
            if self.entries[i].0 == k {
                proof {
                    lemma_pairs_map_has(self.pairs(), i as int);
                }
                return Some(&self.entries[i].1);
            }
            i += 1;
        }
        proof {
            lemma_pairs_map_lacks(self.pairs(), key@);
        }
        None
    }

    pub fn contains_key(&self, key: &str) -> (r: bool)
        ensures
            r == self@.contains_key(key@),
    {
        self.get(key).is_some()
    }

    pub fn is_empty(&self) -> (r: bool)
        ensures
            r == (self@ == Map::<Seq<char>, Seq<char>>::empty()),
    {
        let r = self.entries.len() == 0;
        if !r {
            let ghost ps = self.pairs();
            assert(self@.contains_key(ps.last().0));
            assert(!Map::<Seq<char>, Seq<char>>::empty().contains_key(ps.last().0));
        } else {
            assert(self.pairs() =~= Seq::<Pair>::empty());
        }
        r
    }

    /// The entries in order.
    pub fn entries(&self) -> (r: &Vec<(String, String)>)
        ensures
            r@.map_values(|e: (String, String)| (e.0@, e.1@)) == self.pairs(),
    {
        &self.entries
    }
}

impl View for KeyValues {
    type V = Map<Seq<char>, Seq<char>>;

    open spec fn view(&self) -> Map<Seq<char>, Seq<char>> {
        pairs_map(self.pairs())
    }
}

} // verus!
