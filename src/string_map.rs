use vstd::prelude::*;

verus! {

/// The views of a sequence of string pairs.
pub open spec fn pair_views(e: Seq<(String, String)>) -> Seq<(Seq<char>, Seq<char>)> {
    e.map_values(|p: (String, String)| (p.0@, p.1@))
}

/// The map that inserting the pairs in order gives: a later pair wins over an
/// earlier one with the same key.
pub open spec fn map_of(p: Seq<(Seq<char>, Seq<char>)>) -> Map<Seq<char>, Seq<char>>
    decreases p.len(),
{
    if p.len() == 0 {
        Map::empty()
    } else {
        map_of(p.drop_last()).insert(p.last().0, p.last().1)
    }
}

pub open spec fn keys_distinct(p: Seq<(Seq<char>, Seq<char>)>) -> bool {
    forall|i: int, j: int| 0 <= i < j < p.len() ==> p[i].0 != p[j].0
}

/// A key that no pair holds is not in the map.
pub proof fn lemma_map_of_absent(p: Seq<(Seq<char>, Seq<char>)>, k: Seq<char>)
    requires
        forall|i: int| 0 <= i < p.len() ==> p[i].0 != k,
    ensures
        !map_of(p).contains_key(k),
    decreases p.len(),
{
    if p.len() > 0 {
        lemma_map_of_absent(p.drop_last(), k);
    }
}

/// With distinct keys, each pair is found in the map.
pub proof fn lemma_map_of_lookup(p: Seq<(Seq<char>, Seq<char>)>, j: int)
    requires
        keys_distinct(p),
        0 <= j < p.len(),
    ensures
        map_of(p).contains_key(p[j].0),
        map_of(p)[p[j].0] == p[j].1,
    decreases p.len(),
{
    if j < p.len() - 1 {
        lemma_map_of_lookup(p.drop_last(), j);
    }
}

/// With distinct keys, replacing the value of a pair is an insert into the map.
pub proof fn lemma_map_of_update(p: Seq<(Seq<char>, Seq<char>)>, j: int, v: Seq<char>)
    requires
        keys_distinct(p),
        0 <= j < p.len(),
    ensures
        map_of(p.update(j, (p[j].0, v))) == map_of(p).insert(p[j].0, v),
    decreases p.len(),
{
    let q = p.update(j, (p[j].0, v));
    if j == p.len() - 1 {
        assert(q.drop_last() =~= p.drop_last());
        assert(map_of(q) =~= map_of(p).insert(p[j].0, v));
    } else {
        assert(q.drop_last() =~= p.drop_last().update(j, (p[j].0, v)));
        lemma_map_of_update(p.drop_last(), j, v);
        assert(map_of(q) =~= map_of(p).insert(p[j].0, v));
    }
}

/// A map from strings to strings whose entries keep the order in which their
/// keys first came.
pub struct StringMap {
    entries: Vec<(String, String)>,
}

impl View for StringMap {
    type V = Map<Seq<char>, Seq<char>>;

    closed spec fn view(&self) -> Map<Seq<char>, Seq<char>> {
        map_of(pair_views(self.entries@))
    }
}

impl StringMap {
    /// The entries, each key once, in the order in which keys first came.
    pub closed spec fn pairs(&self) -> Seq<(Seq<char>, Seq<char>)> {
        pair_views(self.entries@)
    }

    #[verifier::type_invariant]
    closed spec fn inv(self) -> bool {
        keys_distinct(pair_views(self.entries@))
    }

    pub fn new() -> (r: StringMap)
        ensures
            r@ == Map::<Seq<char>, Seq<char>>::empty(),
            r.pairs() == Seq::<(Seq<char>, Seq<char>)>::empty(),
    {
        let r = StringMap { entries: Vec::new() };
        assert(pair_views(r.entries@) =~= Seq::empty());
        r
    }

    /// The position of `key` among the entries.
    fn position(&self, key: &str) -> (r: Option<usize>)
        ensures
            match r {
                Some(j) => j < self.entries@.len() && self.entries@[j as int].0@ == key@,
                None => forall|i: int|
                    0 <= i < self.entries@.len() ==> self.entries@[i].0@ != key@,
            },
    {
        let mut i: usize = 0;
        while i < self.entries.len()
            invariant
                i <= self.entries@.len(),
                forall|k: int| 0 <= k < i ==> self.entries@[k].0@ != key@,
            decreases self.entries@.len() - i,
        {
            if crate::text::str_eq(self.entries[i].0.as_str(), key) {
                return Some(i);
            }
            i += 1;
        }
        None
    }

    /// Sets the value of `key`, replacing an earlier one.
    pub fn insert(&mut self, key: String, value: String)
        ensures
            final(self)@ == old(self)@.insert(key@, value@),
            old(self)@.contains_key(key@) ==> final(self).pairs().len() == old(self).pairs().len(),
            !old(self)@.contains_key(key@) ==> final(self).pairs() == old(self).pairs().push((key@, value@)),
    {
        proof {
            use_type_invariant(&*self);
        }
        let ghost p = pair_views(self.entries@);
        let pos = self.position(key.as_str());
        let mut entries: Vec<(String, String)> = Vec::new();
        std::mem::swap(&mut entries, &mut self.entries);
        match pos {
            Some(j) => {
                proof {
                    lemma_map_of_lookup(p, j as int);
                    lemma_map_of_update(p, j as int, value@);
                }
                entries.set(j, (key, value));
                proof {
                    assert(pair_views(entries@) =~= p.update(j as int, (p[j as int].0, value@)));
                }
            },
            None => {
                proof {
                    lemma_map_of_absent(p, key@);
                }
                entries.push((key, value));
                proof {
                    assert(pair_views(entries@) =~= p.push((key@, value@)));
                    assert(pair_views(entries@).drop_last() =~= p);
                }
            },
        }
        self.entries = entries;
    }

    /// The value of `key`, if it has one.
    pub fn get(&self, key: &str) -> (r: Option<&String>)
        ensures
            match r {
                Some(v) => self@.contains_key(key@) && self@[key@] == v@,
                None => !self@.contains_key(key@),
            },
    {
        proof {
            use_type_invariant(self);
        }
        let ghost p = pair_views(self.entries@);
        match self.position(key) {
            Some(j) => {
                proof {
                    lemma_map_of_lookup(p, j as int);
                }
                Some(&self.entries[j].1)
            },
            None => {
                proof {
                    assert forall|i: int| 0 <= i < p.len() implies p[i].0 != key@ by {
                        assert(p[i].0 == self.entries@[i].0@);
                    }
                    lemma_map_of_absent(p, key@);
                }
                None
            },
        }
    }

    /// The entries, each key once.
    pub fn entries(&self) -> (r: &Vec<(String, String)>)
        ensures
            pair_views(r@) == self.pairs(),
            keys_distinct(self.pairs()),
            map_of(self.pairs()) == self@,
    {
        proof {
            use_type_invariant(self);
        }
        &self.entries
    }

    /// The number of keys.
    pub fn len(&self) -> (r: usize)
        ensures
            r == self.pairs().len(),
    {
        self.entries.len()
    }
}

} // verus!
