use vstd::prelude::*;

verus! {

/// A table from clip identifiers (file names) to values, with at most one
/// entry per clip, kept in the order in which the clips were first added.
pub struct ClipTable<V> {
    clips: Vec<String>,
    values: Vec<V>,
}

impl<V> ClipTable<V> {
    /// The clip identifiers, in order of insertion.
    pub closed spec fn keys(&self) -> Seq<Seq<char>> {
        self.clips@.map_values(|s: String| s@)
    }

    /// The values, in the same order as `keys`.
    pub closed spec fn values(&self) -> Seq<V> {
        self.values@
    }

    /// Each clip has at most one entry, and each key has its value.
    pub open spec fn wf(&self) -> bool {
        &&& self.keys().no_duplicates()
        &&& self.keys().len() == self.values().len()
    }

    /// The table as a map from clip identifier to value.
    pub open spec fn view(&self) -> Map<Seq<char>, V> {
        Map::new(
            |c: Seq<char>| self.keys().contains(c),
            |c: Seq<char>| self.values()[self.keys().index_of(c)],
        )
    }

    /// An empty table.
    pub fn new() -> (r: Self)
        ensures
            r.wf(),
            r.keys() == Seq::<Seq<char>>::empty(),
            r.values() == Seq::<V>::empty(),
            r@ == Map::<Seq<char>, V>::empty(),
    {
        let r = ClipTable { clips: Vec::new(), values: Vec::new() };
        assert(r.keys() =~= Seq::<Seq<char>>::empty());
        assert(r@ =~= Map::<Seq<char>, V>::empty());
        r
    }

    /// The number of entries.
    pub fn len(&self) -> (r: usize)
        requires
            self.wf(),
        ensures
            r == self.keys().len(),
    {
        self.clips.len()
    }

    /// The position of `clip` among the keys, if it has an entry.
    pub fn find(&self, clip: &String) -> (r: Option<usize>)
        requires
            self.wf(),
        ensures
            match r {
                Some(i) => i < self.keys().len() && self.keys()[i as int] == clip@,
                None => !self.keys().contains(clip@),
            },
            r.is_some() == self@.contains_key(clip@),
    {
        let n = self.clips.len();
        let mut i: usize = 0;
        while i < n
            invariant
                self.wf(),
                n == self.clips@.len(),
                i <= n,
                forall|j: int| 0 <= j < i ==> self.keys()[j] != clip@,
            decreases n - i,
        {
            if self.clips[i] == *clip {
                assert(self.keys()[i as int] == clip@);
                return Some(i);
            }
            i = i + 1;
        }
        None
    }

    /// The value stored for `clip`, if any.
    pub fn get(&self, clip: &String) -> (r: Option<&V>)
        requires
            self.wf(),
        ensures
            r.is_some() == self@.contains_key(clip@),
            r matches Some(v) ==> *v == self@[clip@],
    {
        match self.find(clip) {
            Some(i) => {
                proof {
                    self.lemma_index_of(i as int);
                }
                Some(&self.values[i])
            },
            None => None,
        }
    }

    /// With no duplicate keys, `index_of` finds the one position of a key.
    pub proof fn lemma_index_of(&self, i: int)
        requires
            self.wf(),
            0 <= i < self.keys().len(),
        ensures
            self.keys().index_of(self.keys()[i]) == i,
            self@.contains_key(self.keys()[i]),
            self@[self.keys()[i]] == self.values()[i],
    {
        let k = self.keys()[i];
        assert(self.keys().contains(k));
        let j = self.keys().index_of(k);
        assert(0 <= j < self.keys().len() && self.keys()[j] == k);
    }

    /// Adds an entry for a clip that has none.
    pub fn insert_new(&mut self, clip: String, v: V)
        requires
            old(self).wf(),
            !old(self)@.contains_key(clip@),
        ensures
            final(self).wf(),
            final(self).keys() == old(self).keys().push(clip@),
            final(self).values() == old(self).values().push(v),
            final(self)@ == old(self)@.insert(clip@, v),
    {
        let ghost k = clip@;
        let ghost pre = *self;
        self.clips.push(clip);
        self.values.push(v);
        assert(self.keys() =~= pre.keys().push(k));
        assert forall|c: Seq<char>| #[trigger] self@.contains_key(c) == pre@.insert(
            k,
            v,
        ).contains_key(c) by {
            if pre.keys().contains(c) {
                let j = pre.keys().index_of(c);
                assert(self.keys()[j] == c);
            }
            if c == k {
                assert(self.keys()[pre.keys().len() as int] == c);
            }
        }
        assert forall|c: Seq<char>| #[trigger] self@.contains_key(c) implies self@[c] == pre@.insert(
            k,
            v,
        )[c] by {
            let j = self.keys().index_of(c);
            assert(0 <= j < self.keys().len() && self.keys()[j] == c);
            if c != k {
                assert(pre.keys().contains(c));
                pre.lemma_index_of(pre.keys().index_of(c));
                assert(j == pre.keys().index_of(c));
            } else {
                assert(j == self.keys().len() - 1);
            }
        }
        assert(self@ =~= pre@.insert(k, v));
    }

    /// Replaces the value at position `i`, and returns the value it held.
    pub fn replace_at(&mut self, i: usize, v: V) -> (r: V)
        requires
            old(self).wf(),
            i < old(self).keys().len(),
        ensures
            final(self).wf(),
            r == old(self).values()[i as int],
            final(self).keys() == old(self).keys(),
            final(self).values() == old(self).values().update(i as int, v),
            final(self)@ == old(self)@.insert(old(self).keys()[i as int], v),
    {
        let ghost pre = *self;
        let ghost k = pre.keys()[i as int];
        let r = self.values.remove(i);
        self.values.insert(i, v);
        assert(self.values() =~= pre.values().update(i as int, v));
        assert forall|c: Seq<char>| #[trigger] self@.contains_key(c) implies self@[c] == pre@.insert(
            k,
            v,
        )[c] by {
            let j = self.keys().index_of(c);
            assert(0 <= j < self.keys().len() && self.keys()[j] == c);
            if c != k {
                assert(j != i);
            } else {
                pre.lemma_index_of(i as int);
            }
        }
        assert(self@ =~= pre@.insert(k, v));
        r
    }

    /// Empties the table and returns its values, in order.
    pub fn drain(&mut self) -> (r: Vec<V>)
        requires
            old(self).wf(),
        ensures
            final(self).wf(),
            r@ == old(self).values(),
            final(self).keys() == Seq::<Seq<char>>::empty(),
            final(self)@ == Map::<Seq<char>, V>::empty(),
    {
        let mut r: Vec<V> = Vec::new();
        std::mem::swap(&mut r, &mut self.values);
        self.clips = Vec::new();
        assert(self.keys() =~= Seq::<Seq<char>>::empty());
        assert(self@ =~= Map::<Seq<char>, V>::empty());
        r
    }
}

} // verus!
