use vstd::prelude::*;
use crate::gameworld::position::Position;

verus! {

/// A map from positions to values, kept as a list of entries whose positions
/// are all different.
pub struct PosMap<V> {
    entries: Vec<(Position, V)>,
}

impl<V: Copy> PosMap<V> {
    /// No two entries share a position.
    pub closed spec fn wf(&self) -> bool {
        forall|i: int, j: int|
            0 <= i < self.entries@.len() && 0 <= j < self.entries@.len() && i != j
                ==> self.entries@[i].0 != self.entries@[j].0
    }

    /// The map the entries stand for.
    pub closed spec fn view(&self) -> Map<Position, V> {
        Map::new(
            |p: Position| exists|i: int| 0 <= i < self.entries@.len() && self.entries@[i].0 == p,
            |p: Position|
                self.entries@[choose|i: int|
                    0 <= i < self.entries@.len() && #[trigger] self.entries@[i].0 == p].1,
        )
    }

    /// The number of entries.
    pub closed spec fn size(&self) -> nat {
        self.entries@.len()
    }

    /// An empty map.
    pub fn new() -> (m: Self)
        ensures
            m.wf(),
            m.view() == Map::<Position, V>::empty(),
            m.size() == 0,
    {
        let m = PosMap { entries: Vec::new() };
        assert(m.view() =~= Map::<Position, V>::empty());
        m
    }

    proof fn lemma_index(&self, p: Position, i: int)
        requires
            self.wf(),
            0 <= i < self.entries@.len(),
            self.entries@[i].0 == p,
        ensures
            self.view().contains_key(p),
            self.view()[p] == self.entries@[i].1,
    {
        let k = choose|k: int| 0 <= k < self.entries@.len() && #[trigger] self.entries@[k].0 == p;
        assert(0 <= k < self.entries@.len() && self.entries@[k].0 == p);
        if k != i {
            assert(self.entries@[k].0 != self.entries@[i].0);
        }
    }

    fn find(&self, p: Position) -> (r: Option<usize>)
        requires
            self.wf(),
        ensures
            match r {
                Some(i) => i < self.entries@.len() && self.entries@[i as int].0 == p,
                None => !self.view().contains_key(p),
            },
    {
        let mut i: usize = 0;
        while i < self.entries.len()
            invariant
                0 <= i <= self.entries@.len(),
                forall|j: int| 0 <= j < i ==> self.entries@[j].0 != p,
            decreases self.entries@.len() - i,
        {
            if self.entries[i].0 == p {
                return Some(i);
            }
            i = i + 1;
        }
        None
    }

    /// The number of entries.
    pub fn len(&self) -> (n: usize)
        ensures
            n == self.size(),
    {
        self.entries.len()
    }

    /// The value at `p`, if any.
    pub fn get(&self, p: Position) -> (r: Option<V>)
        requires
            self.wf(),
        ensures
            r == (if self.view().contains_key(p) { Some(self.view()[p]) } else { None }),
    {
        match self.find(p) {
            Some(i) => {
                proof {
                    self.lemma_index(p, i as int);
                }
                Some(self.entries[i].1)
            },
            None => None,
        }
    }

    /// Sets the value at `p`.
    pub fn insert(&mut self, p: Position, v: V)
        requires
            old(self).wf(),
        ensures
            final(self).wf(),
            final(self).view() == old(self).view().insert(p, v),
            final(self).size() == (if old(self).view().contains_key(p) {
                old(self).size()
            } else {
                old(self).size() + 1
            }),
    {
        let ghost old_map = self.view();
        match self.find(p) {
            Some(i) => {
                proof {
                    self.lemma_index(p, i as int);
                }
                self.entries.set(i, (p, v));
                assert forall|q: Position| #[trigger] self.view().contains_key(q) <==> old_map.insert(
                    p,
                    v,
                ).contains_key(q) by {
                    if old_map.contains_key(q) {
                        let k = choose|k: int|
                            0 <= k < old(self).entries@.len() && #[trigger] old(self).entries@[k].0 == q;
                        assert(self.entries@[k].0 == q);
                    }
                    if self.view().contains_key(q) {
                        let k = choose|k: int|
                            0 <= k < self.entries@.len() && #[trigger] self.entries@[k].0 == q;
                        assert(old(self).entries@[k].0 == q);
                    }
                }
                assert forall|q: Position| #[trigger] self.view().contains_key(q) implies self.view()[q]
                    == old_map.insert(p, v)[q] by {
                    let k = choose|k: int|
                        0 <= k < self.entries@.len() && #[trigger] self.entries@[k].0 == q;
                    self.lemma_index(q, k);
                    if q != p {
                        old(self).lemma_index(q, k);
                    }
                }
                assert(self.view() =~= old_map.insert(p, v));
            },
            None => {
                self.entries.push((p, v));
                let ghost n: int = self.entries@.len() - 1;
                assert forall|q: Position| #[trigger] self.view().contains_key(q) <==> old_map.insert(
                    p,
                    v,
                ).contains_key(q) by {
                    if old_map.contains_key(q) {
                        let k = choose|k: int|
                            0 <= k < old(self).entries@.len() && #[trigger] old(self).entries@[k].0 == q;
                        assert(self.entries@[k].0 == q);
                    }
                    if q == p {
                        assert(self.entries@[n].0 == q);
                    }
                    if self.view().contains_key(q) && q != p {
                        let k = choose|k: int|
                            0 <= k < self.entries@.len() && #[trigger] self.entries@[k].0 == q;
                        assert(k != n);
                        assert(old(self).entries@[k].0 == q);
                    }
                }
                assert forall|q: Position| #[trigger] self.view().contains_key(q) implies self.view()[q]
                    == old_map.insert(p, v)[q] by {
                    let k = choose|k: int|
                        0 <= k < self.entries@.len() && #[trigger] self.entries@[k].0 == q;
                    self.lemma_index(q, k);
                    if q != p {
                        assert(k != n);
                        old(self).lemma_index(q, k);
                    } else {
                        self.lemma_index(q, n);
                    }
                }
                assert(self.view() =~= old_map.insert(p, v));
            },
        }
    }
}

} // verus!
