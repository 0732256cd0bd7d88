//! For each triangle of one brush, the triangles of the other brush it
//! intersects, in first-seen order.
use std::collections::HashMap;
use vstd::prelude::*;

verus! {

broadcast use vstd::std_specs::hash::group_hash_axioms;

/// Intersection lists keyed by triangle id; `ids` records each key once, in
/// the order it was first added.
#[derive(Debug)]
pub struct IntersectionMap {
    pub intersection_set: HashMap<usize, Vec<usize>>,
    pub ids: Vec<usize>,
}

impl IntersectionMap {
    /// The lists as a map of sequences.
    pub open spec fn lists(&self) -> Map<usize, Seq<usize>> {
        Map::new(
            |k: usize| self.intersection_set@.contains_key(k),
            |k: usize| self.intersection_set@[k]@,
        )
    }

    /// `ids` lists each key of the map exactly once.
    pub open spec fn wf(&self) -> bool {
        &&& self.ids@.no_duplicates()
        &&& forall|k: usize| #[trigger]
            self.intersection_set@.contains_key(k) <==> self.ids@.contains(k)
    }

    /// An empty map.
    pub fn new() -> (m: Self)
        ensures
            m.wf(),
            m.ids@ == Seq::<usize>::empty(),
            m.lists() == Map::<usize, Seq<usize>>::empty(),
    {
        let m = IntersectionMap { intersection_set: HashMap::new(), ids: Vec::new() };
        assert(m.lists() =~= Map::<usize, Seq<usize>>::empty());
        m
    }

    /// Record that triangle `id` intersects `intersection_id`.
    pub fn add(&mut self, id: usize, intersection_id: usize)
        requires
            old(self).wf(),
        ensures
            final(self).wf(),
            final(self).ids@ == if old(self).lists().contains_key(id) {
                old(self).ids@
            } else {
                old(self).ids@.push(id)
            },
            final(self).lists() == old(self).lists().insert(
                id,
                if old(self).lists().contains_key(id) {
                    old(self).lists()[id].push(intersection_id)
                } else {
                    seq![intersection_id]
                },
            ),
    {
        let ghost old_map = self.intersection_set@;
        let ghost old_ids = self.ids@;
        let present = self.intersection_set.contains_key(&id);
        let mut list = if present {
            match self.intersection_set.remove(&id) {
                Some(l) => l,
                None => Vec::new(),
            }
        } else {
            self.ids.push(id);
            Vec::new()
        };
        proof {
            if !present {
                assert(!old_ids.contains(id));
                assert forall|i: int, j: int|
                    0 <= i < j < self.ids@.len() implies self.ids@[i] != self.ids@[j] by {
                    if j == self.ids@.len() - 1 {
                        assert(old_ids.contains(self.ids@[i]));
                    }
                }
            }
        }
        list.push(intersection_id);
        self.intersection_set.insert(id, list);
        proof {
            assert forall|k: usize| #[trigger]
                self.intersection_set@.contains_key(k) <==> self.ids@.contains(k) by {
                if k != id {
                    assert(old_map.contains_key(k) <==> old_ids.contains(k));
                    if self.ids@.contains(k) {
                        let i = choose|i: int| 0 <= i < self.ids@.len() && self.ids@[i] == k;
                        if !present {
                            assert(i < old_ids.len());
                            assert(old_ids[i] == k);
                        }
                    }
                    if old_ids.contains(k) {
                        let i = choose|i: int| 0 <= i < old_ids.len() && old_ids[i] == k;
                        assert(self.ids@[i] == k);
                    }
                } else {
                    if present {
                        assert(old_ids.contains(id));
                    } else {
                        assert(self.ids@[self.ids@.len() - 1] == id);
                    }
                }
            }
            let ghost expected = old(self).lists().insert(
                id,
                if present { old_map[id]@.push(intersection_id) } else { seq![intersection_id] },
            );
            assert(self.lists() =~= expected);
        }
    }
}

} // verus!
