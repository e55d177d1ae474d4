//! The bidirectional many-relation between `DataId` and `ExprId`: for each
//! `DataId` the set of `ExprId`s whose result is (believed to be) that blob,
//! and for each `ExprId` at most one `DataId` — its resolved result.
//!
//! The store is functional on the `ExprId` side by construction: an attempt
//! to overwrite a resolution with a different `DataId` is refused and
//! reported, never applied.
use crate::assoc_of;
use crate::eid_bits_set;
use crate::DataId;
use crate::ExprId;
use std::collections::HashMap;
use vstd::prelude::*;

verus! {

broadcast use vstd::std_specs::hash::group_hash_axioms;

/// The store.  Its mathematical content is the functional direction, a map
/// from `ExprId` bits to `DataId` bits; the reverse direction is an index
/// kept consistent with it.
pub struct Resolutions {
    fwd: HashMap<u64, u64>,
    rev: HashMap<u64, Vec<u64>>,
}

impl View for Resolutions {
    type V = Map<u64, u64>;

    closed spec fn view(&self) -> Map<u64, u64> {
        self.fwd@
    }
}

impl Resolutions {
    /// The reverse index lists exactly the expressions each data id is
    /// resolved from.
    pub closed spec fn wf(self) -> bool {
        &&& forall|e: u64| #[trigger]
            self.fwd@.contains_key(e) ==> self.rev@.contains_key(self.fwd@[e])
                && self.rev@[self.fwd@[e]]@.contains(e)
        &&& forall|d: u64, i: int|
            #![trigger self.rev@[d]@[i]]
            self.rev@.contains_key(d) && 0 <= i < self.rev@[d]@.len() ==> self.fwd@.contains_key(
                self.rev@[d]@[i],
            ) && self.fwd@[self.rev@[d]@[i]] == d
    }

    /// An empty store.
    pub fn new() -> (r: Resolutions)
        ensures
            r.wf(),
            r@ == Map::<u64, u64>::empty(),
    {
        Resolutions { fwd: HashMap::new(), rev: HashMap::new() }
    }

    /// Assert the resolution `eid -> did`.  Re-asserting what is already
    /// held succeeds and changes nothing; contradicting it is refused and
    /// changes nothing.
    pub fn insert(&mut self, did: DataId, eid: ExprId) -> (r: Result<(), ()>)
        requires
            old(self).wf(),
        ensures
            final(self).wf(),
            (r is Ok) == (!old(self)@.contains_key(eid@) || old(self)@[eid@] == did@),
            r is Ok ==> final(self)@ == old(self)@.insert(eid@, did@),
            r is Err ==> final(self)@ == old(self)@,
    {
        let e = eid.0.bits;
        let d = did.0.bits;
        match self.fwd.get(&e) {
            Some(existing) => {
                if *existing == d {
                    proof {
                        assert(old(self)@.insert(e, d) =~= old(self)@);
                    }
                    Ok(())
                } else {
                    Err(())
                }
            },
            None => {
                self.fwd.insert(e, d);
                let mut v: Vec<u64> = match self.rev.remove(&d) {
                    Some(v) => v,
                    None => Vec::new(),
                };
                v.push(e);
                self.rev.insert(d, v);
                proof {
                    let oldm = old(self);
                    assert forall|e2: u64| #[trigger] self.fwd@.contains_key(e2) implies self.rev@.contains_key(
                        self.fwd@[e2],
                    ) && self.rev@[self.fwd@[e2]]@.contains(e2) by {
                        if e2 == e {
                            assert(self.rev@[d]@.last() == e);
                        } else {
                            let d2 = self.fwd@[e2];
                            assert(oldm.fwd@.contains_key(e2));
                            assert(oldm.rev@[d2]@.contains(e2));
                            if d2 == d {
                                let i = choose|i: int|
                                    0 <= i < oldm.rev@[d2]@.len() && oldm.rev@[d2]@[i] == e2;
                                assert(self.rev@[d]@[i] == e2);
                            }
                        }
                    }
                    assert forall|d2: u64, i: int|
                        self.rev@.contains_key(d2) && 0 <= i < self.rev@[d2]@.len() implies self.fwd@.contains_key(
                        #[trigger] self.rev@[d2]@[i],
                    ) && self.fwd@[self.rev@[d2]@[i]] == d2 by {
                        if d2 == d {
                            if i < self.rev@[d]@.len() - 1 {
                                assert(oldm.rev@.contains_key(d));
                                assert(oldm.rev@[d]@[i] == self.rev@[d]@[i]);
                            } else {
                                assert(self.rev@[d]@[i] == e);
                            }
                        } else {
                            assert(oldm.rev@.contains_key(d2));
                            assert(oldm.rev@[d2]@[i] == self.rev@[d2]@[i]);
                            assert(oldm.fwd@[self.rev@[d2]@[i]] == d2);
                        }
                    }
                }
                Ok(())
            },
        }
    }

    /// The resolved result of `eid`, if this site knows one.
    pub fn get_one(&self, eid: &ExprId) -> (r: Option<DataId>)
        ensures
            match r {
                Some(d) => self@.contains_key(eid@) && self@[eid@] == d@,
                None => !self@.contains_key(eid@),
            },
    {
        match self.fwd.get(&eid.0.bits) {
            Some(d) => Some(DataId(crate::Id { bits: *d })),
            None => None,
        }
    }

    /// Every expression currently resolved to `did`.
    pub fn get_many(&self, did: &DataId) -> (r: Vec<ExprId>)
        requires
            self.wf(),
        ensures
            eid_bits_set(r@) == assoc_of(self@, did@),
    {
        let mut out: Vec<ExprId> = Vec::new();
        match self.rev.get(&did.0.bits) {
            Some(v) => {
                let mut i: usize = 0;
                while i < v.len()
                    invariant
                        i <= v.len(),
                        out@.len() == i,
                        forall|j: int| 0 <= j < i ==> out@[j]@ == v@[j],
                        self.rev@.contains_key(did@) && self.rev@[did@] == *v,
                        self.wf(),
                    decreases v.len() - i,
                {
                    out.push(ExprId(crate::Id { bits: v[i] }));
                    i = i + 1;
                }
                proof {
                    assert forall|x: u64| eid_bits_set(out@).contains(x) implies assoc_of(
                        self@,
                        did@,
                    ).contains(x) by {
                        let m = out@.map_values(|q: ExprId| q@);
                        let j = choose|j: int| 0 <= j < m.len() && m[j] == x;
                        assert(v@[j] == x);
                    }
                    assert forall|x: u64| assoc_of(self@, did@).contains(x) implies eid_bits_set(
                        out@,
                    ).contains(x) by {
                        assert(self.fwd@.contains_key(x));
                        assert(self.rev@[did@]@.contains(x));
                        let j = choose|j: int| 0 <= j < v@.len() && v@[j] == x;
                        assert(out@.map_values(|q: ExprId| q@)[j] == x);
                    }
                    assert(eid_bits_set(out@) =~= assoc_of(self@, did@));
                }
            },
            None => {
                proof {
                    assert forall|x: u64| !assoc_of(self@, did@).contains(x) by {
                        if self.fwd@.contains_key(x) && self.fwd@[x] == did@ {
                            assert(self.rev@.contains_key(did@));
                        }
                    }
                    assert(eid_bits_set(out@) =~= assoc_of(self@, did@));
                }
            },
        }
        out
    }
}

} // verus!
