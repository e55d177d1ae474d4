//! The reference policy reasoner: a rule table.  A site is admitted to data
//! either wholesale, or for a named blob, or whenever the blob is currently
//! associated with a named expression; a computation is permitted wholesale
//! or for named (site, expression) pairs.
use crate::eid_bits_set;
use crate::DataId;
use crate::ExprId;
use crate::PolicyReasoner;
use crate::SiteId;
use vstd::prelude::*;

verus! {

pub struct PolicyReasonerImpl {
    /// Every site may hold every blob.
    pub access_all: bool,
    /// These sites may hold every blob.
    pub access_sites: Vec<SiteId>,
    /// This site may hold this blob.
    pub access_pairs: Vec<(SiteId, DataId)>,
    /// This site may hold any blob currently associated with this expression.
    pub access_assoc: Vec<(SiteId, ExprId)>,
    /// Every site may perform every computation.
    pub compute_all: bool,
    /// This site may perform this computation.
    pub compute_pairs: Vec<(SiteId, ExprId)>,
}

impl PolicyReasonerImpl {
    pub fn new(
        access_all: bool,
        access_sites: Vec<SiteId>,
        access_pairs: Vec<(SiteId, DataId)>,
        access_assoc: Vec<(SiteId, ExprId)>,
        compute_all: bool,
        compute_pairs: Vec<(SiteId, ExprId)>,
    ) -> (r: PolicyReasonerImpl)
        ensures
            r == (PolicyReasonerImpl {
                access_all,
                access_sites,
                access_pairs,
                access_assoc,
                compute_all,
                compute_pairs,
            }),
    {
        PolicyReasonerImpl {
            access_all,
            access_sites,
            access_pairs,
            access_assoc,
            compute_all,
            compute_pairs,
        }
    }

    /// The totally permissive reasoner: everything is allowed everywhere.
    pub fn permissive() -> (r: PolicyReasonerImpl)
        ensures
            forall|did: u64, eids: Set<u64>, sid: u64| r.may_access_spec(did, eids, sid),
            forall|eid: u64, sid: u64| r.may_compute_spec(eid, sid),
    {
        PolicyReasonerImpl {
            access_all: true,
            access_sites: Vec::new(),
            access_pairs: Vec::new(),
            access_assoc: Vec::new(),
            compute_all: true,
            compute_pairs: Vec::new(),
        }
    }
}

impl PolicyReasoner for PolicyReasonerImpl {
    open spec fn may_access_spec(&self, did: u64, eids: Set<u64>, sid: u64) -> bool {
        ||| self.access_all
        ||| exists|i: int| 0 <= i < self.access_sites@.len() && (#[trigger] self.access_sites@[i])@
            == sid
        ||| exists|i: int|
            0 <= i < self.access_pairs@.len() && (#[trigger] self.access_pairs@[i]).0@ == sid
                && self.access_pairs@[i].1@ == did
        ||| exists|i: int|
            0 <= i < self.access_assoc@.len() && (#[trigger] self.access_assoc@[i]).0@ == sid
                && eids.contains(self.access_assoc@[i].1@)
    }

    open spec fn may_compute_spec(&self, eid: u64, sid: u64) -> bool {
        ||| self.compute_all
        ||| exists|i: int|
            0 <= i < self.compute_pairs@.len() && (#[trigger] self.compute_pairs@[i]).0@ == sid
                && self.compute_pairs@[i].1@ == eid
    }

    fn may_access(&self, did: DataId, eids: &Vec<ExprId>, sid: SiteId) -> (r: bool) {
        if self.access_all {
            return true;
        }
        let mut i: usize = 0;
        while i < self.access_sites.len()
            invariant
                i <= self.access_sites@.len(),
                forall|j: int| 0 <= j < i ==> (#[trigger] self.access_sites@[j])@ != sid@,
            decreases self.access_sites@.len() - i,
        {
            if self.access_sites[i].0.bits == sid.0.bits {
                return true;
            }
            i = i + 1;
        }
        let mut i: usize = 0;
        while i < self.access_pairs.len()
            invariant
                i <= self.access_pairs@.len(),
                forall|j: int|
                    0 <= j < i ==> !((#[trigger] self.access_pairs@[j]).0@ == sid@
                        && self.access_pairs@[j].1@ == did@),
            decreases self.access_pairs@.len() - i,
        {
            if self.access_pairs[i].0.0.bits == sid.0.bits && self.access_pairs[i].1.0.bits
                == did.0.bits {
                return true;
            }
            i = i + 1;
        }
        let mut i: usize = 0;
        while i < self.access_assoc.len()
            invariant
                i <= self.access_assoc@.len(),
                forall|j: int|
                    0 <= j < i ==> !((#[trigger] self.access_assoc@[j]).0@ == sid@
                        && eid_bits_set(eids@).contains(self.access_assoc@[j].1@)),
            decreases self.access_assoc@.len() - i,
        {
            if self.access_assoc[i].0.0.bits == sid.0.bits {
                let want = self.access_assoc[i].1;
                let mut k: usize = 0;
                while k < eids.len()
                    invariant
                        k <= eids@.len(),
                        forall|j: int| 0 <= j < k ==> (#[trigger] eids@[j])@ != want@,
                        want == self.access_assoc@[i as int].1,
                        i < self.access_assoc@.len(),
                        self.access_assoc@[i as int].0@ == sid@,
                    decreases eids@.len() - k,
                {
                    if eids[k].0.bits == want.0.bits {
                        proof {
                            assert(eids@.map_values(|q: ExprId| q@)[k as int] == want@);
                            assert(eid_bits_set(eids@).contains(want@));
                        }
                        return true;
                    }
                    k = k + 1;
                }
                proof {
                    assert(!eid_bits_set(eids@).contains(want@)) by {
                        let m = eids@.map_values(|q: ExprId| q@);
                        if m.contains(want@) {
                            let j = choose|j: int| 0 <= j < m.len() && m[j] == want@;
                            assert(eids@[j]@ == want@);
                        }
                    }
                }
            }
            i = i + 1;
        }
        false
    }

    fn may_compute(&self, eid: ExprId, sid: SiteId) -> (r: bool) {
        if self.compute_all {
            return true;
        }
        let mut i: usize = 0;
        while i < self.compute_pairs.len()
            invariant
                i <= self.compute_pairs@.len(),
                forall|j: int|
                    0 <= j < i ==> !((#[trigger] self.compute_pairs@[j]).0@ == sid@
                        && self.compute_pairs@[j].1@ == eid@),
            decreases self.compute_pairs@.len() - i,
        {
            if self.compute_pairs[i].0.0.bits == sid.0.bits && self.compute_pairs[i].1.0.bits
                == eid.0.bits {
                return true;
            }
            i = i + 1;
        }
        false
    }
}

} // verus!
