//! Trust ledger: the keyed store of per-validator trust records.
//!
//! The ledger owns the record lifecycle: `insert` creates, `replace`
//! mutates all-or-nothing, `remove` destroys.  Records are keyed by the
//! validator identity stored in the record itself; the well-formedness
//! invariant keeps keys unique and every record's score within bounds.

use vstd::prelude::*;

verus! {

use crate::score::REMOVAL_THRESHOLD;
use crate::score::SCALE;

/// Typed failures returned to the caller.
#[derive(Clone, Copy, PartialEq, Eq, Structural, Debug)]
pub enum Error {
    /// A mutation or query named an identity absent from the ledger.
    ValidatorNotFound,
    /// An initialization named an identity already present.
    AlreadyExists,
    /// Reserved for out-of-range scores handed to a future direct-set
    /// operation; no current operation returns it.
    InvalidTrustScore,
}

/// One trust record per validator.  The score is in ppm (`SCALE` is `1.0`).
#[derive(Clone, Copy, PartialEq, Eq, Structural, Debug)]
pub struct NodeTrustData {
    pub validator: u64,
    pub trust_score: u64,
    pub successful_validations: u64,
    pub failed_validations: u64,
    pub last_updated: u64,
    pub flagged_for_removal: bool,
}

impl NodeTrustData {
    /// A record's score stays within `[0, SCALE]`, and a record that is not
    /// flagged never sits below the removal threshold: flagging happens the
    /// moment a failing update lands below it.
    pub open spec fn wf(self) -> bool {
        &&& self.trust_score <= SCALE
        &&& !self.flagged_for_removal ==> self.trust_score >= REMOVAL_THRESHOLD
    }
}

/// Keyed store of per-validator trust records.
pub struct TrustLedger {
    pub records: Vec<NodeTrustData>,
}

impl TrustLedger {
    /// No two records carry the same validator identity.
    pub open spec fn ids_unique(self) -> bool {
        forall|i: int, j: int|
            0 <= i < j < self.records@.len() ==> (#[trigger] self.records@[i]).validator != (
            #[trigger] self.records@[j]).validator
    }

    /// Every stored record is well formed.
    pub open spec fn all_wf(self) -> bool {
        forall|i: int| 0 <= i < self.records@.len() ==> (#[trigger] self.records@[i]).wf()
    }

    pub open spec fn wf(self) -> bool {
        self.ids_unique() && self.all_wf()
    }

    /// The identity `v` has a record in the ledger.
    pub open spec fn has(self, v: u64) -> bool {
        exists|i: int| 0 <= i < self.records@.len() && (#[trigger] self.records@[i]).validator == v
    }

    /// Position of the record of `v`; meaningful when `has(v)` and the keys
    /// are unique.
    pub open spec fn index_of(self, v: u64) -> int {
        choose|i: int|
            0 <= i < self.records@.len() && (#[trigger] self.records@[i]).validator == v
    }

    /// The record stored for `v`.
    pub open spec fn record_of(self, v: u64) -> NodeTrustData {
        self.records@[self.index_of(v)]
    }

    /// With unique keys, any position holding `v` is the position of `v`.
    pub proof fn lemma_index_of_is(self, v: u64, i: int)
        requires
            self.ids_unique(),
            0 <= i < self.records@.len(),
            self.records@[i].validator == v,
        ensures
            self.has(v),
            self.index_of(v) == i,
            self.record_of(v) == self.records@[i],
    {
        assert(self.has(v));
        let j = self.index_of(v);
        assert(0 <= j < self.records@.len() && self.records@[j].validator == v);
        if i < j {
            assert(self.records@[i].validator != self.records@[j].validator);
        } else if j < i {
            assert(self.records@[j].validator != self.records@[i].validator);
        }
    }

    pub fn new() -> (l: TrustLedger)
        ensures
            l.records@ == Seq::<NodeTrustData>::empty(),
            l.wf(),
    {
        TrustLedger { records: Vec::new() }
    }

    /// Position of the record of `v`, if any.
    pub fn find(&self, v: u64) -> (r: Option<usize>)
        ensures
            match r {
                Some(i) => {
                    &&& i < self.records@.len()
                    &&& self.records@[i as int].validator == v
                    &&& self.has(v)
                    &&& self.ids_unique() ==> self.index_of(v) == i
                },
                None => !self.has(v),
            },
    {
        let mut i: usize = 0;
        while i < self.records.len()
            invariant
                i <= self.records@.len(),
                forall|j: int| 0 <= j < i ==> (#[trigger] self.records@[j]).validator != v,
            decreases self.records@.len() - i,
        {
            if self.records[i].validator == v {
                proof {
                    if self.ids_unique() {
                        self.lemma_index_of_is(v, i as int);
                    }
                }
                return Some(i);
            }
            i = i + 1;
        }
        None
    }

    /// Whether `v` has a record.
    pub fn contains(&self, v: u64) -> (r: bool)
        ensures
            r == self.has(v),
    {
        self.find(v).is_some()
    }

    /// The record of `v`, or `None` when `v` is absent.
    pub fn get(&self, v: u64) -> (r: Option<&NodeTrustData>)
        ensures
            match r {
                Some(rec) => {
                    &&& self.has(v)
                    &&& rec.validator == v
                    &&& self.ids_unique() ==> *rec == self.record_of(v)
                    &&& self.wf() ==> rec.wf()
                },
                None => !self.has(v),
            },
    {
        match self.find(v) {
            Some(i) => Some(&self.records[i]),
            None => None,
        }
    }

    /// Creates the record of `rec.validator`; fails with `AlreadyExists` if
    /// the identity is already keyed.
    pub fn insert(&mut self, rec: NodeTrustData) -> (r: Result<(), Error>)
        requires
            old(self).wf(),
            rec.wf(),
        ensures
            final(self).wf(),
            match r {
                Ok(()) => {
                    &&& !old(self).has(rec.validator)
                    &&& final(self).records@ == old(self).records@.push(rec)
                    &&& final(self).has(rec.validator)
                    &&& final(self).record_of(rec.validator) == rec
                    &&& forall|w: u64|
                        w != rec.validator ==> #[trigger] final(self).has(w) == old(self).has(w)
                    &&& forall|w: u64|
                        w != rec.validator && old(self).has(w) ==> #[trigger] final(self).record_of(w) == old(self).record_of(w)
                },
                Err(e) => {
                    &&& e == Error::AlreadyExists
                    &&& old(self).has(rec.validator)
                    &&& *final(self) == *old(self)
                },
            },
    {
        if self.contains(rec.validator) {
            return Err(Error::AlreadyExists);
        }
        let ghost pre = *self;
        self.records.push(rec);
        proof {
            let n = pre.records@.len() as int;
            assert forall|i: int, j: int| 0 <= i < j < self.records@.len() implies (
            #[trigger] self.records@[i]).validator != (#[trigger] self.records@[j]).validator by {
                if j < n {
                    assert(pre.records@[i].validator != pre.records@[j].validator);
                } else {
                    assert(self.records@[j] == rec);
                    if pre.records@[i].validator == rec.validator {
                        assert(pre.has(rec.validator));
                    }
                }
            }
            self.lemma_index_of_is(rec.validator, n);
            assert forall|w: u64| w != rec.validator implies #[trigger] self.has(w) == pre.has(
                w,
            ) by {
                if self.has(w) {
                    let i = choose|i: int|
                        0 <= i < self.records@.len() && (#[trigger] self.records@[i]).validator
                            == w;
                    assert(i < n && pre.records@[i].validator == w);
                }
                if pre.has(w) {
                    let i = choose|i: int|
                        0 <= i < pre.records@.len() && (#[trigger] pre.records@[i]).validator == w;
                    assert(self.records@[i].validator == w);
                }
            }
            assert forall|w: u64| w != rec.validator && pre.has(w) implies #[trigger] self.record_of(
                w,
            ) == pre.record_of(w) by {
                let i = pre.index_of(w);
                pre.lemma_index_of_is(w, i);
                self.lemma_index_of_is(w, i);
            }
        }
        Ok(())
    }

    /// Replaces the record of `v` wholesale (the ledger's all-or-nothing
    /// mutation); fails with `ValidatorNotFound` if `v` is absent.
    pub fn replace(&mut self, v: u64, rec: NodeTrustData) -> (r: Result<(), Error>)
        requires
            old(self).wf(),
            rec.wf(),
            rec.validator == v,
        ensures
            final(self).wf(),
            match r {
                Ok(()) => {
                    &&& old(self).has(v)
                    &&& final(self).records@ == old(self).records@.update(
                        old(self).index_of(v),
                        rec,
                    )
                    &&& final(self).has(v)
                    &&& final(self).record_of(v) == rec
                    &&& forall|w: u64| #[trigger] final(self).has(w) == old(self).has(w)
                    &&& forall|w: u64|
                        w != v && old(self).has(w) ==> #[trigger] final(self).record_of(w) == old(self).record_of(w)
                },
                Err(e) => {
                    &&& e == Error::ValidatorNotFound
                    &&& !old(self).has(v)
                    &&& *final(self) == *old(self)
                },
            },
    {
        let idx = match self.find(v) {
            Some(i) => i,
            None => {
                return Err(Error::ValidatorNotFound);
            },
        };
        let ghost pre = *self;
        self.records.set(idx, rec);
        proof {
            let n = pre.records@.len() as int;
            assert forall|i: int, j: int| 0 <= i < j < self.records@.len() implies (
            #[trigger] self.records@[i]).validator != (#[trigger] self.records@[j]).validator by {
                assert(pre.records@[i].validator != pre.records@[j].validator);
                assert(self.records@[i].validator == pre.records@[i].validator);
                assert(self.records@[j].validator == pre.records@[j].validator);
            }
            self.lemma_index_of_is(v, idx as int);
            assert forall|w: u64| #[trigger] self.has(w) == pre.has(w) by {
                if self.has(w) {
                    let i = choose|i: int|
                        0 <= i < self.records@.len() && (#[trigger] self.records@[i]).validator
                            == w;
                    assert(pre.records@[i].validator == w);
                }
                if pre.has(w) {
                    let i = choose|i: int|
                        0 <= i < pre.records@.len() && (#[trigger] pre.records@[i]).validator == w;
                    assert(self.records@[i].validator == w);
                }
            }
            assert forall|w: u64| w != v && pre.has(w) implies #[trigger] self.record_of(w)
                == pre.record_of(w) by {
                let i = pre.index_of(w);
                pre.lemma_index_of_is(w, i);
                self.lemma_index_of_is(w, i);
            }
        }
        Ok(())
    }

    /// Deletes the record of `v`; fails with `ValidatorNotFound` if `v` is
    /// absent.
    pub fn remove(&mut self, v: u64) -> (r: Result<(), Error>)
        requires
            old(self).wf(),
        ensures
            final(self).wf(),
            match r {
                Ok(()) => {
                    &&& old(self).has(v)
                    &&& final(self).records@ == old(self).records@.remove(old(self).index_of(v))
                    &&& !final(self).has(v)
                    &&& forall|w: u64|
                        w != v ==> #[trigger] final(self).has(w) == old(self).has(w)
                    &&& forall|w: u64|
                        w != v && old(self).has(w) ==> #[trigger] final(self).record_of(w) == old(self).record_of(w)
                },
                Err(e) => {
                    &&& e == Error::ValidatorNotFound
                    &&& !old(self).has(v)
                    &&& *final(self) == *old(self)
                },
            },
    {
        let idx = match self.find(v) {
            Some(i) => i,
            None => {
                return Err(Error::ValidatorNotFound);
            },
        };
        let ghost pre = *self;
        self.records.remove(idx);
        proof {
            let n = pre.records@.len() as int;
            let k = idx as int;
            assert(self.records@ =~= pre.records@.remove(k));
            assert forall|i: int| 0 <= i < self.records@.len() implies #[trigger] self.records@[i]
                == if i < k {
                pre.records@[i]
            } else {
                pre.records@[i + 1]
            } by {}
            assert forall|i: int, j: int| 0 <= i < j < self.records@.len() implies (
            #[trigger] self.records@[i]).validator != (#[trigger] self.records@[j]).validator by {}
            assert forall|i: int| 0 <= i < self.records@.len() implies (
            #[trigger] self.records@[i]).wf() by {}
            assert(!self.has(v)) by {
                if self.has(v) {
                    let i = choose|i: int|
                        0 <= i < self.records@.len() && (#[trigger] self.records@[i]).validator
                            == v;
                    if i < k {
                        pre.lemma_index_of_is(v, i);
                    } else {
                        pre.lemma_index_of_is(v, i + 1);
                    }
                }
            }
            assert forall|w: u64| w != v implies #[trigger] self.has(w) == pre.has(w) by {
                if self.has(w) {
                    let i = choose|i: int|
                        0 <= i < self.records@.len() && (#[trigger] self.records@[i]).validator
                            == w;
                    if i < k {
                        assert(pre.records@[i].validator == w);
                    } else {
                        assert(pre.records@[i + 1].validator == w);
                    }
                }
                if pre.has(w) {
                    let i = choose|i: int|
                        0 <= i < pre.records@.len() && (#[trigger] pre.records@[i]).validator == w;
                    if i < k {
                        assert(self.records@[i].validator == w);
                    } else {
                        assert(i != k);
                        assert(self.records@[i - 1].validator == w);
                    }
                }
            }
            assert forall|w: u64| w != v && pre.has(w) implies #[trigger] self.record_of(w)
                == pre.record_of(w) by {
                let i = pre.index_of(w);
                pre.lemma_index_of_is(w, i);
                if i < k {
                    self.lemma_index_of_is(w, i);
                } else {
                    assert(i != k);
                    assert(self.records@[i - 1].validator == w);
                    self.lemma_index_of_is(w, i - 1);
                }
            }
        }
        Ok(())
    }
}

} // verus!
