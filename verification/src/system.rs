//! Lifecycle manager: the one component that touches the trust ledger and
//! the validator roster together, plus the read-only queries.
//!
//! Per-validator state machine: unregistered, active, flagged, removed.
//! `initialize_validator` registers, `update_trust_score` scores a vote and
//! may flag, `cleanup_validators` prunes flagged records, and
//! `get_validators_by_trust` ranks the current population.  Every operation
//! either commits as a whole or fails without observable mutation, and the
//! roster's identity set always equals the ledger's key set.
//!
//! Notifications are appended to an ordered event log.  A validator's
//! removal is announced once, at the moment it is flagged; the later
//! physical removal is silent.  Caller authentication and block-height
//! provisioning are external collaborators, so operations take the already
//! validated caller identity and the logical timestamp as plain values.

use vstd::prelude::*;

verus! {

use crate::ledger::Error;
use crate::ledger::NodeTrustData;
use crate::ledger::TrustLedger;
use crate::ranking::ranked_leq;
use crate::ranking::sort_ranked;
use crate::score::NEUTRAL_SCORE;
use crate::score::REMOVAL_THRESHOLD;
use crate::score::SCALE;
use crate::score::next_score_down;
use crate::score::next_score_up;
use crate::score::spec_next_down;
use crate::score::spec_next_up;
use vstd::multiset::group_multiset_axioms;
use vstd::seq_lib::group_to_multiset_ensures;

broadcast use group_to_multiset_ensures, group_multiset_axioms;

/// Notifications handed to the external event transport, in emission order.
/// Score payloads carry the canonical fixed-point score, never a truncated
/// second representation.
#[derive(Clone, Copy, PartialEq, Eq, Structural, Debug)]
pub enum TrustEvent {
    /// A validator's trust score changed to the carried value.
    TrustScoreUpdated(u64, u64),
    /// A validator entered the trust system.
    ValidatorAdded(u64),
    /// A validator left validation duty: announced when it is flagged.
    ValidatorRemoved(u64),
    /// A matching vote was scored; carries the new score.
    ValidationSuccessful(u64, u64),
    /// A non-matching vote was scored; carries the new score.
    ValidationFailed(u64, u64),
}

/// The trust system: score ledger, validator roster, and the event log.
pub struct Module {
    pub ledger: TrustLedger,
    pub roster: Vec<u64>,
    pub events: Vec<TrustEvent>,
}

/// Saturating counter step: the validation counters never wrap.
pub open spec fn spec_inc(c: u64) -> u64 {
    if c == u64::MAX {
        c
    } else {
        (c + 1) as u64
    }
}

/// The record that an update writes for previous record `rec` (assumed not
/// flagged) under outcome `vote_matched` at logical time `now`.
pub open spec fn updated_record(rec: NodeTrustData, vote_matched: bool, now: u64) -> NodeTrustData {
    if vote_matched {
        NodeTrustData {
            validator: rec.validator,
            trust_score: spec_next_up(rec.trust_score) as u64,
            successful_validations: spec_inc(rec.successful_validations),
            failed_validations: rec.failed_validations,
            last_updated: now,
            flagged_for_removal: false,
        }
    } else {
        NodeTrustData {
            validator: rec.validator,
            trust_score: spec_next_down(rec.trust_score) as u64,
            successful_validations: rec.successful_validations,
            failed_validations: spec_inc(rec.failed_validations),
            last_updated: now,
            flagged_for_removal: spec_next_down(rec.trust_score) < REMOVAL_THRESHOLD,
        }
    }
}

/// The notifications an update emits when it writes `nr` for validator `v`:
/// the flag transition is announced first, then the vote outcome, then the
/// score change.
pub open spec fn update_events(v: u64, nr: NodeTrustData, vote_matched: bool) -> Seq<TrustEvent> {
    if vote_matched {
        seq![
            TrustEvent::ValidationSuccessful(v, nr.trust_score),
            TrustEvent::TrustScoreUpdated(v, nr.trust_score),
        ]
    } else if nr.flagged_for_removal {
        seq![
            TrustEvent::ValidatorRemoved(v),
            TrustEvent::ValidationFailed(v, nr.trust_score),
            TrustEvent::TrustScoreUpdated(v, nr.trust_score),
        ]
    } else {
        seq![
            TrustEvent::ValidationFailed(v, nr.trust_score),
            TrustEvent::TrustScoreUpdated(v, nr.trust_score),
        ]
    }
}

/// What pruning leaves behind: exactly the unflagged records, unchanged,
/// with no new notifications (removal was announced at flag time).
pub open spec fn cleanup_effect(pre: Module, post: Module) -> bool {
    &&& forall|w: u64|
        #![trigger post.ledger.has(w)]
        #![trigger pre.ledger.has(w)]
        post.ledger.has(w) <==> (pre.ledger.has(w)
            && !pre.ledger.record_of(w).flagged_for_removal)
    &&& forall|w: u64|
        post.ledger.has(w) ==> #[trigger] post.ledger.record_of(w) == pre.ledger.record_of(w)
    &&& post.events@ == pre.events@
}

impl Module {
    /// The roster holds each identity at most once.
    pub open spec fn roster_no_dups(self) -> bool {
        forall|i: int, j: int|
            0 <= i < j < self.roster@.len() ==> #[trigger] self.roster@[i] != #[trigger] self.roster@[j]
    }

    /// System invariant: a well-formed ledger, a duplicate-free roster, and
    /// the roster's identity set equal to the ledger's key set.
    pub open spec fn valid(self) -> bool {
        &&& self.ledger.wf()
        &&& self.roster_no_dups()
        &&& forall|v: u64|
            #![trigger self.roster@.contains(v)]
            #![trigger self.ledger.has(v)]
            self.roster@.contains(v) <==> self.ledger.has(v)
    }

    /// Position of `v` in the roster; meaningful when the roster contains
    /// `v` and has no duplicates.
    pub open spec fn roster_index_of(self, v: u64) -> int {
        choose|i: int| 0 <= i < self.roster@.len() && self.roster@[i] == v
    }

    /// With a duplicate-free roster, any position holding `v` is the
    /// position of `v`.
    pub proof fn lemma_roster_index_is(self, v: u64, i: int)
        requires
            self.roster_no_dups(),
            0 <= i < self.roster@.len(),
            self.roster@[i] == v,
        ensures
            self.roster@.contains(v),
            self.roster_index_of(v) == i,
    {
        assert(self.roster@.contains(v));
        let j = self.roster_index_of(v);
        assert(0 <= j < self.roster@.len() && self.roster@[j] == v);
        if i < j {
            assert(self.roster@[i] != self.roster@[j]);
        } else if j < i {
            assert(self.roster@[j] != self.roster@[i]);
        }
    }

    /// An empty trust system.
    pub fn new() -> (m: Module)
        ensures
            m.valid(),
            m.ledger.records@ == Seq::<NodeTrustData>::empty(),
            m.roster@ == Seq::<u64>::empty(),
            m.events@ == Seq::<TrustEvent>::empty(),
    {
        Module { ledger: TrustLedger::new(), roster: Vec::new(), events: Vec::new() }
    }

    /// Registers `validator` with the neutral score, zero counters and no
    /// flag; fails with `AlreadyExists` (and mutates nothing) when the
    /// identity is already tracked.
    pub fn initialize_validator(&mut self, _caller: u64, validator: u64, now: u64) -> (r: Result<
        (),
        Error,
    >)
        requires
            old(self).valid(),
        ensures
            final(self).valid(),
            match r {
                Ok(()) => {
                    &&& !old(self).ledger.has(validator)
                    &&& final(self).ledger.has(validator)
                    &&& final(self).ledger.record_of(validator) == (NodeTrustData {
                        validator,
                        trust_score: NEUTRAL_SCORE,
                        successful_validations: 0,
                        failed_validations: 0,
                        last_updated: now,
                        flagged_for_removal: false,
                    })
                    &&& forall|w: u64|
                        w != validator ==> #[trigger] final(self).ledger.has(w) == old(self).ledger.has(w)
                    &&& forall|w: u64|
                        w != validator && old(self).ledger.has(w) ==> #[trigger] final(self).ledger.record_of(w) == old(self).ledger.record_of(w)
                    &&& final(self).roster@ == old(self).roster@.push(validator)
                    &&& final(self).events@ == old(self).events@.push(
                        TrustEvent::ValidatorAdded(validator),
                    )
                },
                Err(e) => {
                    &&& e == Error::AlreadyExists
                    &&& old(self).ledger.has(validator)
                    &&& *final(self) == *old(self)
                },
            },
    {
        let rec = NodeTrustData {
            validator,
            trust_score: NEUTRAL_SCORE,
            successful_validations: 0,
            failed_validations: 0,
            last_updated: now,
            flagged_for_removal: false,
        };
        let ghost pre = *self;
        match self.ledger.insert(rec) {
            Ok(()) => {
                self.roster.push(validator);
                self.events.push(TrustEvent::ValidatorAdded(validator));
                proof {
                    assert forall|i: int, j: int|
                        0 <= i < j < self.roster@.len() implies #[trigger] self.roster@[i]
                        != #[trigger] self.roster@[j] by {
                        if j < pre.roster@.len() {
                            assert(pre.roster@[i] != pre.roster@[j]);
                        } else {
                            assert(self.roster@[j] == validator);
                            if pre.roster@[i] == validator {
                                assert(pre.roster@.contains(validator));
                            }
                        }
                    }
                    assert forall|v: u64|
                        #![trigger self.roster@.contains(v)]
                        #![trigger self.ledger.has(v)]
                        self.roster@.contains(v) <==> self.ledger.has(v) by {
                        if self.roster@.contains(v) {
                            let i = choose|i: int|
                                0 <= i < self.roster@.len() && self.roster@[i] == v;
                            if i < pre.roster@.len() {
                                assert(pre.roster@.contains(v));
                            }
                        }
                        if self.ledger.has(v) {
                            if v == validator {
                                assert(self.roster@[pre.roster@.len() as int] == v);
                            } else {
                                assert(pre.ledger.has(v));
                                let i = choose|i: int|
                                    0 <= i < pre.roster@.len() && pre.roster@[i] == v;
                                assert(self.roster@[i] == v);
                            }
                        }
                    }
                }
                Ok(())
            },
            Err(e) => Err(e),
        }
    }

    /// The trust score currently recorded for `validator`.
    pub fn get_trust_score(&self, validator: u64) -> (r: Option<u64>)
        requires
            self.valid(),
        ensures
            match r {
                Some(s) => self.ledger.has(validator) && s == self.ledger.record_of(
                    validator,
                ).trust_score,
                None => !self.ledger.has(validator),
            },
    {
        match self.ledger.get(validator) {
            Some(rec) => Some(rec.trust_score),
            None => None,
        }
    }

    /// The whole trust record of `validator`.
    pub fn trust_scores(&self, validator: u64) -> (r: Option<NodeTrustData>)
        requires
            self.valid(),
        ensures
            match r {
                Some(rec) => self.ledger.has(validator) && rec == self.ledger.record_of(validator),
                None => !self.ledger.has(validator),
            },
    {
        match self.ledger.get(validator) {
            Some(rec) => Some(*rec),
            None => None,
        }
    }

    /// Snapshot of the roster, in insertion order.
    pub fn validator_list(&self) -> (r: Vec<u64>)
        ensures
            r@ == self.roster@,
    {
        let mut out: Vec<u64> = Vec::new();
        let mut i: usize = 0;
        while i < self.roster.len()
            invariant
                i <= self.roster@.len(),
                out@ == self.roster@.subrange(0, i as int),
            decreases self.roster@.len() - i,
        {
            out.push(self.roster[i]);
            proof {
                assert(out@ =~= self.roster@.subrange(0, i + 1));
            }
            i = i + 1;
        }
        proof {
            assert(out@ =~= self.roster@);
        }
        out
    }

    /// The notifications emitted so far, oldest first.
    pub fn event_log(&self) -> (r: &Vec<TrustEvent>)
        ensures
            r@ == self.events@,
    {
        &self.events
    }

    /// Scores one consensus vote for `validator`.  On a flagged record the
    /// call is a silent, observable no-op that still reports success; on an
    /// active record it writes `updated_record` and emits `update_events`;
    /// on an unknown identity it fails with `ValidatorNotFound` and mutates
    /// nothing.
    pub fn update_trust_score(
        &mut self,
        _caller: u64,
        validator: u64,
        vote_matched: bool,
        now: u64,
    ) -> (r: Result<(), Error>)
        requires
            old(self).valid(),
        ensures
            final(self).valid(),
            final(self).roster@ == old(self).roster@,
            match r {
                Ok(()) => old(self).ledger.has(validator) && (if old(self).ledger.record_of(
                    validator,
                ).flagged_for_removal {
                    *final(self) == *old(self)
                } else {
                    &&& final(self).ledger.has(validator)
                    &&& final(self).ledger.record_of(validator) == updated_record(
                        old(self).ledger.record_of(validator),
                        vote_matched,
                        now,
                    )
                    &&& forall|w: u64|
                        w != validator ==> #[trigger] final(self).ledger.has(w) == old(self).ledger.has(w)
                    &&& forall|w: u64|
                        w != validator && old(self).ledger.has(w) ==> #[trigger] final(self).ledger.record_of(w) == old(self).ledger.record_of(w)
                    &&& final(self).events@ == old(self).events@ + update_events(
                        validator,
                        updated_record(old(self).ledger.record_of(validator), vote_matched, now),
                        vote_matched,
                    )
                }),
                Err(e) => {
                    &&& e == Error::ValidatorNotFound
                    &&& !old(self).ledger.has(validator)
                    &&& *final(self) == *old(self)
                },
            },
    {
        let prev: NodeTrustData = match self.ledger.get(validator) {
            None => {
                return Err(Error::ValidatorNotFound);
            },
            Some(rec) => *rec,
        };
        if prev.flagged_for_removal {
            return Ok(());
        }
        let nr: NodeTrustData;
        if vote_matched {
            let ns = next_score_up(prev.trust_score);
            let c = if prev.successful_validations == u64::MAX {
                u64::MAX
            } else {
                prev.successful_validations + 1
            };
            nr = NodeTrustData {
                validator,
                trust_score: ns,
                successful_validations: c,
                failed_validations: prev.failed_validations,
                last_updated: now,
                flagged_for_removal: false,
            };
        } else {
            let ns = next_score_down(prev.trust_score);
            let c = if prev.failed_validations == u64::MAX {
                u64::MAX
            } else {
                prev.failed_validations + 1
            };
            nr = NodeTrustData {
                validator,
                trust_score: ns,
                successful_validations: prev.successful_validations,
                failed_validations: c,
                last_updated: now,
                flagged_for_removal: ns < REMOVAL_THRESHOLD,
            };
        }
        proof {
            assert(nr == updated_record(prev, vote_matched, now));
            assert(nr.wf());
        }
        match self.ledger.replace(validator, nr) {
            Ok(()) => {},
            Err(_) => {
                proof {
                    assert(false);
                }
                return Err(Error::ValidatorNotFound);
            },
        }
        if vote_matched {
            self.events.push(TrustEvent::ValidationSuccessful(validator, nr.trust_score));
            self.events.push(TrustEvent::TrustScoreUpdated(validator, nr.trust_score));
        } else {
            if nr.flagged_for_removal {
                self.events.push(TrustEvent::ValidatorRemoved(validator));
            }
            self.events.push(TrustEvent::ValidationFailed(validator, nr.trust_score));
            self.events.push(TrustEvent::TrustScoreUpdated(validator, nr.trust_score));
        }
        proof {
            assert(self.events@ =~= old(self).events@ + update_events(
                validator,
                nr,
                vote_matched,
            ));
            assert forall|v: u64|
                #![trigger self.roster@.contains(v)]
                #![trigger self.ledger.has(v)]
                self.roster@.contains(v) <==> self.ledger.has(v) by {
                assert(self.ledger.has(v) == old(self).ledger.has(v));
            }
        }
        Ok(())
    }

    /// Position of `v` in the roster, if present.
    fn roster_position(&self, v: u64) -> (r: Option<usize>)
        ensures
            match r {
                Some(i) => i < self.roster@.len() && self.roster@[i as int] == v,
                None => !self.roster@.contains(v),
            },
    {
        let mut i: usize = 0;
        while i < self.roster.len()
            invariant
                i <= self.roster@.len(),
                forall|j: int| 0 <= j < i ==> #[trigger] self.roster@[j] != v,
            decreases self.roster@.len() - i,
        {
            if self.roster[i] == v {
                return Some(i);
            }
            i = i + 1;
        }
        proof {
            if self.roster@.contains(v) {
                let j = choose|j: int| 0 <= j < self.roster@.len() && self.roster@[j] == v;
                assert(self.roster@[j] != v);
            }
        }
        None
    }

    /// The single removal operation: if `validator` is tracked and flagged,
    /// its ledger record and roster entry are deleted together; otherwise
    /// the call is a no-op.  Removal is silent here, having been announced
    /// when the validator was flagged.
    pub fn remove_validator(&mut self, validator: u64)
        requires
            old(self).valid(),
        ensures
            final(self).valid(),
            final(self).events@ == old(self).events@,
            (if old(self).ledger.has(validator) && old(self).ledger.record_of(
                validator,
            ).flagged_for_removal {
                &&& !final(self).ledger.has(validator)
                &&& forall|w: u64|
                    w != validator ==> #[trigger] final(self).ledger.has(w) == old(self).ledger.has(w)
                &&& forall|w: u64|
                    w != validator && old(self).ledger.has(w) ==> #[trigger] final(self).ledger.record_of(w) == old(self).ledger.record_of(w)
                &&& final(self).roster@ == old(self).roster@.remove(
                    old(self).roster_index_of(validator),
                )
            } else {
                *final(self) == *old(self)
            }),
    {
        let flagged = match self.ledger.get(validator) {
            Some(rec) => rec.flagged_for_removal,
            None => {
                return ;
            },
        };
        if !flagged {
            return ;
        }
        let pos = match self.roster_position(validator) {
            Some(i) => i,
            None => {
                proof {
                    assert(old(self).roster@.contains(validator));
                    assert(false);
                }
                return ;
            },
        };
        match self.ledger.remove(validator) {
            Ok(()) => {},
            Err(_) => {
                proof {
                    assert(false);
                }
                return ;
            },
        }
        let ghost pre_roster = self.roster@;
        self.roster.remove(pos);
        proof {
            let k = pos as int;
            let n = pre_roster.len() as int;
            old(self).lemma_roster_index_is(validator, k);
            assert forall|i: int| 0 <= i < self.roster@.len() implies #[trigger] self.roster@[i]
                == if i < k {
                pre_roster[i]
            } else {
                pre_roster[i + 1]
            } by {}
            assert forall|i: int, j: int| 0 <= i < j < self.roster@.len() implies (
            #[trigger] self.roster@[i]) != (#[trigger] self.roster@[j]) by {}
            assert forall|v: u64|
                #![trigger self.roster@.contains(v)]
                #![trigger self.ledger.has(v)]
                self.roster@.contains(v) <==> self.ledger.has(v) by {
                if self.roster@.contains(v) {
                    let i = choose|i: int| 0 <= i < self.roster@.len() && self.roster@[i] == v;
                    if v == validator {
                        if i < k {
                            assert(pre_roster[i] == v && pre_roster[k] == v);
                        } else {
                            assert(pre_roster[i + 1] == v && pre_roster[k] == v);
                        }
                    } else {
                        if i < k {
                            assert(pre_roster[i] == v);
                        } else {
                            assert(pre_roster[i + 1] == v);
                        }
                        assert(old(self).roster@.contains(v));
                    }
                }
                if self.ledger.has(v) {
                    assert(v != validator);
                    assert(old(self).ledger.has(v));
                    assert(old(self).roster@.contains(v));
                    let i = choose|i: int| 0 <= i < pre_roster.len() && pre_roster[i] == v;
                    assert(i != k);
                    if i < k {
                        assert(self.roster@[i] == v);
                    } else {
                        assert(self.roster@[i - 1] == v);
                    }
                }
            }
        }
    }

    /// Prunes every flagged validator: their ledger records and roster
    /// entries are deleted atomically, unflagged validators are untouched,
    /// and no further notification is emitted.  The contract pins the
    /// surviving membership and records; the implementation also keeps the
    /// survivors' relative roster order, which carries no semantic weight.
    pub fn cleanup_validators(&mut self, _caller: u64) -> (r: Result<(), Error>)
        requires
            old(self).valid(),
        ensures
            final(self).valid(),
            cleanup_effect(*old(self), *final(self)),
            r == Ok::<(), Error>(()),
    {
        let ids = self.validator_list();
        let mut i: usize = 0;
        while i < ids.len()
            invariant
                i <= ids@.len(),
                ids@ == old(self).roster@,
                self.valid(),
                old(self).valid(),
                self.events@ == old(self).events@,
                forall|w: u64|
                    #![trigger self.ledger.has(w)]
                    self.ledger.has(w) <==> (old(self).ledger.has(w) && !(ids@.subrange(
                        0,
                        i as int,
                    ).contains(w) && old(self).ledger.record_of(w).flagged_for_removal)),
                forall|w: u64|
                    self.ledger.has(w) ==> #[trigger] self.ledger.record_of(w) == old(
                        self,
                    ).ledger.record_of(w),
            decreases ids@.len() - i,
        {
            let v = ids[i];
            let ghost mid = *self;
            self.remove_validator(v);
            proof {
                let sub0 = ids@.subrange(0, i as int);
                let sub1 = ids@.subrange(0, i + 1);
                assert(sub1 =~= sub0.push(v));
                assert forall|w: u64| #[trigger] sub1.contains(w) <==> (sub0.contains(w) || w
                    == v) by {
                    if sub1.contains(w) {
                        let t = choose|t: int| 0 <= t < sub1.len() && sub1[t] == w;
                        if t < sub0.len() {
                            assert(sub0[t] == w);
                        }
                    }
                    if sub0.contains(w) {
                        let t = choose|t: int| 0 <= t < sub0.len() && sub0[t] == w;
                        assert(sub1[t] == w);
                    }
                    if w == v {
                        assert(sub1[sub0.len() as int] == w);
                    }
                }
                assert forall|w: u64| #[trigger] self.ledger.has(w) <==> (old(self).ledger.has(w)
                    && !(sub1.contains(w) && old(self).ledger.record_of(
                    w,
                ).flagged_for_removal)) by {
                    if mid.ledger.has(v) && mid.ledger.record_of(v).flagged_for_removal {
                        if w == v {
                            assert(mid.ledger.record_of(v) == old(self).ledger.record_of(v));
                        } else {
                            assert(self.ledger.has(w) == mid.ledger.has(w));
                        }
                    } else {
                        assert(*self == mid);
                    }
                }
            }
            i = i + 1;
        }
        proof {
            assert(ids@.subrange(0, ids@.len() as int) =~= ids@);
            assert forall|w: u64|
                #![trigger self.ledger.has(w)]
                #![trigger old(self).ledger.has(w)]
                self.ledger.has(w) <==> (old(self).ledger.has(w) && !old(self).ledger.record_of(
                    w,
                ).flagged_for_removal) by {
                if old(self).ledger.has(w) && old(self).ledger.record_of(w).flagged_for_removal {
                    assert(old(self).roster@.contains(w));
                    assert(ids@.contains(w));
                }
            }
        }
        Ok(())
    }

    /// Every tracked validator with its score, ranked by descending score
    /// and, among equal scores, ascending identity.
    pub fn get_validators_by_trust(&self) -> (r: Vec<(u64, u64)>)
        requires
            self.valid(),
        ensures
            r@.len() == self.roster@.len(),
            forall|i: int, j: int|
                0 <= i < j < r@.len() ==> ranked_leq(#[trigger] r@[i], #[trigger] r@[j]),
            forall|i: int|
                0 <= i < r@.len() ==> self.ledger.has(#[trigger] r@[i].0) && r@[i].1
                    == self.ledger.record_of(r@[i].0).trust_score,
            forall|v: u64|
                #[trigger] self.ledger.has(v) ==> r@.contains(
                    (v, self.ledger.record_of(v).trust_score),
                ),
    {
        let mut pairs: Vec<(u64, u64)> = Vec::new();
        let mut i: usize = 0;
        while i < self.roster.len()
            invariant
                self.valid(),
                i <= self.roster@.len(),
                pairs@.len() == i as int,
                forall|j: int|
                    0 <= j < i ==> #[trigger] pairs@[j] == (
                        self.roster@[j],
                        self.ledger.record_of(self.roster@[j]).trust_score,
                    ),
            decreases self.roster@.len() - i,
        {
            let v = self.roster[i];
            proof {
                assert(self.roster@.contains(v));
            }
            let score = match self.ledger.get(v) {
                Some(rec) => rec.trust_score,
                None => {
                    proof {
                        assert(false);
                    }
                    0
                },
            };
            pairs.push((v, score));
            i = i + 1;
        }
        let ghost gpairs = pairs@;
        let sorted = sort_ranked(pairs);
        proof {
            assert forall|k: int| 0 <= k < sorted@.len() implies self.ledger.has(
                #[trigger] sorted@[k].0,
            ) && sorted@[k].1 == self.ledger.record_of(sorted@[k].0).trust_score by {
                let p = sorted@[k];
                assert(sorted@.contains(p));
                assert(sorted@.to_multiset().count(p) > 0);
                assert(gpairs.contains(p));
                let j = choose|j: int| 0 <= j < gpairs.len() && gpairs[j] == p;
                assert(gpairs[j] == (self.roster@[j], self.ledger.record_of(
                    self.roster@[j],
                ).trust_score));
                assert(self.roster@.contains(self.roster@[j]));
            }
            assert forall|v: u64| #[trigger] self.ledger.has(v) implies sorted@.contains(
                (v, self.ledger.record_of(v).trust_score),
            ) by {
                assert(self.roster@.contains(v));
                let j = choose|j: int| 0 <= j < self.roster@.len() && self.roster@[j] == v;
                assert(gpairs[j] == (v, self.ledger.record_of(v).trust_score));
                assert(gpairs.contains(gpairs[j]));
                assert(gpairs.to_multiset().count(gpairs[j]) > 0);
                assert(sorted@.contains(gpairs[j]));
            }
        }
        sorted
    }
}

/// Law: every validator present in the ledger has a trust score within the
/// unit interval, at every observable point.
pub proof fn lemma_scores_bounded(m: Module, v: u64)
    requires
        m.valid(),
        m.ledger.has(v),
    ensures
        0 <= m.ledger.record_of(v).trust_score <= SCALE,
{
    let i = m.ledger.index_of(v);
    assert(0 <= i < m.ledger.records@.len() && m.ledger.records@[i].validator == v);
    assert(m.ledger.records@[i].wf());
}

/// Law: the set of roster identities equals the set of ledger keys, at
/// every observable point.
pub proof fn lemma_roster_matches_ledger(m: Module, v: u64)
    requires
        m.valid(),
    ensures
        m.roster@.contains(v) <==> m.ledger.has(v),
{
}

/// Law: pruning removes a flagged identity from the system, so a later
/// `initialize_validator` on that identity meets its success condition:
/// the identity is reusable after full removal.
pub proof fn lemma_identity_reusable(pre: Module, post: Module, v: u64)
    requires
        cleanup_effect(pre, post),
        pre.ledger.has(v),
        pre.ledger.record_of(v).flagged_for_removal,
    ensures
        !post.ledger.has(v),
{
}

} // verus!
