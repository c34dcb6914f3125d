//! The event/trigger hub: event ingestion and rule-based triggering of job
//! transitions.

use vstd::prelude::*;
use std::collections::HashMap;
use crate::common::{counter_inc, lemma_seq_without, sat_inc, seq_without, vec_without};
use crate::registry::{apply_transition, transition_outcome, JobStatus, JobStore, StoreView};

verus! {

broadcast use vstd::std_specs::hash::group_hash_axioms;

/// Upper bound on an event's payload, in bytes.
pub const MAX_PAYLOAD_LEN: usize = 512;

/// Upper bound on a trigger's condition blob, in bytes.
pub const MAX_CONDITION_LEN: usize = 128;

/// Upper bound on the number of triggers watching one event.
pub const MAX_TRIGGERS_PER_EVENT: usize = 100;

/// Kind of a submitted event.
#[derive(Clone, Copy, Debug, PartialEq, Eq, Structural)]
pub enum EventType {
    /// Raised locally.
    OnChain,
    /// Relayed from another domain.
    CrossChain,
    /// Raised by a timer.
    Timer,
    /// Raised when a watched condition holds.
    Condition,
}

/// What a trigger does when its event is processed.
#[derive(Clone, Copy, Debug, PartialEq, Eq, Structural)]
pub enum TriggerAction {
    /// Request the named job's step to InProgress, with the trigger owner's
    /// authority.
    StartJob(u64),
    /// Hand off to an external messaging collaborator; no state moves here.
    SendExternalMessage,
    /// An extension point; no state moves here.
    Custom,
}

/// One submitted event.
#[derive(Clone, Debug)]
pub struct EventData {
    /// Kind of the event.
    pub event_type: EventType,
    /// Opaque payload, at most [`MAX_PAYLOAD_LEN`] bytes.
    pub payload: Vec<u8>,
    /// Block height at submission.
    pub created_at: u64,
    /// Set once the event is processed; never reset.
    pub processed: bool,
    /// Originating domain, for cross-origin events.
    pub source_para_id: Option<u32>,
}

/// One standing trigger rule.
#[derive(Clone, Debug)]
pub struct TriggerRule {
    /// Account that registered the rule and alone may deactivate it.
    pub owner: u64,
    /// The watched event.
    pub event_id: u64,
    /// What to do when the event is processed.
    pub action: TriggerAction,
    /// Optional condition blob, at most [`MAX_CONDITION_LEN`] bytes;
    /// condition evaluation is an extension point and every condition is
    /// currently taken as satisfied.
    pub condition: Option<Vec<u8>>,
    /// Block height at registration.
    pub created_at: u64,
    /// Cleared by the owner's explicit deactivation; never set again.
    pub active: bool,
}

/// Running event counters.
#[derive(Clone, Copy, Debug, PartialEq, Eq, Structural)]
pub struct EventStats {
    pub total_events_submitted: u64,
    pub total_events_processed: u64,
    pub total_triggers_activated: u64,
    pub total_cross_chain_events: u64,
}

impl Default for EventStats {
    /// All counters start at zero.
    fn default() -> (r: Self)
        ensures
            r.total_events_submitted == 0,
            r.total_events_processed == 0,
            r.total_triggers_activated == 0,
            r.total_cross_chain_events == 0,
    {
        EventStats {
            total_events_submitted: 0,
            total_events_processed: 0,
            total_triggers_activated: 0,
            total_cross_chain_events: 0,
        }
    }
}

/// Why a hub operation was refused.
#[derive(Clone, Copy, Debug, PartialEq, Eq, Structural)]
pub enum Error {
    EventNotFound,
    TriggerNotFound,
    NotAuthorized,
    AlreadyProcessed,
    MaxTriggersReached,
    PayloadTooLarge,
    InvalidAction,
    ConditionNotMet,
    MaxEventsReached,
}

/// Notifications the hub hands to its collaborators, in the order they were
/// raised.
#[derive(Clone, Copy, Debug, PartialEq, Eq, Structural)]
pub enum Event {
    EventSubmitted { event_id: u64, event_type: EventType },
    TriggerRegistered { trigger_id: u64, event_id: u64, owner: u64 },
    TriggerActivated { trigger_id: u64, event_id: u64 },
    EventProcessed { event_id: u64 },
    CrossChainEventReceived { event_id: u64, source_para_id: u32 },
    TriggerDeactivated { trigger_id: u64 },
    JobTriggered { job_id: u64, event_id: u64 },
}

/// The hub's state as contracts see it.
#[verifier::ext_equal]
pub ghost struct HubView {
    pub next_event_id: u64,
    pub next_trigger_id: u64,
    pub events: Map<u64, EventData>,
    pub triggers: Map<u64, TriggerRule>,
    pub account_triggers: Map<u64, Vec<u64>>,
    pub event_triggers: Map<u64, Vec<u64>>,
    pub pending: Seq<u64>,
    pub stats: EventStats,
    pub deposited: Seq<Event>,
    pub max_events: usize,
    pub max_triggers_per_account: usize,
}

/// The trigger ids watching `event_id`; unwatched events have none.
pub open spec fn event_trigger_list(h: HubView, event_id: u64) -> Seq<u64> {
    if h.event_triggers.contains_key(event_id) {
        h.event_triggers[event_id]@
    } else {
        Seq::empty()
    }
}

/// The trigger ids registered for `a`; absent accounts hold nothing.
pub open spec fn account_trigger_seq(h: HubView, a: u64) -> Seq<u64> {
    if h.account_triggers.contains_key(a) {
        h.account_triggers[a]@
    } else {
        Seq::empty()
    }
}

/// The hub's consistency model: ids stay below their counters, the pending
/// queue lists exactly unprocessed stored events without duplicates, and the
/// per-event and per-account trigger indexes list stored triggers bound to
/// that event or account.
pub open spec fn hub_inv(h: HubView) -> bool {
    &&& forall|id: u64| #[trigger] h.events.contains_key(id) ==> id < h.next_event_id
    &&& forall|id: u64| #[trigger] h.triggers.contains_key(id) ==> id < h.next_trigger_id
    &&& h.pending.no_duplicates()
    &&& forall|i: int|
        0 <= i < h.pending.len() ==> h.events.contains_key(#[trigger] h.pending[i])
            && !h.events[h.pending[i]].processed
    &&& forall|eid: u64| #[trigger] h.event_triggers.contains_key(eid) ==> {
        let l = h.event_triggers[eid]@;
        &&& forall|i: int|
            0 <= i < l.len() ==> h.triggers.contains_key(#[trigger] l[i])
                && h.triggers[l[i]].event_id == eid
        &&& l.no_duplicates()
    }
    &&& forall|a: u64| #[trigger] h.account_triggers.contains_key(a) ==> {
        let l = h.account_triggers[a]@;
        &&& forall|i: int|
            0 <= i < l.len() ==> h.triggers.contains_key(#[trigger] l[i])
                && h.triggers[l[i]].owner == a
        &&& l.no_duplicates()
    }
    &&& forall|tid: u64| #[trigger] h.triggers.contains_key(tid) ==> event_trigger_list(
        h,
        h.triggers[tid].event_id,
    ).contains(tid) && account_trigger_seq(h, h.triggers[tid].owner).contains(tid)
}

/// Store effect of firing one trigger: a start-job action requests the
/// target's step to InProgress with the trigger owner's authority — carried
/// out exactly when that owner owns a stored Pending job — while the other
/// actions are hand-off points that move no state here.
pub open spec fn fire_store(s: StoreView, action: TriggerAction, owner: u64, now: u64) -> StoreView {
    match action {
        TriggerAction::StartJob(job_id) => {
            if transition_outcome(s, owner, job_id, JobStatus::InProgress) is None {
                apply_transition(s, job_id, JobStatus::InProgress, now)
            } else {
                s
            }
        },
        TriggerAction::SendExternalMessage => s,
        TriggerAction::Custom => s,
    }
}

/// Notifications raised by firing one trigger against store state `s`: a
/// job-triggered notice when a start-job action names a stored job, then the
/// activation notice.
pub open spec fn fire_notes(s: StoreView, tid: u64, action: TriggerAction, event_id: u64) -> Seq<
    Event,
> {
    let head = match action {
        TriggerAction::StartJob(job_id) => {
            if s.jobs.contains_key(job_id) {
                seq![Event::JobTriggered { job_id, event_id }]
            } else {
                Seq::empty()
            }
        },
        TriggerAction::SendExternalMessage => Seq::empty(),
        TriggerAction::Custom => Seq::empty(),
    };
    head.push(Event::TriggerActivated { trigger_id: tid, event_id })
}

/// Fires the listed triggers in order against the store, the activation
/// counter, and the notification log: each listed id that names an active
/// trigger fires exactly once; inactive or unknown ids are skipped.
pub open spec fn fire_all(
    triggers: Map<u64, TriggerRule>,
    ids: Seq<u64>,
    event_id: u64,
    s: StoreView,
    activated: u64,
    notes: Seq<Event>,
    now: u64,
) -> (StoreView, u64, Seq<Event>)
    decreases ids.len(),
{
    if ids.len() == 0 {
        (s, activated, notes)
    } else {
        let tid = ids[0];
        if triggers.contains_key(tid) && triggers[tid].active {
            let t = triggers[tid];
            fire_all(
                triggers,
                ids.drop_first(),
                event_id,
                fire_store(s, t.action, t.owner, now),
                sat_inc(activated),
                notes + fire_notes(s, tid, t.action, event_id),
                now,
            )
        } else {
            fire_all(triggers, ids.drop_first(), event_id, s, activated, notes, now)
        }
    }
}

/// Why a processing request is refused: the event must exist and not be
/// processed yet.
pub open spec fn process_outcome(h: HubView, event_id: u64) -> Option<Error> {
    if !h.events.contains_key(event_id) {
        Some(Error::EventNotFound)
    } else if h.events[event_id].processed {
        Some(Error::AlreadyProcessed)
    } else {
        None
    }
}

/// The hub and the store after an event is processed: every active trigger
/// bound to the event fires exactly once, in list order; the event is marked
/// processed and leaves the pending queue in the same step; the processed
/// counter steps.
pub open spec fn process_event_model(h: HubView, s: StoreView, event_id: u64, now: u64) -> (
    HubView,
    StoreView,
)
    recommends
        process_outcome(h, event_id) is None,
{
    let fired = fire_all(
        h.triggers,
        event_trigger_list(h, event_id),
        event_id,
        s,
        h.stats.total_triggers_activated,
        h.deposited,
        now,
    );
    let h2 = HubView {
        events: h.events.insert(
            event_id,
            EventData { processed: true, ..h.events[event_id] },
        ),
        pending: seq_without(h.pending, event_id),
        stats: EventStats {
            total_triggers_activated: fired.1,
            total_events_processed: sat_inc(h.stats.total_events_processed),
            ..h.stats
        },
        deposited: fired.2.push(Event::EventProcessed { event_id }),
        ..h
    };
    (h2, fired.0)
}


/// Why an event submission is refused: the payload must fit its bound and
/// the pending queue must have room.
pub open spec fn submit_event_outcome(h: HubView, payload_len: nat) -> Option<Error> {
    if payload_len > MAX_PAYLOAD_LEN {
        Some(Error::PayloadTooLarge)
    } else if h.pending.len() >= h.max_events {
        Some(Error::MaxEventsReached)
    } else {
        None
    }
}

/// Why a trigger registration is refused: the condition must fit its bound,
/// and neither the owner's trigger count nor the event's trigger list may be
/// at its cap.
pub open spec fn register_outcome(
    h: HubView,
    owner: u64,
    event_id: u64,
    condition: Option<Vec<u8>>,
) -> Option<Error> {
    if condition matches Some(c) && c@.len() > MAX_CONDITION_LEN {
        Some(Error::PayloadTooLarge)
    } else if account_trigger_seq(h, owner).len() >= h.max_triggers_per_account {
        Some(Error::MaxTriggersReached)
    } else if event_trigger_list(h, event_id).len() >= MAX_TRIGGERS_PER_EVENT {
        Some(Error::MaxTriggersReached)
    } else {
        None
    }
}

/// Events, trigger rules, and the pending-event queue.
pub struct EventTriggerHub {
    next_event_id: u64,
    next_trigger_id: u64,
    events: HashMap<u64, EventData>,
    triggers: HashMap<u64, TriggerRule>,
    account_triggers: HashMap<u64, Vec<u64>>,
    event_triggers: HashMap<u64, Vec<u64>>,
    pending_events: Vec<u64>,
    stats: EventStats,
    deposited: Vec<Event>,
    max_events: usize,
    max_triggers_per_account: usize,
}

impl View for EventTriggerHub {
    type V = HubView;

    closed spec fn view(&self) -> HubView {
        HubView {
            next_event_id: self.next_event_id,
            next_trigger_id: self.next_trigger_id,
            events: self.events@,
            triggers: self.triggers@,
            account_triggers: self.account_triggers@,
            event_triggers: self.event_triggers@,
            pending: self.pending_events@,
            stats: self.stats,
            deposited: self.deposited@,
            max_events: self.max_events,
            max_triggers_per_account: self.max_triggers_per_account,
        }
    }
}

impl EventTriggerHub {
    /// The hub is consistent; every operation takes and returns a hub in
    /// this state.
    pub open spec fn wf(&self) -> bool {
        hub_inv(self@)
    }

    /// An empty hub with the given pending-queue and per-account caps.
    pub fn new(max_events: usize, max_triggers_per_account: usize) -> (r: EventTriggerHub)
        ensures
            r.wf(),
            r@.next_event_id == 0,
            r@.next_trigger_id == 0,
            r@.events == Map::<u64, EventData>::empty(),
            r@.triggers == Map::<u64, TriggerRule>::empty(),
            r@.account_triggers == Map::<u64, Vec<u64>>::empty(),
            r@.event_triggers == Map::<u64, Vec<u64>>::empty(),
            r@.pending == Seq::<u64>::empty(),
            r@.stats == (EventStats {
                total_events_submitted: 0,
                total_events_processed: 0,
                total_triggers_activated: 0,
                total_cross_chain_events: 0,
            }),
            r@.deposited == Seq::<Event>::empty(),
            r@.max_events == max_events,
            r@.max_triggers_per_account == max_triggers_per_account,
    {
        EventTriggerHub {
            next_event_id: 0,
            next_trigger_id: 0,
            events: HashMap::new(),
            triggers: HashMap::new(),
            account_triggers: HashMap::new(),
            event_triggers: HashMap::new(),
            pending_events: Vec::new(),
            stats: EventStats {
                total_events_submitted: 0,
                total_events_processed: 0,
                total_triggers_activated: 0,
                total_cross_chain_events: 0,
            },
            deposited: Vec::new(),
            max_events,
            max_triggers_per_account,
        }
    }

    /// Accepts an event into the store and the pending queue together,
    /// returning its fresh id; the cross-origin counter steps for
    /// cross-chain events, and a cross-origin notice is raised whenever an
    /// originating domain is given. Ids count up and are never reused, so
    /// the id space must not be exhausted.
    pub fn submit_event(
        &mut self,
        submitter: u64,
        event_type: EventType,
        payload: Vec<u8>,
        source_para_id: Option<u32>,
        now: u64,
    ) -> (r: Result<u64, Error>)
        requires
            old(self).wf(),
            old(self)@.next_event_id < u64::MAX,
        ensures
            final(self).wf(),
            match r {
                Ok(event_id) => {
                    let h0 = old(self)@;
                    let h1 = final(self)@;
                    &&& submit_event_outcome(h0, payload@.len()) is None
                    &&& event_id == h0.next_event_id
                    &&& h1.next_event_id == h0.next_event_id + 1
                    &&& h1.events == h0.events.insert(
                        event_id,
                        EventData {
                            event_type,
                            payload,
                            created_at: now,
                            processed: false,
                            source_para_id,
                        },
                    )
                    &&& h1.pending == h0.pending.push(event_id)
                    &&& h1.stats == (EventStats {
                        total_events_submitted: sat_inc(h0.stats.total_events_submitted),
                        total_cross_chain_events: if event_type is CrossChain {
                            sat_inc(h0.stats.total_cross_chain_events)
                        } else {
                            h0.stats.total_cross_chain_events
                        },
                        ..h0.stats
                    })
                    &&& h1.deposited == (match source_para_id {
                        Some(p) => h0.deposited.push(
                            Event::EventSubmitted { event_id, event_type },
                        ).push(Event::CrossChainEventReceived { event_id, source_para_id: p }),
                        None => h0.deposited.push(Event::EventSubmitted { event_id, event_type }),
                    })
                    &&& h1.triggers == h0.triggers
                    &&& h1.account_triggers == h0.account_triggers
                    &&& h1.event_triggers == h0.event_triggers
                    &&& h1.next_trigger_id == h0.next_trigger_id
                    &&& h1.max_events == h0.max_events
                    &&& h1.max_triggers_per_account == h0.max_triggers_per_account
                },
                Err(e) => submit_event_outcome(old(self)@, payload@.len()) == Some(e)
                    && final(self)@ == old(self)@,
            },
    {
        let _ = submitter;
        let ghost h0 = self@;
        if payload.len() > MAX_PAYLOAD_LEN {
            return Err(Error::PayloadTooLarge);
        }
        if self.pending_events.len() >= self.max_events {
            return Err(Error::MaxEventsReached);
        }
        let event_id = self.next_event_id;
        self.next_event_id = event_id + 1;
        self.events.insert(
            event_id,
            EventData { event_type, payload, created_at: now, processed: false, source_para_id },
        );
        self.pending_events.push(event_id);
        self.stats.total_events_submitted = counter_inc(self.stats.total_events_submitted);
        if matches!(event_type, EventType::CrossChain) {
            self.stats.total_cross_chain_events = counter_inc(self.stats.total_cross_chain_events);
        }
        self.deposited.push(Event::EventSubmitted { event_id, event_type });
        if let Some(para_id) = source_para_id {
            self.deposited.push(
                Event::CrossChainEventReceived { event_id, source_para_id: para_id },
            );
        }
        proof {
            let h1 = self@;
            assert(!h0.events.contains_key(event_id));
            assert(!h0.pending.contains(event_id)) by {
                if h0.pending.contains(event_id) {
                    let i = choose|i: int| 0 <= i < h0.pending.len() && h0.pending[i] == event_id;
                    assert(h0.events.contains_key(h0.pending[i]));
                }
            }
            crate::common::lemma_push_no_dup(h0.pending, event_id);
            assert forall|i: int| 0 <= i < h1.pending.len() implies h1.events.contains_key(
                #[trigger] h1.pending[i],
            ) && !h1.events[h1.pending[i]].processed by {
                if i < h1.pending.len() - 1 {
                    assert(h1.pending[i] == h0.pending[i]);
                    assert(h0.events.contains_key(h0.pending[i]));
                }
            }
            assert forall|tid: u64| #[trigger] h1.triggers.contains_key(tid) implies
                event_trigger_list(h1, h1.triggers[tid].event_id).contains(tid)
                && account_trigger_seq(h1, h1.triggers[tid].owner).contains(tid) by {
                assert(event_trigger_list(h0, h0.triggers[tid].event_id).contains(tid));
                assert(account_trigger_seq(h0, h0.triggers[tid].owner).contains(tid));
            }
        }
        Ok(event_id)
    }

    /// Registers an active trigger for `owner` watching `event_id`,
    /// returning its fresh id; the rule lands in the owner's and the event's
    /// trigger indexes in the same step. The watched event need not exist
    /// yet, and the id space must not be exhausted.
    pub fn register_trigger(
        &mut self,
        owner: u64,
        event_id: u64,
        action: TriggerAction,
        condition: Option<Vec<u8>>,
        now: u64,
    ) -> (r: Result<u64, Error>)
        requires
            old(self).wf(),
            old(self)@.next_trigger_id < u64::MAX,
        ensures
            final(self).wf(),
            match r {
                Ok(trigger_id) => {
                    let h0 = old(self)@;
                    let h1 = final(self)@;
                    &&& register_outcome(h0, owner, event_id, condition) is None
                    &&& trigger_id == h0.next_trigger_id
                    &&& h1.next_trigger_id == h0.next_trigger_id + 1
                    &&& h1.triggers == h0.triggers.insert(
                        trigger_id,
                        TriggerRule {
                            owner,
                            event_id,
                            action,
                            condition,
                            created_at: now,
                            active: true,
                        },
                    )
                    &&& account_trigger_seq(h1, owner) == account_trigger_seq(h0, owner).push(
                        trigger_id,
                    )
                    &&& forall|a: u64|
                        a != owner ==> account_trigger_seq(h1, a) == account_trigger_seq(h0, a)
                    &&& event_trigger_list(h1, event_id) == event_trigger_list(h0, event_id).push(
                        trigger_id,
                    )
                    &&& forall|eid: u64|
                        eid != event_id ==> event_trigger_list(h1, eid) == event_trigger_list(
                            h0,
                            eid,
                        )
                    &&& h1.deposited == h0.deposited.push(
                        Event::TriggerRegistered { trigger_id, event_id, owner },
                    )
                    &&& h1.events == h0.events
                    &&& h1.pending == h0.pending
                    &&& h1.stats == h0.stats
                    &&& h1.next_event_id == h0.next_event_id
                    &&& h1.max_events == h0.max_events
                    &&& h1.max_triggers_per_account == h0.max_triggers_per_account
                },
                Err(e) => register_outcome(old(self)@, owner, event_id, condition) == Some(e)
                    && final(self)@ == old(self)@,
            },
    {
        let ghost h0 = self@;
        if let Some(ref c) = condition {
            if c.len() > MAX_CONDITION_LEN {
                return Err(Error::PayloadTooLarge);
            }
        }
        let owned_count: usize = match self.account_triggers.get(&owner) {
            Some(l) => l.len(),
            None => 0,
        };
        if owned_count >= self.max_triggers_per_account {
            return Err(Error::MaxTriggersReached);
        }
        let watching_count: usize = match self.event_triggers.get(&event_id) {
            Some(l) => l.len(),
            None => 0,
        };
        if watching_count >= MAX_TRIGGERS_PER_EVENT {
            return Err(Error::MaxTriggersReached);
        }
        let trigger_id = self.next_trigger_id;
        self.next_trigger_id = trigger_id + 1;
        self.triggers.insert(
            trigger_id,
            TriggerRule { owner, event_id, action, condition, created_at: now, active: true },
        );
        let mut owner_list: Vec<u64> = match self.account_triggers.get(&owner) {
            Some(l) => l.clone(),
            None => Vec::new(),
        };
        proof {
            assert(owner_list@ =~= account_trigger_seq(h0, owner));
        }
        owner_list.push(trigger_id);
        self.account_triggers.insert(owner, owner_list);
        let mut watch_list: Vec<u64> = match self.event_triggers.get(&event_id) {
            Some(l) => l.clone(),
            None => Vec::new(),
        };
        proof {
            assert(watch_list@ =~= event_trigger_list(h0, event_id));
        }
        watch_list.push(trigger_id);
        self.event_triggers.insert(event_id, watch_list);
        self.deposited.push(Event::TriggerRegistered { trigger_id, event_id, owner });
        proof {
            let h1 = self@;
            assert(!h0.triggers.contains_key(trigger_id));
            assert(account_trigger_seq(h1, owner) == account_trigger_seq(h0, owner).push(
                trigger_id,
            ));
            assert(event_trigger_list(h1, event_id) == event_trigger_list(h0, event_id).push(
                trigger_id,
            ));
            assert forall|i: int| 0 <= i < h1.pending.len() implies h1.events.contains_key(
                #[trigger] h1.pending[i],
            ) && !h1.events[h1.pending[i]].processed by {
                assert(h0.events.contains_key(h0.pending[i]));
            }
            assert forall|eid: u64| #[trigger] h1.event_triggers.contains_key(eid) implies ({
                let l = h1.event_triggers[eid]@;
                &&& forall|i: int|
                    0 <= i < l.len() ==> h1.triggers.contains_key(#[trigger] l[i])
                        && h1.triggers[l[i]].event_id == eid
                &&& l.no_duplicates()
            }) by {
                let l = h1.event_triggers[eid]@;
                if eid == event_id {
                    let l0 = event_trigger_list(h0, event_id);
                    assert(l == l0.push(trigger_id));
                    assert forall|i: int| 0 <= i < l.len() implies h1.triggers.contains_key(
                        #[trigger] l[i],
                    ) && h1.triggers[l[i]].event_id == eid by {
                        if i < l.len() - 1 {
                            assert(l[i] == l0[i]);
                            assert(h0.triggers.contains_key(l0[i]));
                        }
                    }
                    assert(forall|i: int|
                        0 <= i < l0.len() ==> h0.triggers.contains_key(#[trigger] l0[i]));
                    assert(!l0.contains(trigger_id));
                    crate::common::lemma_push_no_dup(l0, trigger_id);
                } else {
                    assert(h0.event_triggers.contains_key(eid));
                    assert(l == h0.event_triggers[eid]@);
                    assert(forall|i: int|
                        0 <= i < l.len() ==> h0.triggers.contains_key(#[trigger] l[i])
                            && h0.triggers[l[i]].event_id == eid);
                }
            }
            assert forall|a: u64| #[trigger] h1.account_triggers.contains_key(a) implies ({
                let l = h1.account_triggers[a]@;
                &&& forall|i: int|
                    0 <= i < l.len() ==> h1.triggers.contains_key(#[trigger] l[i])
                        && h1.triggers[l[i]].owner == a
                &&& l.no_duplicates()
            }) by {
                let l = h1.account_triggers[a]@;
                if a == owner {
                    let l0 = account_trigger_seq(h0, owner);
                    assert(l == l0.push(trigger_id));
                    assert forall|i: int| 0 <= i < l.len() implies h1.triggers.contains_key(
                        #[trigger] l[i],
                    ) && h1.triggers[l[i]].owner == a by {
                        if i < l.len() - 1 {
                            assert(l[i] == l0[i]);
                            assert(h0.triggers.contains_key(l0[i]));
                        }
                    }
                    assert(forall|i: int|
                        0 <= i < l0.len() ==> h0.triggers.contains_key(#[trigger] l0[i]));
                    assert(!l0.contains(trigger_id));
                    crate::common::lemma_push_no_dup(l0, trigger_id);
                } else {
                    assert(h0.account_triggers.contains_key(a));
                    assert(l == h0.account_triggers[a]@);
                    assert(forall|i: int|
                        0 <= i < l.len() ==> h0.triggers.contains_key(#[trigger] l[i])
                            && h0.triggers[l[i]].owner == a);
                }
            }
            assert forall|tid: u64| #[trigger] h1.triggers.contains_key(tid) implies
                event_trigger_list(h1, h1.triggers[tid].event_id).contains(tid)
                && account_trigger_seq(h1, h1.triggers[tid].owner).contains(tid) by {
                broadcast use crate::common::lemma_push_contains;

                if tid == trigger_id {
                    assert(event_trigger_list(h1, event_id).contains(trigger_id));
                    assert(account_trigger_seq(h1, owner).contains(trigger_id));
                } else {
                    assert(h0.triggers.contains_key(tid));
                    let te = h0.triggers[tid].event_id;
                    let ta = h0.triggers[tid].owner;
                    assert(event_trigger_list(h0, te).contains(tid));
                    assert(account_trigger_seq(h0, ta).contains(tid));
                    if te == event_id {
                        assert(event_trigger_list(h1, te).contains(tid));
                    } else {
                        assert(event_trigger_list(h1, te) == event_trigger_list(h0, te));
                    }
                    if ta == owner {
                        assert(account_trigger_seq(h1, ta).contains(tid));
                    } else {
                        assert(account_trigger_seq(h1, ta) == account_trigger_seq(h0, ta));
                    }
                }
            }
        }
        Ok(trigger_id)
    }

    /// Deactivates a trigger on behalf of its owner; the rule is retained
    /// and skipped by future processing.
    pub fn deactivate_trigger(&mut self, caller: u64, trigger_id: u64) -> (r: Result<(), Error>)
        requires
            old(self).wf(),
        ensures
            final(self).wf(),
            match r {
                Ok(()) => {
                    let h0 = old(self)@;
                    let h1 = final(self)@;
                    &&& h0.triggers.contains_key(trigger_id)
                    &&& h0.triggers[trigger_id].owner == caller
                    &&& h1.triggers == h0.triggers.insert(
                        trigger_id,
                        TriggerRule { active: false, ..h0.triggers[trigger_id] },
                    )
                    &&& h1.deposited == h0.deposited.push(
                        Event::TriggerDeactivated { trigger_id },
                    )
                    &&& h1.events == h0.events
                    &&& h1.account_triggers == h0.account_triggers
                    &&& h1.event_triggers == h0.event_triggers
                    &&& h1.pending == h0.pending
                    &&& h1.stats == h0.stats
                    &&& h1.next_event_id == h0.next_event_id
                    &&& h1.next_trigger_id == h0.next_trigger_id
                    &&& h1.max_events == h0.max_events
                    &&& h1.max_triggers_per_account == h0.max_triggers_per_account
                },
                Err(e) => {
                    &&& (if !old(self)@.triggers.contains_key(trigger_id) {
                        e == Error::TriggerNotFound
                    } else {
                        old(self)@.triggers[trigger_id].owner != caller
                            && e == Error::NotAuthorized
                    })
                    &&& final(self)@ == old(self)@
                },
            },
    {
        let ghost h0 = self@;
        let owner = match self.triggers.get(&trigger_id) {
            None => {
                return Err(Error::TriggerNotFound);
            },
            Some(t) => t.owner,
        };
        if owner != caller {
            return Err(Error::NotAuthorized);
        }
        let mut t = match self.triggers.remove(&trigger_id) {
            None => {
                proof {
                    assert(false);
                }
                return Err(Error::TriggerNotFound);
            },
            Some(t) => t,
        };
        t.active = false;
        self.triggers.insert(trigger_id, t);
        self.deposited.push(Event::TriggerDeactivated { trigger_id });
        proof {
            let h1 = self@;
            assert(h1.triggers =~= h0.triggers.insert(
                trigger_id,
                TriggerRule { active: false, ..h0.triggers[trigger_id] },
            ));
            assert forall|i: int| 0 <= i < h1.pending.len() implies h1.events.contains_key(
                #[trigger] h1.pending[i],
            ) && !h1.events[h1.pending[i]].processed by {
                assert(h0.events.contains_key(h0.pending[i]));
            }
            assert forall|eid: u64| #[trigger] h1.event_triggers.contains_key(eid) implies ({
                let l = h1.event_triggers[eid]@;
                &&& forall|i: int|
                    0 <= i < l.len() ==> h1.triggers.contains_key(#[trigger] l[i])
                        && h1.triggers[l[i]].event_id == eid
                &&& l.no_duplicates()
            }) by {
                let l = h1.event_triggers[eid]@;
                assert(h0.event_triggers.contains_key(eid));
                assert forall|i: int| 0 <= i < l.len() implies h1.triggers.contains_key(
                    #[trigger] l[i],
                ) && h1.triggers[l[i]].event_id == eid by {
                    assert(h0.triggers.contains_key(l[i]) && h0.triggers[l[i]].event_id == eid);
                }
            }
            assert forall|a: u64| #[trigger] h1.account_triggers.contains_key(a) implies ({
                let l = h1.account_triggers[a]@;
                &&& forall|i: int|
                    0 <= i < l.len() ==> h1.triggers.contains_key(#[trigger] l[i])
                        && h1.triggers[l[i]].owner == a
                &&& l.no_duplicates()
            }) by {
                let l = h1.account_triggers[a]@;
                assert(h0.account_triggers.contains_key(a));
                assert forall|i: int| 0 <= i < l.len() implies h1.triggers.contains_key(
                    #[trigger] l[i],
                ) && h1.triggers[l[i]].owner == a by {
                    assert(h0.triggers.contains_key(l[i]) && h0.triggers[l[i]].owner == a);
                }
            }
            assert forall|tid: u64| #[trigger] h1.triggers.contains_key(tid) implies
                event_trigger_list(h1, h1.triggers[tid].event_id).contains(tid)
                && account_trigger_seq(h1, h1.triggers[tid].owner).contains(tid) by {
                assert(h0.triggers.contains_key(tid));
                assert(h1.triggers[tid].event_id == h0.triggers[tid].event_id);
                assert(h1.triggers[tid].owner == h0.triggers[tid].owner);
                assert(event_trigger_list(h0, h0.triggers[tid].event_id).contains(tid));
                assert(account_trigger_seq(h0, h0.triggers[tid].owner).contains(tid));
            }
        }
        Ok(())
    }
}


impl EventTriggerHub {
    /// Fires one active trigger: runs its action — conditions are an
    /// extension point and currently always count as satisfied — then counts
    /// and reports the activation. A start-job action asks the store for the
    /// step to InProgress with the trigger owner's authority; a refused step
    /// is ignored.
    fn activate_trigger(
        &mut self,
        trigger_id: u64,
        event_id: u64,
        action: TriggerAction,
        owner: u64,
        store: &mut JobStore,
        now: u64,
    )
        requires
            old(store).wf(),
        ensures
            final(store).wf(),
            final(store)@ == fire_store(old(store)@, action, owner, now),
            final(self)@ == (HubView {
                stats: EventStats {
                    total_triggers_activated: sat_inc(old(self)@.stats.total_triggers_activated),
                    ..old(self)@.stats
                },
                deposited: old(self)@.deposited + fire_notes(
                    old(store)@,
                    trigger_id,
                    action,
                    event_id,
                ),
                ..old(self)@
            }),
    {
        let ghost h0 = self@;
        let ghost s0 = store@;
        match action {
            TriggerAction::StartJob(job_id) => {
                if store.jobs(job_id).is_some() {
                    let _ = store.update_job_status(owner, job_id, JobStatus::InProgress, now);
                    self.deposited.push(Event::JobTriggered { job_id, event_id });
                }
            },
            TriggerAction::SendExternalMessage => {},
            TriggerAction::Custom => {},
        }
        self.stats.total_triggers_activated = counter_inc(self.stats.total_triggers_activated);
        self.deposited.push(Event::TriggerActivated { trigger_id, event_id });
        proof {
            assert(self@.deposited =~= h0.deposited + fire_notes(s0, trigger_id, action, event_id));
            assert(self@ =~~= (HubView {
                stats: EventStats {
                    total_triggers_activated: sat_inc(h0.stats.total_triggers_activated),
                    ..h0.stats
                },
                deposited: h0.deposited + fire_notes(s0, trigger_id, action, event_id),
                ..h0
            }));
        }
    }

    /// Processes one event: fires every active trigger bound to it exactly
    /// once, in registration order, marks the event processed, and removes
    /// it from the pending queue — all in one step. A second call on the
    /// same event is refused with no state change.
    fn process_event_internal(&mut self, event_id: u64, store: &mut JobStore, now: u64) -> (r:
        Result<(), Error>)
        requires
            old(self).wf(),
            old(store).wf(),
        ensures
            final(self).wf(),
            final(store).wf(),
            match r {
                Ok(()) => {
                    let m = process_event_model(old(self)@, old(store)@, event_id, now);
                    &&& process_outcome(old(self)@, event_id) is None
                    &&& final(self)@ == m.0
                    &&& final(store)@ == m.1
                },
                Err(e) => process_outcome(old(self)@, event_id) == Some(e) && final(self)@ == old(
                    self,
                )@ && final(store)@ == old(store)@,
            },
    {
        let ghost h0 = self@;
        let ghost s0 = store@;
        let processed = match self.events.get(&event_id) {
            None => {
                return Err(Error::EventNotFound);
            },
            Some(ev) => ev.processed,
        };
        if processed {
            return Err(Error::AlreadyProcessed);
        }
        let trigger_ids: Vec<u64> = match self.event_triggers.get(&event_id) {
            Some(l) => {
                let c = l.clone();
                proof {
                    assert(c@ =~= event_trigger_list(h0, event_id));
                }
                c
            },
            None => {
                let c = Vec::new();
                proof {
                    assert(c@ =~= event_trigger_list(h0, event_id));
                }
                c
            },
        };
        let ghost tlist = trigger_ids@;
        proof {
            assert(tlist.skip(0) =~= tlist);
        }
        let mut i: usize = 0;
        while i < trigger_ids.len()
            invariant
                i <= trigger_ids.len(),
                trigger_ids@ == tlist,
                store.wf(),
                self@.next_event_id == h0.next_event_id,
                self@.next_trigger_id == h0.next_trigger_id,
                self@.events == h0.events,
                self@.triggers == h0.triggers,
                self@.account_triggers == h0.account_triggers,
                self@.event_triggers == h0.event_triggers,
                self@.pending == h0.pending,
                self@.max_events == h0.max_events,
                self@.max_triggers_per_account == h0.max_triggers_per_account,
                self@.stats.total_events_submitted == h0.stats.total_events_submitted,
                self@.stats.total_events_processed == h0.stats.total_events_processed,
                self@.stats.total_cross_chain_events == h0.stats.total_cross_chain_events,
                fire_all(
                    h0.triggers,
                    tlist,
                    event_id,
                    s0,
                    h0.stats.total_triggers_activated,
                    h0.deposited,
                    now,
                ) == fire_all(
                    h0.triggers,
                    tlist.skip(i as int),
                    event_id,
                    store@,
                    self@.stats.total_triggers_activated,
                    self@.deposited,
                    now,
                ),
            decreases trigger_ids.len() - i,
        {
            let tid = trigger_ids[i];
            let ghost s_i = store@;
            let ghost dep_i = self@.deposited;
            let ghost act_i = self@.stats.total_triggers_activated;
            proof {
                let tail = tlist.skip(i as int);
                assert(tail[0] == tid);
                assert(tail.drop_first() =~= tlist.skip(i + 1));
            }
            let info: Option<(TriggerAction, u64)> = match self.triggers.get(&tid) {
                Some(t) => {
                    if t.active {
                        Some((t.action, t.owner))
                    } else {
                        None
                    }
                },
                None => None,
            };
            match info {
                Some((action, trigger_owner)) => {
                    self.activate_trigger(tid, event_id, action, trigger_owner, store, now);
                    proof {
                        let t = h0.triggers[tid];
                        assert(store@ == fire_store(s_i, t.action, t.owner, now));
                        assert(self@.deposited == dep_i + fire_notes(s_i, tid, t.action, event_id));
                        assert(self@.stats.total_triggers_activated == sat_inc(act_i));
                    }
                },
                None => {},
            }
            i += 1;
        }
        proof {
            assert(tlist.skip(tlist.len() as int) =~= Seq::<u64>::empty());
        }
        let ghost fired = fire_all(
            h0.triggers,
            tlist,
            event_id,
            s0,
            h0.stats.total_triggers_activated,
            h0.deposited,
            now,
        );
        proof {
            assert(fired == (store@, self@.stats.total_triggers_activated, self@.deposited));
        }
        let mut ev = match self.events.remove(&event_id) {
            None => {
                proof {
                    assert(false);
                }
                return Err(Error::EventNotFound);
            },
            Some(e) => e,
        };
        ev.processed = true;
        self.events.insert(event_id, ev);
        self.pending_events = vec_without(&self.pending_events, event_id);
        self.stats.total_events_processed = counter_inc(self.stats.total_events_processed);
        self.deposited.push(Event::EventProcessed { event_id });
        proof {
            let h1 = self@;
            let m = process_event_model(h0, s0, event_id, now);
            assert(h1.events =~= h0.events.insert(
                event_id,
                EventData { processed: true, ..h0.events[event_id] },
            ));
            assert(h1 =~~= m.0);
            assert(store@ == m.1);
            lemma_seq_without(h0.pending, event_id);
            assert forall|i2: int| 0 <= i2 < h1.pending.len() implies h1.events.contains_key(
                #[trigger] h1.pending[i2],
            ) && !h1.events[h1.pending[i2]].processed by {
                assert(h1.pending.contains(h1.pending[i2]));
                assert(h0.pending.contains(h1.pending[i2]) && h1.pending[i2] != event_id);
                let k = choose|k: int| 0 <= k < h0.pending.len() && h0.pending[k] == h1.pending[i2];
                assert(h0.events.contains_key(h0.pending[k]));
                assert(!h0.events[h0.pending[k]].processed);
            }
            assert forall|eid: u64| #[trigger] h1.event_triggers.contains_key(eid) implies ({
                let l = h1.event_triggers[eid]@;
                &&& forall|i2: int|
                    0 <= i2 < l.len() ==> h1.triggers.contains_key(#[trigger] l[i2])
                        && h1.triggers[l[i2]].event_id == eid
                &&& l.no_duplicates()
            }) by {
                assert(h0.event_triggers.contains_key(eid));
                let l = h0.event_triggers[eid]@;
                assert(forall|i2: int|
                    0 <= i2 < l.len() ==> h0.triggers.contains_key(#[trigger] l[i2])
                        && h0.triggers[l[i2]].event_id == eid);
            }
            assert forall|a: u64| #[trigger] h1.account_triggers.contains_key(a) implies ({
                let l = h1.account_triggers[a]@;
                &&& forall|i2: int|
                    0 <= i2 < l.len() ==> h1.triggers.contains_key(#[trigger] l[i2])
                        && h1.triggers[l[i2]].owner == a
                &&& l.no_duplicates()
            }) by {
                assert(h0.account_triggers.contains_key(a));
                let l = h0.account_triggers[a]@;
                assert(forall|i2: int|
                    0 <= i2 < l.len() ==> h0.triggers.contains_key(#[trigger] l[i2])
                        && h0.triggers[l[i2]].owner == a);
            }
            assert forall|tid: u64| #[trigger] h1.triggers.contains_key(tid) implies
                event_trigger_list(h1, h1.triggers[tid].event_id).contains(tid)
                && account_trigger_seq(h1, h1.triggers[tid].owner).contains(tid) by {
                assert(h0.triggers.contains_key(tid));
                assert(event_trigger_list(h0, h0.triggers[tid].event_id).contains(tid));
                assert(account_trigger_seq(h0, h0.triggers[tid].owner).contains(tid));
            }
        }
        Ok(())
    }

    /// Entry point for processing one event; anyone may ask, the checks are
    /// on the event alone.
    pub fn process_event(&mut self, caller: u64, event_id: u64, store: &mut JobStore, now: u64) -> (r:
        Result<(), Error>)
        requires
            old(self).wf(),
            old(store).wf(),
        ensures
            final(self).wf(),
            final(store).wf(),
            match r {
                Ok(()) => {
                    let m = process_event_model(old(self)@, old(store)@, event_id, now);
                    &&& process_outcome(old(self)@, event_id) is None
                    &&& final(self)@ == m.0
                    &&& final(store)@ == m.1
                },
                Err(e) => process_outcome(old(self)@, event_id) == Some(e) && final(self)@ == old(
                    self,
                )@ && final(store)@ == old(store)@,
            },
    {
        let _ = caller;
        self.process_event_internal(event_id, store, now)
    }
}

/// The hub, the store, and the count of events actually processed after one
/// scheduling pass over `batch`: each id still unprocessed is processed in
/// full, processed or unknown ids are skipped defensively.
pub open spec fn auto_process_model(h: HubView, s: StoreView, batch: Seq<u64>, now: u64) -> (
    HubView,
    StoreView,
    nat,
)
    decreases batch.len(),
{
    if batch.len() == 0 {
        (h, s, 0)
    } else {
        let eid = batch[0];
        if h.events.contains_key(eid) && !h.events[eid].processed {
            let m = process_event_model(h, s, eid, now);
            let rest = auto_process_model(m.0, m.1, batch.drop_first(), now);
            (rest.0, rest.1, (rest.2 + 1) as nat)
        } else {
            auto_process_model(h, s, batch.drop_first(), now)
        }
    }
}

/// The number actually processed never exceeds the batch handed in.
pub proof fn lemma_auto_process_count(h: HubView, s: StoreView, batch: Seq<u64>, now: u64)
    ensures
        auto_process_model(h, s, batch, now).2 <= batch.len(),
    decreases batch.len(),
{
    if batch.len() > 0 {
        let eid = batch[0];
        if h.events.contains_key(eid) && !h.events[eid].processed {
            let m = process_event_model(h, s, eid, now);
            lemma_auto_process_count(m.0, m.1, batch.drop_first(), now);
        } else {
            lemma_auto_process_count(h, s, batch.drop_first(), now);
        }
    }
}

impl EventTriggerHub {
    /// One scheduling pass, run by an external collaborator once per tick:
    /// processes up to `max_batch` pending events in queue order — skipping
    /// any already processed, defensively — and returns how many were
    /// actually processed, the measure of the pass's cost.
    pub fn auto_process_pending(&mut self, store: &mut JobStore, max_batch: usize, now: u64) -> (count:
        u64)
        requires
            old(self).wf(),
            old(store).wf(),
        ensures
            final(self).wf(),
            final(store).wf(),
            ({
                let len = old(self)@.pending.len();
                let batch = old(self)@.pending.take(
                    if max_batch <= len {
                        max_batch as int
                    } else {
                        len as int
                    },
                );
                let m = auto_process_model(old(self)@, old(store)@, batch, now);
                &&& final(self)@ == m.0
                &&& final(store)@ == m.1
                &&& count == m.2
            }),
    {
        let ghost h0 = self@;
        let ghost s0 = store@;
        let n: usize = if max_batch <= self.pending_events.len() {
            max_batch
        } else {
            self.pending_events.len()
        };
        let mut batch: Vec<u64> = Vec::new();
        let mut j: usize = 0;
        while j < n
            invariant
                n <= self@.pending.len(),
                self@ == h0,
                j <= n,
                batch@ == h0.pending.take(j as int),
            decreases n - j,
        {
            batch.push(self.pending_events[j]);
            proof {
                assert(h0.pending.take(j + 1) =~= h0.pending.take(j as int).push(
                    h0.pending[j as int],
                ));
            }
            j += 1;
        }
        let ghost bseq = batch@;
        proof {
            assert(bseq.skip(0) =~= bseq);
        }
        let mut count: u64 = 0;
        let mut i: usize = 0;
        while i < batch.len()
            invariant
                i <= batch.len(),
                batch@ == bseq,
                count <= i,
                self.wf(),
                store.wf(),
                ({
                    let full = auto_process_model(h0, s0, bseq, now);
                    let rem = auto_process_model(self@, store@, bseq.skip(i as int), now);
                    &&& full.0 == rem.0
                    &&& full.1 == rem.1
                    &&& full.2 == rem.2 + count
                }),
            decreases batch.len() - i,
        {
            let eid = batch[i];
            proof {
                let tail = bseq.skip(i as int);
                assert(tail[0] == eid);
                assert(tail.drop_first() =~= bseq.skip(i + 1));
            }
            let unprocessed = match self.events.get(&eid) {
                Some(ev) => !ev.processed,
                None => false,
            };
            if unprocessed {
                match self.process_event_internal(eid, store, now) {
                    Ok(()) => {
                        count += 1;
                    },
                    Err(_) => {
                        proof {
                            assert(false);
                        }
                    },
                }
            }
            i += 1;
        }
        proof {
            assert(bseq.skip(bseq.len() as int) =~= Seq::<u64>::empty());
        }
        count
    }
}


/// How many of the listed ids name an active trigger: the number that fire
/// in one processing pass.
pub open spec fn count_active(triggers: Map<u64, TriggerRule>, ids: Seq<u64>) -> nat
    decreases ids.len(),
{
    if ids.len() == 0 {
        0
    } else {
        (if triggers.contains_key(ids[0]) && triggers[ids[0]].active {
            1nat
        } else {
            0nat
        }) + count_active(triggers, ids.drop_first())
    }
}

/// Firing a trigger list steps the activation counter once per listed
/// active trigger — each fires exactly once.
pub proof fn lemma_fire_all_activates(
    triggers: Map<u64, TriggerRule>,
    ids: Seq<u64>,
    event_id: u64,
    s: StoreView,
    activated: u64,
    notes: Seq<Event>,
    now: u64,
)
    ensures
        fire_all(triggers, ids, event_id, s, activated, notes, now).1 == crate::common::sat_add(
            activated,
            count_active(triggers, ids),
        ),
    decreases ids.len(),
{
    broadcast use crate::common::lemma_sat_add_zero;
    broadcast use crate::common::lemma_sat_add_shift;

    if ids.len() > 0 {
        let tid = ids[0];
        if triggers.contains_key(tid) && triggers[tid].active {
            let t = triggers[tid];
            lemma_fire_all_activates(
                triggers,
                ids.drop_first(),
                event_id,
                fire_store(s, t.action, t.owner, now),
                sat_inc(activated),
                notes + fire_notes(s, tid, t.action, event_id),
                now,
            );
        } else {
            lemma_fire_all_activates(triggers, ids.drop_first(), event_id, s, activated, notes, now);
        }
    }
}

/// Law: processing is idempotent at the event level and exhaustive at the
/// trigger level. One successful pass marks the event processed, drops it
/// from the pending queue, and steps the activation counter once per active
/// trigger bound to the event; a second request on the same event is refused
/// as already processed.
pub proof fn lemma_process_event_once(h: HubView, s: StoreView, event_id: u64, now: u64)
    requires
        hub_inv(h),
        process_outcome(h, event_id) is None,
    ensures
        ({
            let m = process_event_model(h, s, event_id, now);
            &&& m.0.events[event_id].processed
            &&& process_outcome(m.0, event_id) == Some(Error::AlreadyProcessed)
            &&& !m.0.pending.contains(event_id)
            &&& m.0.stats.total_triggers_activated == crate::common::sat_add(
                h.stats.total_triggers_activated,
                count_active(h.triggers, event_trigger_list(h, event_id)),
            )
            &&& m.0.stats.total_events_processed == sat_inc(h.stats.total_events_processed)
        }),
{
    lemma_seq_without(h.pending, event_id);
    lemma_fire_all_activates(
        h.triggers,
        event_trigger_list(h, event_id),
        event_id,
        s,
        h.stats.total_triggers_activated,
        h.deposited,
        now,
    );
}

impl EventTriggerHub {
    /// The event stored under `event_id`, if any.
    pub fn events(&self, event_id: u64) -> (r: Option<&EventData>)
        ensures
            match r {
                Some(ev) => self@.events.contains_key(event_id) && *ev == self@.events[event_id],
                None => !self@.events.contains_key(event_id),
            },
    {
        self.events.get(&event_id)
    }

    /// The trigger stored under `trigger_id`, if any.
    pub fn triggers(&self, trigger_id: u64) -> (r: Option<&TriggerRule>)
        ensures
            match r {
                Some(t) => self@.triggers.contains_key(trigger_id) && *t == self@.triggers[
                    trigger_id],
                None => !self@.triggers.contains_key(trigger_id),
            },
    {
        self.triggers.get(&trigger_id)
    }

    /// The id the next event will receive.
    pub fn next_event_id(&self) -> (r: u64)
        ensures
            r == self@.next_event_id,
    {
        self.next_event_id
    }

    /// The id the next trigger will receive.
    pub fn next_trigger_id(&self) -> (r: u64)
        ensures
            r == self@.next_trigger_id,
    {
        self.next_trigger_id
    }

    /// The pending events still awaiting processing, oldest first.
    pub fn get_pending_events(&self) -> (r: Vec<u64>)
        ensures
            r@ == self@.pending,
    {
        let c = self.pending_events.clone();
        proof {
            assert(c@ =~= self@.pending);
        }
        c
    }

    /// The running event counters.
    pub fn get_statistics(&self) -> (r: EventStats)
        ensures
            r == self@.stats,
    {
        self.stats
    }

    /// The trigger ids registered for `account`.
    pub fn get_account_triggers(&self, account: u64) -> (r: Vec<u64>)
        ensures
            r@ == account_trigger_seq(self@, account),
    {
        match self.account_triggers.get(&account) {
            Some(l) => {
                let c = l.clone();
                proof {
                    assert(c@ =~= account_trigger_seq(self@, account));
                }
                c
            },
            None => Vec::new(),
        }
    }

    /// The trigger ids watching `event_id`.
    pub fn event_triggers(&self, event_id: u64) -> (r: Vec<u64>)
        ensures
            r@ == event_trigger_list(self@, event_id),
    {
        match self.event_triggers.get(&event_id) {
            Some(l) => {
                let c = l.clone();
                proof {
                    assert(c@ =~= event_trigger_list(self@, event_id));
                }
                c
            },
            None => Vec::new(),
        }
    }

    /// Every notification raised so far, oldest first.
    pub fn deposited_events(&self) -> (r: &Vec<Event>)
        ensures
            r@ == self@.deposited,
    {
        &self.deposited
    }

    /// The configured pending-queue capacity.
    pub fn max_events(&self) -> (r: usize)
        ensures
            r == self@.max_events,
    {
        self.max_events
    }

    /// The configured per-account trigger cap.
    pub fn max_triggers_per_account(&self) -> (r: usize)
        ensures
            r == self@.max_triggers_per_account,
    {
        self.max_triggers_per_account
    }
}


/// Law: trigger firing moves job statuses only along the transition table.
/// One fired trigger either carries out a permitted step of its one target
/// job or leaves the store alone.
pub proof fn lemma_fire_follows_table(s: StoreView, action: TriggerAction, owner: u64, now: u64)
    requires
        crate::registry::store_inv(s),
    ensures
        ({
            let s2 = fire_store(s, action, owner, now);
            &&& crate::registry::store_inv(s2)
            &&& s2.jobs.dom() == s.jobs.dom()
            &&& forall|id: u64|
                #[trigger] s.jobs.contains_key(id) && s2.jobs[id].status != s.jobs[id].status
                    ==> crate::registry::valid_transition(s.jobs[id].status, s2.jobs[id].status)
        }),
{
    match action {
        TriggerAction::StartJob(job_id) => {
            if transition_outcome(s, owner, job_id, JobStatus::InProgress) is None {
                crate::registry::lemma_apply_transition_wf(s, job_id, JobStatus::InProgress, now);
                crate::registry::lemma_status_moves_follow_table(
                    s,
                    job_id,
                    JobStatus::InProgress,
                    now,
                );
            } else {
                assert(fire_store(s, action, owner, now).jobs.dom() =~= s.jobs.dom());
            }
        },
        TriggerAction::SendExternalMessage => {
            assert(fire_store(s, action, owner, now).jobs.dom() =~= s.jobs.dom());
        },
        TriggerAction::Custom => {
            assert(fire_store(s, action, owner, now).jobs.dom() =~= s.jobs.dom());
        },
    }
}

} // verus!
