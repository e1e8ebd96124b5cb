use vstd::prelude::*;

verus! {

/// What a worker does after trying, without blocking, to take exclusive
/// access to a path's wakeup slot.
#[derive(Clone, Copy, Debug, PartialEq, Eq, Structural)]
pub enum CompletionStep {
    /// Exclusive access was taken: drop the primitive; the path is ready.
    Clear,
    /// A reader holds shared access: wake all current subscribers under shared
    /// access, sleep briefly, then try again.
    NotifyAndRetry,
}

/// The worker clears the slot exactly when it got exclusive access.
pub open spec fn step_for(acquired: bool) -> CompletionStep {
    if acquired {
        CompletionStep::Clear
    } else {
        CompletionStep::NotifyAndRetry
    }
}

/// The worker's decision on one attempt at exclusive access.
pub fn completion_step(acquired: bool) -> (r: CompletionStep)
    ensures
        r == step_for(acquired),
{
    if acquired {
        CompletionStep::Clear
    } else {
        CompletionStep::NotifyAndRetry
    }
}

/// Where one reader of a pending path stands.
#[derive(Clone, Copy, Debug, PartialEq, Eq, Structural)]
pub enum ReaderPhase {
    /// Has not looked the path up yet.
    Idle,
    /// Holds shared access to the slot and saw a live primitive.
    Holding,
    /// Holds shared access and is subscribed, suspended until woken.
    Waiting,
    /// Was woken and still holds shared access.
    Woken,
    /// Released the slot, or found the preview ready.
    Done,
}

/// A reader that holds shared access to the slot.
pub open spec fn holds_slot(p: ReaderPhase) -> bool {
    p is Holding || p is Waiting || p is Woken
}

pub open spec fn no_holder(phases: Seq<ReaderPhase>) -> bool {
    forall|i: int| 0 <= i < phases.len() ==> !holds_slot(#[trigger] phases[i])
}

/// Every subscribed reader woken; the others as they were.
pub open spec fn wake_all(phases: Seq<ReaderPhase>) -> Seq<ReaderPhase> {
    phases.map_values(
        |p: ReaderPhase|
            if p is Waiting {
                ReaderPhase::Woken
            } else {
                p
            },
    )
}

/// Once the primitive is cleared, no reader holds the slot, and so none waits
/// on a primitive that is gone.
pub open spec fn protocol_inv(live: bool, phases: Seq<ReaderPhase>) -> bool {
    !live ==> no_holder(phases)
}

/// A reader's lookup: a live primitive makes it hold the slot, a cleared one
/// sends it on to read the preview.
pub open spec fn lookup_phases(live: bool, phases: Seq<ReaderPhase>, r: int) -> Seq<ReaderPhase> {
    if phases[r] is Idle {
        phases.update(
            r,
            if live {
                ReaderPhase::Holding
            } else {
                ReaderPhase::Done
            },
        )
    } else {
        phases
    }
}

pub open spec fn subscribe_phases(phases: Seq<ReaderPhase>, r: int) -> Seq<ReaderPhase> {
    if phases[r] is Holding {
        phases.update(r, ReaderPhase::Waiting)
    } else {
        phases
    }
}

pub open spec fn release_phases(phases: Seq<ReaderPhase>, r: int) -> Seq<ReaderPhase> {
    if phases[r] is Woken {
        phases.update(r, ReaderPhase::Done)
    } else {
        phases
    }
}

/// One path's wakeup slot, with the readers interested in it and whether the
/// worker has dropped the primitive yet.
pub struct WakeupSlot {
    live: bool,
    readers: Vec<ReaderPhase>,
}

impl WakeupSlot {
    /// Whether the primitive is still in the slot.
    pub closed spec fn live(&self) -> bool {
        self.live
    }

    pub closed spec fn phases(&self) -> Seq<ReaderPhase> {
        self.readers@
    }

    pub open spec fn inv(&self) -> bool {
        protocol_inv(self.live(), self.phases())
    }

    /// A pending slot with `n` readers that have not looked it up yet.
    pub fn new(n: usize) -> (r: WakeupSlot)
        ensures
            r.live(),
            r.phases() == Seq::new(n as nat, |i: int| ReaderPhase::Idle),
            r.inv(),
    {
        let mut readers: Vec<ReaderPhase> = Vec::new();
        let mut i: usize = 0;
        while i < n
            invariant
                i <= n,
                readers@ == Seq::new(i as nat, |k: int| ReaderPhase::Idle),
            decreases n - i,
        {
            readers.push(ReaderPhase::Idle);
            i = i + 1;
            assert(readers@ =~= Seq::new(i as nat, |k: int| ReaderPhase::Idle));
        }
        WakeupSlot { live: true, readers }
    }

    /// The phase of reader `r`.
    pub fn phase(&self, r: usize) -> (p: ReaderPhase)
        requires
            r < self.phases().len(),
        ensures
            p == self.phases()[r as int],
    {
        self.readers[r]
    }

    /// Whether the primitive is still in the slot.
    pub fn is_live(&self) -> (b: bool)
        ensures
            b == self.live(),
    {
        self.live
    }

    /// Reader `r` looks the path up and, if the primitive is live, keeps
    /// shared access. Returns whether it must go on to wait.
    pub fn reader_lookup(&mut self, r: usize) -> (pending: bool)
        requires
            old(self).inv(),
            r < old(self).phases().len(),
        ensures
            final(self).inv(),
            final(self).live() == old(self).live(),
            final(self).phases() == lookup_phases(old(self).live(), old(self).phases(), r as int),
            pending == (old(self).phases()[r as int] is Idle && old(self).live()),
    {
        if self.readers[r] == ReaderPhase::Idle {
            let next = if self.live {
                ReaderPhase::Holding
            } else {
                ReaderPhase::Done
            };
            self.readers.set(r, next);
            self.live
        } else {
            false
        }
    }

    /// Reader `r`, holding shared access, subscribes to the primitive.
    pub fn reader_subscribe(&mut self, r: usize)
        requires
            old(self).inv(),
            r < old(self).phases().len(),
        ensures
            final(self).inv(),
            final(self).live() == old(self).live(),
            final(self).phases() == subscribe_phases(old(self).phases(), r as int),
    {
        if self.readers[r] == ReaderPhase::Holding {
            self.readers.set(r, ReaderPhase::Waiting);
        }
    }

    /// Reader `r`, once woken, releases its shared access.
    pub fn reader_release(&mut self, r: usize)
        requires
            old(self).inv(),
            r < old(self).phases().len(),
        ensures
            final(self).inv(),
            final(self).live() == old(self).live(),
            final(self).phases() == release_phases(old(self).phases(), r as int),
    {
        if self.readers[r] == ReaderPhase::Woken {
            self.readers.set(r, ReaderPhase::Done);
        }
    }

    fn has_holder(&self) -> (b: bool)
        ensures
            b == !no_holder(self.phases()),
    {
        let mut i: usize = 0;
        while i < self.readers.len()
            invariant
                i <= self.readers@.len(),
                forall|k: int| 0 <= k < i ==> !holds_slot(#[trigger] self.readers@[k]),
            decreases self.readers@.len() - i,
        {
            let p = self.readers[i];
            if p == ReaderPhase::Holding || p == ReaderPhase::Waiting || p == ReaderPhase::Woken {
                return true;
            }
            i = i + 1;
        }
        false
    }

    /// One attempt of the worker that finished generating: take exclusive
    /// access if no reader holds the slot and drop the primitive; otherwise
    /// wake every subscribed reader.
    pub fn worker_attempt(&mut self) -> (step: CompletionStep)
        requires
            old(self).inv(),
        ensures
            final(self).inv(),
            step == step_for(no_holder(old(self).phases())),
            step is Clear ==> !final(self).live() && final(self).phases() == old(self).phases(),
            step is NotifyAndRetry ==> final(self).live() && final(self).phases() == wake_all(
                old(self).phases(),
            ),
    {
        let step = completion_step(!self.has_holder());
        match step {
            CompletionStep::Clear => {
                self.live = false;
            },
            CompletionStep::NotifyAndRetry => {
                let ghost before = self.readers@;
                let mut i: usize = 0;
                while i < self.readers.len()
                    invariant
                        old(self).inv(),
                        self.live == old(self).live,
                        !no_holder(before),
                        before == old(self).readers@,
                        i <= self.readers@.len(),
                        self.readers@.len() == before.len(),
                        forall|k: int|
                            0 <= k < i ==> self.readers@[k] == wake_all(before)[k],
                        forall|k: int| i <= k < before.len() ==> self.readers@[k] == before[k],
                    decreases self.readers@.len() - i,
                {
                    if self.readers[i] == ReaderPhase::Waiting {
                        self.readers.set(i, ReaderPhase::Woken);
                    }
                    i = i + 1;
                }
                assert(self.readers@ =~= wake_all(before));
            },
        }
        step
    }
}

/// One step of one side of the protocol.
#[derive(Clone, Copy, Debug, PartialEq, Eq, Structural)]
pub enum SlotEvent {
    /// Reader `r` looks the path up.
    Lookup(usize),
    /// Reader `r` subscribes to the primitive.
    Subscribe(usize),
    /// Reader `r` releases its shared access once woken.
    Release(usize),
    /// The worker tries to take exclusive access, as [`WakeupSlot::worker_attempt`] does.
    WorkerAttempt,
}

/// The slot (whether the primitive is live, and the readers' phases) after one
/// event; an event of a reader that does not exist changes nothing.
pub open spec fn apply_event(live: bool, phases: Seq<ReaderPhase>, e: SlotEvent) -> (
    bool,
    Seq<ReaderPhase>,
) {
    match e {
        SlotEvent::Lookup(r) => if r < phases.len() {
            (live, lookup_phases(live, phases, r as int))
        } else {
            (live, phases)
        },
        SlotEvent::Subscribe(r) => if r < phases.len() {
            (live, subscribe_phases(phases, r as int))
        } else {
            (live, phases)
        },
        SlotEvent::Release(r) => if r < phases.len() {
            (live, release_phases(phases, r as int))
        } else {
            (live, phases)
        },
        SlotEvent::WorkerAttempt => if no_holder(phases) {
            (false, phases)
        } else {
            (live, wake_all(phases))
        },
    }
}

/// The slot after a whole interleaving of events, in order.
pub open spec fn run_events(live: bool, phases: Seq<ReaderPhase>, events: Seq<SlotEvent>) -> (
    bool,
    Seq<ReaderPhase>,
)
    decreases events.len(),
{
    if events.len() == 0 {
        (live, phases)
    } else {
        let before = run_events(live, phases, events.drop_last());
        apply_event(before.0, before.1, events.last())
    }
}

proof fn lemma_apply_event_inv(live: bool, phases: Seq<ReaderPhase>, e: SlotEvent)
    requires
        protocol_inv(live, phases),
    ensures
        protocol_inv(apply_event(live, phases, e).0, apply_event(live, phases, e).1),
        apply_event(live, phases, e).1.len() == phases.len(),
{
    match e {
        SlotEvent::Lookup(r) => {
            if r < phases.len() && !live {
                let q = lookup_phases(live, phases, r as int);
                assert forall|i: int| 0 <= i < q.len() implies !holds_slot(#[trigger] q[i]) by {
                    assert(!holds_slot(phases[i]));
                }
            }
        },
        SlotEvent::Subscribe(r) => {
            if r < phases.len() && !live {
                assert(!holds_slot(phases[r as int]));
                assert(subscribe_phases(phases, r as int) == phases);
            }
        },
        SlotEvent::Release(r) => {
            if r < phases.len() && !live {
                assert(!holds_slot(phases[r as int]));
                assert(release_phases(phases, r as int) == phases);
            }
        },
        SlotEvent::WorkerAttempt => {},
    }
}

impl WakeupSlot {
    /// Performs one event of the protocol.
    pub fn step(&mut self, e: SlotEvent)
        requires
            old(self).inv(),
        ensures
            final(self).inv(),
            (final(self).live(), final(self).phases()) == apply_event(
                old(self).live(),
                old(self).phases(),
                e,
            ),
    {
        match e {
            SlotEvent::Lookup(r) => {
                if r < self.readers.len() {
                    self.reader_lookup(r);
                }
            },
            SlotEvent::Subscribe(r) => {
                if r < self.readers.len() {
                    self.reader_subscribe(r);
                }
            },
            SlotEvent::Release(r) => {
                if r < self.readers.len() {
                    self.reader_release(r);
                }
            },
            SlotEvent::WorkerAttempt => {
                self.worker_attempt();
            },
        }
    }
}

/// No lost wakeup in any schedule: whatever the interleaving of lookups,
/// subscriptions, releases and worker attempts, no reader ever holds the slot,
/// let alone waits on it, once the primitive is gone.
pub proof fn lemma_no_lost_wakeup_in_any_schedule(
    live: bool,
    phases: Seq<ReaderPhase>,
    events: Seq<SlotEvent>,
)
    requires
        protocol_inv(live, phases),
    ensures
        protocol_inv(run_events(live, phases, events).0, run_events(live, phases, events).1),
        run_events(live, phases, events).1.len() == phases.len(),
    decreases events.len(),
{
    if events.len() > 0 {
        lemma_no_lost_wakeup_in_any_schedule(live, phases, events.drop_last());
        let before = run_events(live, phases, events.drop_last());
        lemma_apply_event_inv(before.0, before.1, events.last());
    }
}

/// Every woken reader released.
pub open spec fn release_all(phases: Seq<ReaderPhase>) -> Seq<ReaderPhase> {
    phases.map_values(
        |p: ReaderPhase|
            if p is Woken {
                ReaderPhase::Done
            } else {
                p
            },
    )
}

/// The worker finishes after one round: once no reader sits between its lookup
/// and its subscription, one attempt wakes every subscriber, and when the woken
/// readers have released, the next attempt drops the primitive.
pub proof fn lemma_worker_finishes_after_one_round(phases: Seq<ReaderPhase>)
    requires
        forall|i: int| 0 <= i < phases.len() ==> !(#[trigger] phases[i] is Holding),
    ensures
        no_holder(release_all(wake_all(phases))),
        step_for(no_holder(release_all(wake_all(phases)))) is Clear,
{
    let q = release_all(wake_all(phases));
    assert forall|i: int| 0 <= i < q.len() implies !holds_slot(#[trigger] q[i]) by {
        assert(!(phases[i] is Holding));
    }
}

/// No lost wakeup. A reader that has subscribed is woken by the worker's next
/// attempt, and that attempt cannot drop the primitive under it: the worker
/// finishes only when no reader holds the slot. Every step of either side keeps
/// the invariant that nobody holds the slot once the primitive is gone.
pub proof fn lemma_no_lost_wakeup(live: bool, phases: Seq<ReaderPhase>, r: int)
    requires
        protocol_inv(live, phases),
        0 <= r < phases.len(),
        phases[r] is Waiting,
    ensures
        live,
        step_for(no_holder(phases)) is NotifyAndRetry,
        wake_all(phases)[r] is Woken,
        protocol_inv(live, wake_all(phases)),
        forall|q: int|
            0 <= q < phases.len() ==> protocol_inv(live, #[trigger] lookup_phases(live, phases, q))
                && protocol_inv(live, subscribe_phases(phases, q)) && protocol_inv(
                live,
                release_phases(phases, q),
            ),
{
    assert(holds_slot(phases[r]));
}

} // verus!
