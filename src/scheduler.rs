use vstd::prelude::*;
use vstd::multiset::Multiset;
use crate::messages::{TaskPriority, Token};
use crate::progress::{
    all_increments, bump_all, lemma_bump_all_append, message_tokens, send_to_token_processor, ProcessToken,
    TaskEdge,
};
use crate::queue::{entry_le, QueueEntry, TriggerQueue};
use crate::tokens::TokenTable;
use crate::schedule::{
    as_ints, period_of, positive_period, step, strictly_increasing, valid_instant, Catchup, Period, ScheduleError,
    Trigger, TriggerTime,
};
use crate::triggers::{
    backfill_times, before_end, catchup_trigger, fire_time, last_instant, moved_backwards, next_fire,
    requeue_next_triggertime, ascending, descending, do_activate_trigger, edge_token, edges_wf, firing_tokens,
    lower_all, order_backfill, same_definition, upper_all, TriggerEdge,
};

verus! {

pub open spec fn entry_of(t: TriggerTime) -> QueueEntry {
    (t.scheduled_datetime, t.trigger_datetime, t.trigger_id)
}

/// What the scheduler loop does next.
#[derive(Copy, Clone, PartialEq, Eq, Structural, Debug)]
pub enum SchedulerAction {
    /// Nothing is queued: wait for a trigger update.
    Idle,
    /// The earliest firing is not yet due: sleep until it is, unless an
    /// update arrives first, in which case it is put back.
    Sleep(TriggerTime),
    /// The earliest firing is due, or overdue: queue its successor, then
    /// activate it.
    Fire(TriggerTime),
}

/// The firing that an action took from the queue.
pub open spec fn taken(a: SchedulerAction) -> Option<TriggerTime> {
    match a {
        SchedulerAction::Idle => None,
        SchedulerAction::Sleep(t) => Some(t),
        SchedulerAction::Fire(t) => Some(t),
    }
}

/// After an update with the period `p`: the missed firings are returned,
/// and the trigger's only queued entry is its next firing.
pub open spec fn caught_up(
    after: Multiset<QueueEntry>,
    r: Result<Vec<i64>, ScheduleError>,
    tr: Trigger,
    p: Period,
    now: int,
) -> bool {
    &&& r is Ok
    &&& as_ints(r->Ok_0@) == backfill_times(tr, p, now)
    &&& forall|e: QueueEntry| e.2 == tr.id ==> #[trigger] after.count(e) == match next_fire(tr, p, now) {
        Some(n) => if e == entry_of(tr.at_spec(n as i64)) { 1nat } else { 0nat },
        None => 0nat,
    }
}

/// Whether the trigger's only queued entry is its firing at `n` (none when
/// `n` is None).
pub open spec fn entries_at(m: Multiset<QueueEntry>, tr: Trigger, n: Option<i64>) -> bool {
    forall|e: QueueEntry| e.2 == tr.id ==> #[trigger] m.count(e) == match n {
        Some(v) => if e == entry_of(tr.at_spec(v)) { 1nat } else { 0nat },
        None => 0nat,
    }
}

/// What a catch-up did: the missed firings it activated, in time order,
/// and the messages that ask the token processor to check their tokens.
pub struct CatchupOutcome {
    pub fired: Vec<i64>,
    pub messages: Vec<ProcessToken>,
}

/// The trigger scheduler's state: the queue of future firings, ordered by
/// the time each is due.
pub struct Scheduler {
    queue: TriggerQueue,
}

impl View for Scheduler {
    type V = Multiset<QueueEntry>;

    closed spec fn view(&self) -> Multiset<QueueEntry> {
        self.queue@
    }
}

impl Scheduler {
    pub fn new() -> (r: Scheduler)
        ensures
            r@ == Multiset::<QueueEntry>::empty(),
    {
        Scheduler { queue: TriggerQueue::new() }
    }

    /// The number of queued firings.
    pub fn queued(&self) -> (r: usize)
        ensures
            r as nat == self@.len(),
    {
        self.queue.len()
    }

    /// Queues a firing, or puts back the one slept on.
    pub fn push(&mut self, t: TriggerTime)
        ensures
            final(self)@ == old(self)@.insert(entry_of(t)),
    {
        self.queue.push((t.scheduled_datetime, t.trigger_datetime, t.trigger_id));
    }

    /// Takes the earliest queued firing and decides: sleep until it is due,
    /// or fire it now when it is due (or overdue). With nothing queued, idle.
    pub fn next_action(&mut self, now: i64) -> (r: SchedulerAction)
        ensures
            old(self)@.len() == 0 <==> r == SchedulerAction::Idle,
            r == SchedulerAction::Idle ==> final(self)@ == old(self)@,
            r matches SchedulerAction::Sleep(t) ==> now < t.scheduled_datetime,
            r matches SchedulerAction::Fire(t) ==> t.scheduled_datetime <= now,
            taken(r) matches Some(t) ==> old(self)@.contains(entry_of(t)) && final(self)@ == old(self)@.remove(
                entry_of(t),
            ) && forall|x: QueueEntry| old(self)@.contains(x) ==> entry_le(entry_of(t), x),
    {
        match self.queue.pop() {
            None => SchedulerAction::Idle,
            Some(e) => {
                let t = TriggerTime { scheduled_datetime: e.0, trigger_datetime: e.1, trigger_id: e.2 };
                if e.0 > now {
                    SchedulerAction::Sleep(t)
                } else {
                    SchedulerAction::Fire(t)
                }
            },
        }
    }

    /// Forgets every queued firing of a trigger: what an update of a trigger
    /// that is gone, or whose job is paused, amounts to.
    pub fn remove_trigger(&mut self, trigger_id: u128)
        ensures
            forall|e: QueueEntry| #[trigger]
                final(self)@.count(e) == if e.2 == trigger_id {
                    0
                } else {
                    old(self)@.count(e)
                },
    {
        self.queue.remove_trigger(trigger_id);
    }

    /// Runs catchup on a trigger: queues its next future firing, and
    /// returns the missed firings to activate, in time order.
    pub fn catchup(&mut self, trigger: &Trigger, period: &Period, now: i64) -> (r: Vec<i64>)
        requires
            trigger.wf(),
            valid_instant(now as int),
            positive_period(period),
        ensures
            as_ints(r@) == backfill_times(*trigger, *period, now as int),
            final(self)@ == match next_fire(*trigger, *period, now as int) {
                Some(n) => old(self)@.insert(entry_of(trigger.at_spec(n as i64))),
                None => old(self)@,
            },
            forall|i: int| 0 <= i < r@.len() ==> valid_instant(#[trigger] r@[i] as int),
            trigger.catchup == Catchup::Disabled ==> r@.len() == 0,
            !moved_backwards(*trigger) ==> strictly_increasing(r@) && forall|i: int|
                0 <= i < r@.len() ==> #[trigger] r@[i] < last_instant(*trigger, now as int),
    {
        let plan = catchup_trigger(trigger, period, now);
        match plan.next {
            Some(t) => self.push(t),
            None => {},
        }
        plan.backfill
    }

    /// Handles a trigger update: forgets the trigger's queued firings and,
    /// when the trigger is still scheduled (`reloaded` is its current row,
    /// absent when it is gone or its job is paused), runs catchup on it.
    /// A trigger whose period is malformed is left unscheduled.
    pub fn update_trigger(&mut self, trigger_id: u128, reloaded: Option<&Trigger>, now: i64) -> (r: Result<
        Vec<i64>,
        ScheduleError,
    >)
        requires
            reloaded matches Some(t) ==> t.wf() && t.id == trigger_id,
            valid_instant(now as int),
        ensures
            forall|e: QueueEntry| e.2 != trigger_id ==> #[trigger] final(self)@.count(e) == old(self)@.count(e),
            reloaded is None ==> (r matches Ok(v) && v@.len() == 0),
            reloaded matches Some(tr) ==> (r is Err <==> !tr.schedulable()),
            reloaded matches Some(tr) ==> (r is Ok ==> exists|n: Option<i64>|
                entries_at(final(self)@, *tr, n) && (n matches Some(v) ==> before_end(*tr, v as int) && valid_instant(
                    v as int,
                ))),
            r is Err ==> forall|e: QueueEntry| #[trigger] final(self)@.count(e) == if e.2 == trigger_id {
                0
            } else {
                old(self)@.count(e)
            },
            reloaded is None ==> forall|e: QueueEntry| e.2 == trigger_id ==> #[trigger] final(self)@.count(e) == 0,
            reloaded matches Some(tr) ==> match period_of(*tr) {
                Some(p) => caught_up(final(self)@, r, *tr, p, now as int),
                None => r is Err,
            },
    {
        self.remove_trigger(trigger_id);
        match reloaded {
            None => Ok(Vec::new()),
            Some(trigger) => {
                let period = match trigger.period() {
                    Ok(p) => p,
                    Err(e) => {
                        return Err(e);
                    },
                };
                let ghost pruned = self@;
                let plan = catchup_trigger(trigger, &period, now);
                match plan.next {
                    Some(t) => {
                        self.push(t);
                        assert(t.trigger_id == trigger_id);
                        assert forall|e: QueueEntry| e.2 != trigger_id implies #[trigger] self@.count(e)
                            == old(self)@.count(e) by {
                            assert(pruned.count(e) == old(self)@.count(e));
                        }
                        assert forall|e: QueueEntry| e.2 == trigger_id implies #[trigger] self@.count(e)
                            == if e == entry_of(t) { 1nat } else { 0nat } by {
                            assert(pruned.count(e) == 0);
                        }
                        assert(entries_at(self@, *trigger, Some(t.trigger_datetime)));
                    },
                    None => {
                        assert(entries_at(self@, *trigger, None));
                    },
                }
                Ok(plan.backfill)
            },
        }
    }

    /// Queues the firing that follows `current`, if it lies before the end.
    /// The caller then activates `current`.
    pub fn requeue_next(&mut self, trigger: &Trigger, period: &Period, current: &TriggerTime) -> (r: Option<
        TriggerTime,
    >)
        requires
            trigger.wf(),
            valid_instant(current.trigger_datetime as int),
        ensures
            fire_time(r) == match step(*period, current.trigger_datetime as int) {
                Some(n) => if before_end(*trigger, n) { Some(n) } else { None },
                None => None,
            },
            r matches Some(t) ==> final(self)@ == old(self)@.insert(entry_of(t)) && t == trigger.at_spec(
                t.trigger_datetime,
            ),
            r is None ==> final(self)@ == old(self)@,
    {
        let next = requeue_next_triggertime(trigger, period, current);
        match next {
            Some(t) => self.push(t),
            None => {},
        }
        next
    }

    /// Runs catch-up on a trigger end to end: queues its next future firing,
    /// activates each missed firing in time order (incrementing the tokens
    /// of its edges and recording it in the watermarks), and returns the
    /// messages for all those tokens at backfill priority, in the order the
    /// trigger's catchup policy asks for.
    pub fn catchup_activate(
        &mut self,
        table: &mut TokenTable,
        task_edges: &Vec<TaskEdge>,
        trigger: &mut Trigger,
        edges: &Vec<TriggerEdge>,
        period: &Period,
        now: i64,
    ) -> (r: CatchupOutcome)
        requires
            old(trigger).wf(),
            old(table).wf(),
            edges_wf(edges@),
            valid_instant(now as int),
            positive_period(period),
        ensures
            as_ints(r.fired@) == backfill_times(*old(trigger), *period, now as int),
            final(self)@ == match next_fire(*old(trigger), *period, now as int) {
                Some(n) => old(self)@.insert(entry_of(old(trigger).at_spec(n as i64))),
                None => old(self)@,
            },
            forall|i: int| 0 <= i < r.fired@.len() ==> valid_instant(#[trigger] r.fired@[i] as int),
            !moved_backwards(*old(trigger)) ==> strictly_increasing(r.fired@) && forall|i: int|
                0 <= i < r.fired@.len() ==> #[trigger] r.fired@[i] < last_instant(*old(trigger), now as int),
            old(trigger).catchup == Catchup::Disabled ==> r.fired@.len() == 0 && r.messages@.len() == 0
                && final(table)@ == old(table)@ && final(trigger).earliest_trigger_datetime
                == old(trigger).earliest_trigger_datetime && final(trigger).latest_trigger_datetime
                == old(trigger).latest_trigger_datetime,
            final(table).wf(),
            final(table)@ == bump_all(old(table)@, firing_tokens(edges@, r.fired@), task_edges@),
            same_definition(*final(trigger), *old(trigger)),
            final(trigger).earliest_trigger_datetime == lower_all(old(trigger).earliest_trigger_datetime, r.fired@),
            final(trigger).latest_trigger_datetime == upper_all(old(trigger).latest_trigger_datetime, r.fired@),
            all_increments(r.messages@, TaskPriority::BackFill),
            message_tokens(r.messages@).to_multiset() == firing_tokens(edges@, r.fired@).to_multiset(),
            old(trigger).catchup == Catchup::Earliest ==> ascending(message_tokens(r.messages@)),
            old(trigger).catchup == Catchup::Latest ==> descending(message_tokens(r.messages@)),
    {
        let fired = self.catchup(trigger, period, now);
        let ghost t0 = *trigger;
        let ghost m0 = table@;
        let mut all: Vec<Token> = Vec::new();
        let mut i: usize = 0;
        while i < fired.len()
            invariant
                i <= fired@.len(),
                forall|j: int| 0 <= j < fired@.len() ==> valid_instant(#[trigger] fired@[j] as int),
                edges_wf(edges@),
                table.wf(),
                all@ == firing_tokens(edges@, fired@.subrange(0, i as int)),
                table@ == bump_all(m0, all@, task_edges@),
                same_definition(*trigger, t0),
                trigger.earliest_trigger_datetime == lower_all(t0.earliest_trigger_datetime, fired@.subrange(0, i as int)),
                trigger.latest_trigger_datetime == upper_all(t0.latest_trigger_datetime, fired@.subrange(0, i as int)),
            decreases fired@.len() - i,
        {
            let t = fired[i];
            let ghost before = all@;
            let ghost m1 = table@;
            let mut toks = do_activate_trigger(table, task_edges, trigger, edges, t);
            proof {
                lemma_bump_all_append(m0, before, toks@, task_edges@);
                let sub = fired@.subrange(0, i + 1);
                assert(sub.drop_last() =~= fired@.subrange(0, i as int));
                assert(sub.last() == t);
                assert(toks@ =~= edges@.map_values(|e: TriggerEdge| edge_token(e, t as int)));
            }
            all.append(&mut toks);
            i = i + 1;
        }
        assert(fired@.subrange(0, fired@.len() as int) =~= fired@);
        if fired.len() == 0 {
            assert(firing_tokens(edges@, fired@) =~= Seq::<Token>::empty());
        }
        let ghost tokens = all@;
        let ordered = order_backfill(all, trigger.catchup);
        let messages = send_to_token_processor(&ordered, TaskPriority::BackFill);
        assert(message_tokens(messages@) =~= ordered@);
        CatchupOutcome { fired, messages }
    }
}

} // verus!
