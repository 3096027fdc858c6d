use vstd::prelude::*;
use rand::seq::SliceRandom;
use crate::messages::Token;
use crate::progress::{bump_all, threshold_of, TaskEdge};
use crate::tokens::TokenTable;
use crate::schedule::{
    advance, as_ints, offset_or_zero, opt_int, positive_period, step, steps, steps_end,
    strictly_increasing, valid_instant, valid_opt_instant, walk, Catchup, Period, Trigger,
    TriggerTime, MAX_INSTANT,
};

verus! {

/// The instant up to which missed firings are caught up: now, or the end
/// of the trigger if that comes first.
pub open spec fn last_instant(tr: Trigger, now: int) -> int {
    match tr.end_datetime {
        Some(e) => if now < e { now } else { e as int },
        None => now,
    }
}

/// The first firing after the latest one, or the start if it never fired.
pub open spec fn first_forward(tr: Trigger, p: Period) -> Option<int> {
    match tr.latest_trigger_datetime {
        Some(l) => step(p, l as int),
        None => Some(tr.start_datetime as int),
    }
}

/// Whether the start has moved before the earliest firing, and catchup asks
/// for the gap to be filled.
pub open spec fn moved_backwards(tr: Trigger) -> bool {
    tr.catchup != Catchup::Disabled && match tr.earliest_trigger_datetime {
        Some(e) => tr.start_datetime < e,
        None => false,
    }
}

pub open spec fn backward_times(tr: Trigger, p: Period) -> Seq<int> {
    if moved_backwards(tr) {
        steps(p, tr.start_datetime as int, tr.earliest_trigger_datetime->Some_0 as int)
    } else {
        Seq::empty()
    }
}

pub open spec fn forward_times(tr: Trigger, p: Period, now: int) -> Seq<int> {
    match first_forward(tr, p) {
        Some(f) => steps(p, f, last_instant(tr, now)),
        None => Seq::empty(),
    }
}

/// The firings that catchup activates, for the period `p`.
pub open spec fn backfill_times(tr: Trigger, p: Period, now: int) -> Seq<int> {
    backward_times(tr, p) + if tr.catchup != Catchup::Disabled {
        forward_times(tr, p, now)
    } else {
        Seq::empty()
    }
}

/// Whether a firing at `t` is still within the trigger's end.
pub open spec fn before_end(tr: Trigger, t: int) -> bool {
    match tr.end_datetime {
        Some(e) => t < e,
        None => true,
    }
}

/// The future firing that catchup queues, for the period `p`.
pub open spec fn next_fire(tr: Trigger, p: Period, now: int) -> Option<int> {
    match first_forward(tr, p) {
        Some(f) => match steps_end(p, f, last_instant(tr, now)) {
            Some(e) => if before_end(tr, e) { Some(e) } else { None },
            None => None,
        },
        None => None,
    }
}

pub open spec fn fire_time(t: Option<TriggerTime>) -> Option<int> {
    match t {
        Some(t) => Some(t.trigger_datetime as int),
        None => None,
    }
}

/// What catchup decides for one trigger: the missed firings to activate, in
/// time order, and the firing to queue.
pub struct CatchupPlan {
    pub backfill: Vec<i64>,
    pub next: Option<TriggerTime>,
}

/// Plans catchup for a trigger at `now`. When the start moved before the
/// earliest firing, the gap is walked; then every firing from the one after
/// the latest (or from the start) up to now, or the end, is walked, and
/// activated unless catchup is disabled. The first firing not walked is
/// queued if it lies before the end.
pub fn catchup_trigger(trigger: &Trigger, period: &Period, now: i64) -> (r: CatchupPlan)
    requires
        trigger.wf(),
        valid_instant(now as int),
        positive_period(period),
    ensures
        as_ints(r.backfill@) == backfill_times(*trigger, *period, now as int),
        fire_time(r.next) == next_fire(*trigger, *period, now as int),
        trigger.catchup == Catchup::Disabled ==> r.backfill@.len() == 0,
        forall|i: int| 0 <= i < r.backfill@.len() ==> valid_instant(#[trigger] r.backfill@[i] as int),
        r.next matches Some(t) ==> t == trigger.at_spec(t.trigger_datetime) && valid_instant(t.trigger_datetime as int)
            && before_end(*trigger, t.trigger_datetime as int) && last_instant(*trigger, now as int)
            <= t.trigger_datetime,
        !moved_backwards(*trigger) ==> strictly_increasing(r.backfill@) && forall|i: int|
            0 <= i < r.backfill@.len() ==> #[trigger] r.backfill@[i] < last_instant(*trigger, now as int),
{
    let mut backfill: Vec<i64> = Vec::new();
    if trigger.catchup != Catchup::Disabled {
        if let Some(earliest) = trigger.earliest_trigger_datetime {
            if trigger.start_datetime < earliest {
                let (times, _) = walk(trigger.start_datetime, earliest, period);
                backfill = times;
            }
        }
    }
    assert(as_ints(backfill@) =~= backward_times(*trigger, *period));
    let first = match trigger.latest_trigger_datetime {
        Some(latest) => advance(latest, period),
        None => Some(trigger.start_datetime),
    };
    let last = match trigger.end_datetime {
        Some(end) => if now < end {
            now
        } else {
            end
        },
        None => now,
    };
    let next = match first {
        Some(f) => {
            let (mut times, end) = walk(f, last, period);
            if trigger.catchup != Catchup::Disabled {
                let ghost before = backfill@;
                let ghost walked = times@;
                backfill.append(&mut times);
                proof {
                    assert(backfill@ =~= before + walked);
                    if !moved_backwards(*trigger) {
                        assert(backfill@ =~= walked);
                    }
                    assert forall|i: int| 0 <= i < backfill@.len() implies valid_instant(
                        #[trigger] backfill@[i] as int,
                    ) by {
                        if i >= before.len() {
                            assert(backfill@[i] == walked[i - before.len()]);
                        }
                    }
                    assert(as_ints(backfill@) =~= as_ints(before) + as_ints(walked));
                }
            }
            end
        },
        None => None,
    };
    assert(as_ints(backfill@) =~= backfill_times(*trigger, *period, now as int));
    let queued = match next {
        Some(n) => {
            let in_range = match trigger.end_datetime {
                Some(end) => n < end,
                None => true,
            };
            if in_range {
                Some(trigger.at(n))
            } else {
                None
            }
        },
        None => None,
    };
    CatchupPlan { backfill, next: queued }
}

/// Walking from `from` to `until` in steps of `d` seconds passes
/// `ceil((until - from) / d)` instants, and none when `from` is not before
/// `until`.
pub proof fn lemma_steps_len(from: int, until: int, d: i64)
    requires
        d > 0,
        valid_instant(from),
        valid_instant(until),
    ensures
        steps(Period::Duration(d), from, until).len() == if from < until {
            (until - from + d - 1) / (d as int)
        } else {
            0
        },
    decreases (if from < until { until - from } else { 0 }),
{
    let p = Period::Duration(d);
    if from < until {
        let x = until - from;
        if valid_instant(from + d) {
            lemma_steps_len(from + d, until, d);
            if from + d < until {
                vstd::arithmetic::div_mod::lemma_div_plus_one(x - 1, d as int);
                assert((x - d + d - 1) / (d as int) + 1 == (x + d - 1) / (d as int));
            } else {
                assert((x + d - 1) / (d as int) == 1) by {
                    vstd::arithmetic::div_mod::lemma_div_plus_one(x - 1, d as int);
                    vstd::arithmetic::div_mod::lemma_basic_div(x - 1, d as int);
                }
            }
        } else {
            assert(steps(p, from, until) =~= seq![from]);
            assert((x + d - 1) / (d as int) == 1) by {
                vstd::arithmetic::div_mod::lemma_div_plus_one(x - 1, d as int);
                vstd::arithmetic::div_mod::lemma_basic_div(x - 1, d as int);
            }
        }
    }
}

/// Catchup with a fixed period of `d` seconds, where the start has not moved
/// before the earliest firing, activates `ceil((last - first) / d)` firings,
/// where `first` follows the latest firing (or is the start) and `last` is
/// now or the end if earlier; it activates none when catchup is disabled.
pub proof fn lemma_catchup_count(tr: Trigger, d: i64, now: int)
    requires
        d > 0,
        tr.wf(),
        valid_instant(now),
        !moved_backwards(tr),
    ensures
        backfill_times(tr, Period::Duration(d), now).len() == if tr.catchup == Catchup::Disabled {
            0
        } else {
            match first_forward(tr, Period::Duration(d)) {
                Some(f) => if f < last_instant(tr, now) {
                    (last_instant(tr, now) - f + d - 1) / (d as int)
                } else {
                    0
                },
                None => 0,
            }
        },
{
    let p = Period::Duration(d);
    if let Some(f) = first_forward(tr, p) {
        lemma_steps_len(f, last_instant(tr, now), d);
    }
    assert(backfill_times(tr, p, now) =~= if tr.catchup != Catchup::Disabled {
        forward_times(tr, p, now)
    } else {
        Seq::empty()
    });
}

/// The firing that follows `current`, if it lies before the trigger's end.
pub fn requeue_next_triggertime(trigger: &Trigger, period: &Period, current: &TriggerTime) -> (r: Option<
    TriggerTime,
>)
    requires
        trigger.wf(),
        valid_instant(current.trigger_datetime as int),
    ensures
        fire_time(r) == match step(*period, current.trigger_datetime as int) {
            Some(n) => if before_end(*trigger, n) { Some(n) } else { None },
            None => None,
        },
        period is Cron ==> (r matches Some(t) ==> current.trigger_datetime < t.trigger_datetime),
        r matches Some(t) ==> t == trigger.at_spec(t.trigger_datetime) && before_end(*trigger, t.trigger_datetime as int)
            && valid_instant(t.trigger_datetime as int),
{
    match advance(current.trigger_datetime, period) {
        Some(next) => {
            let in_range = match trigger.end_datetime {
                Some(end) => next < end,
                None => true,
            };
            if in_range {
                Some(trigger.at(next))
            } else {
                None
            }
        },
        None => None,
    }
}

/// A trigger without an end is open-ended: every successor that is a
/// representable instant is queued, by requeueing and by catchup alike.
pub proof fn lemma_open_ended(tr: Trigger, p: Period, now: int)
    requires
        tr.end_datetime is None,
    ensures
        forall|n: int| #[trigger] before_end(tr, n),
        next_fire(tr, p, now) == match first_forward(tr, p) {
            Some(f) => steps_end(p, f, now),
            None => None,
        },
{
}

/// For a trigger without an end and a fixed period of `d` seconds, the
/// successor `t + d` of a firing at `t` is always queued, as long as it is a
/// representable instant.
pub proof fn lemma_open_ended_successor(tr: Trigger, d: i64, t: int)
    requires
        tr.end_datetime is None,
        valid_instant(t + d),
    ensures
        step(Period::Duration(d), t) == Some(t + d),
        before_end(tr, t + d),
{
}

/// Walking from `from` in steps of `d` seconds passes exactly the instants
/// `from + k * d`, in order.
pub proof fn lemma_steps_positions(from: int, until: int, d: i64)
    requires
        d > 0,
        valid_instant(from),
        valid_instant(until),
    ensures
        forall|k: int| 0 <= k < steps(Period::Duration(d), from, until).len() ==> #[trigger] steps(
            Period::Duration(d),
            from,
            until,
        )[k] == from + k * d,
    decreases (if from < until { until - from } else { 0 }),
{
    let p = Period::Duration(d);
    if from < until && valid_instant(from + d) {
        lemma_steps_positions(from + d, until, d);
        let rest = steps(p, from + d, until);
        assert(steps(p, from, until) == seq![from] + rest);
        assert forall|k: int| 0 <= k < steps(p, from, until).len() implies #[trigger] steps(p, from, until)[k]
            == from + k * d by {
            if k > 0 {
                assert(steps(p, from, until)[k] == rest[k - 1]);
                assert(from + d + (k - 1) * d == from + k * d) by (nonlinear_arith);
            } else {
                assert(k * d == 0) by (nonlinear_arith)
                    requires
                        k == 0,
                ;
            }
        }
    } else if from < until {
        assert(steps(p, from, until) =~= seq![from]);
        assert forall|k: int| 0 <= k < steps(p, from, until).len() implies #[trigger] steps(p, from, until)[k]
            == from + k * d by {
            assert(k * d == 0) by (nonlinear_arith)
                requires
                    k == 0,
            ;
        }
    }
}

/// Each firing produces one token per edge: firings at `times` produce
/// `|times| * |edges|` tokens.
pub proof fn lemma_firing_tokens_len(edges: Seq<TriggerEdge>, times: Seq<i64>)
    ensures
        firing_tokens(edges, times).len() == times.len() * edges.len(),
    decreases times.len(),
{
    if times.len() > 0 {
        lemma_firing_tokens_len(edges, times.drop_last());
        let n = times.len() as int;
        let e = edges.len() as int;
        assert((n - 1) * e + e == n * e) by (nonlinear_arith);
    }
}

/// An edge from a trigger to a task; the task's logical time is the firing's
/// shifted by the edge offset (none counts as zero).
#[derive(Copy, Clone, PartialEq, Eq, Structural, Debug)]
pub struct TriggerEdge {
    pub task_id: u128,
    pub edge_offset: Option<i64>,
}

pub open spec fn edge_token(e: TriggerEdge, t: int) -> Token {
    Token { task_id: e.task_id, trigger_datetime: (t + offset_or_zero(e.edge_offset)) as i64 }
}

/// An edge without an offset gives its task the firing's own logical time.
pub proof fn lemma_edge_offset_defaults_to_zero(task_id: u128, t: i64)
    ensures
        edge_token(TriggerEdge { task_id, edge_offset: None }, t as int) == (Token { task_id, trigger_datetime: t }),
{
}

pub open spec fn edges_wf(edges: Seq<TriggerEdge>) -> bool {
    forall|i: int| 0 <= i < edges.len() ==> valid_opt_instant(#[trigger] edges[i].edge_offset)
}

/// The tokens that a firing at `trigger_datetime` produces: one per edge, in
/// edge order.
pub fn activation_tokens(edges: &Vec<TriggerEdge>, trigger_datetime: i64) -> (r: Vec<Token>)
    requires
        edges_wf(edges@),
        valid_instant(trigger_datetime as int),
    ensures
        r@.len() == edges@.len(),
        forall|i: int| 0 <= i < r@.len() ==> #[trigger] r@[i] == edge_token(edges@[i], trigger_datetime as int),
{
    let mut tokens: Vec<Token> = Vec::new();
    let mut i: usize = 0;
    while i < edges.len()
        invariant
            i <= edges@.len(),
            tokens@.len() == i,
            edges_wf(edges@),
            valid_instant(trigger_datetime as int),
            forall|j: int| 0 <= j < i ==> #[trigger] tokens@[j] == edge_token(edges@[j], trigger_datetime as int),
        decreases edges@.len() - i,
    {
        let e = edges[i];
        assert(valid_opt_instant(edges@[i as int].edge_offset));
        let offset: i64 = match e.edge_offset {
            Some(o) => o,
            None => 0,
        };
        tokens.push(Token { task_id: e.task_id, trigger_datetime: trigger_datetime + offset });
        i = i + 1;
    }
    tokens
}

/// The earlier of a watermark and `t`; an unset watermark gives `t`.
pub open spec fn lower_mark(mark: Option<i64>, t: i64) -> i64 {
    match mark {
        Some(m) => if m < t { m } else { t },
        None => t,
    }
}

/// The later of a watermark and `t`; an unset watermark gives `t`.
pub open spec fn upper_mark(mark: Option<i64>, t: i64) -> i64 {
    match mark {
        Some(m) => if m > t { m } else { t },
        None => t,
    }
}

/// Records a firing at `t` in the trigger's watermarks: the earliest only
/// moves back, the latest only forward.
pub fn record_firing(trigger: &mut Trigger, t: i64)
    ensures
        final(trigger).earliest_trigger_datetime == Some(lower_mark(old(trigger).earliest_trigger_datetime, t)),
        final(trigger).latest_trigger_datetime == Some(upper_mark(old(trigger).latest_trigger_datetime, t)),
        final(trigger).id == old(trigger).id,
        final(trigger).start_datetime == old(trigger).start_datetime,
        final(trigger).end_datetime == old(trigger).end_datetime,
        final(trigger).period == old(trigger).period,
        final(trigger).cron == old(trigger).cron,
        final(trigger).trigger_offset == old(trigger).trigger_offset,
        final(trigger).catchup == old(trigger).catchup,
{
    let earliest = match trigger.earliest_trigger_datetime {
        Some(m) => if m < t { m } else { t },
        None => t,
    };
    let latest = match trigger.latest_trigger_datetime {
        Some(m) => if m > t { m } else { t },
        None => t,
    };
    trigger.earliest_trigger_datetime = Some(earliest);
    trigger.latest_trigger_datetime = Some(latest);
}

/// Activates a firing of `trigger` at `trigger_datetime`: increments the
/// token of each of its edges (with the task's in-degree as threshold),
/// records the firing in the trigger's watermarks, and returns the tokens
/// for a threshold check.
pub fn do_activate_trigger(
    table: &mut TokenTable,
    task_edges: &Vec<TaskEdge>,
    trigger: &mut Trigger,
    edges: &Vec<TriggerEdge>,
    trigger_datetime: i64,
) -> (r: Vec<Token>)
    requires
        old(table).wf(),
        edges_wf(edges@),
        valid_instant(trigger_datetime as int),
    ensures
        final(table).wf(),
        r@.len() == edges@.len(),
        forall|i: int| 0 <= i < r@.len() ==> #[trigger] r@[i] == edge_token(edges@[i], trigger_datetime as int),
        final(table)@ == bump_all(old(table)@, r@, task_edges@),
        final(trigger).earliest_trigger_datetime == Some(lower_mark(old(trigger).earliest_trigger_datetime, trigger_datetime)),
        final(trigger).latest_trigger_datetime == Some(upper_mark(old(trigger).latest_trigger_datetime, trigger_datetime)),
        final(trigger).id == old(trigger).id,
        final(trigger).start_datetime == old(trigger).start_datetime,
        final(trigger).end_datetime == old(trigger).end_datetime,
        final(trigger).period == old(trigger).period,
        final(trigger).cron == old(trigger).cron,
        final(trigger).trigger_offset == old(trigger).trigger_offset,
        final(trigger).catchup == old(trigger).catchup,
{
    let tokens = activation_tokens(edges, trigger_datetime);
    let ghost start = table@;
    let mut i: usize = 0;
    while i < tokens.len()
        invariant
            i <= tokens@.len(),
            table.wf(),
            table@ == bump_all(start, tokens@.subrange(0, i as int), task_edges@),
        decreases tokens@.len() - i,
    {
        let t = tokens[i];
        table.increment(t, threshold_of(task_edges, t.task_id));
        proof {
            assert(tokens@.subrange(0, i + 1).drop_last() =~= tokens@.subrange(0, i as int));
        }
        i = i + 1;
    }
    assert(tokens@.subrange(0, tokens@.len() as int) =~= tokens@);
    record_firing(trigger, trigger_datetime);
    tokens
}

/// The tokens that firings at `times` produce, firing by firing, each in
/// edge order.
pub open spec fn firing_tokens(edges: Seq<TriggerEdge>, times: Seq<i64>) -> Seq<Token>
    decreases times.len(),
{
    if times.len() == 0 {
        Seq::empty()
    } else {
        firing_tokens(edges, times.drop_last()) + edges.map_values(
            |e: TriggerEdge| edge_token(e, times.last() as int),
        )
    }
}

/// The earliest watermark after recording firings at `times` in turn.
pub open spec fn lower_all(mark: Option<i64>, times: Seq<i64>) -> Option<i64>
    decreases times.len(),
{
    if times.len() == 0 {
        mark
    } else {
        Some(lower_mark(lower_all(mark, times.drop_last()), times.last()))
    }
}

/// The latest watermark after recording firings at `times` in turn.
pub open spec fn upper_all(mark: Option<i64>, times: Seq<i64>) -> Option<i64>
    decreases times.len(),
{
    if times.len() == 0 {
        mark
    } else {
        Some(upper_mark(upper_all(mark, times.drop_last()), times.last()))
    }
}

/// Whether two rows describe the same trigger, watermarks aside.
pub open spec fn same_definition(a: Trigger, b: Trigger) -> bool {
    &&& a.id == b.id
    &&& a.start_datetime == b.start_datetime
    &&& a.end_datetime == b.end_datetime
    &&& a.period == b.period
    &&& a.cron == b.cron
    &&& a.trigger_offset == b.trigger_offset
    &&& a.catchup == b.catchup
}

/// After recording firings at `times` in turn, the watermarks bracket every
/// one of them, and they have only widened.
pub proof fn lemma_watermarks_bracket_all(earliest: Option<i64>, latest: Option<i64>, times: Seq<i64>)
    ensures
        forall|i: int| 0 <= i < times.len() ==> (lower_all(earliest, times) matches Some(e) && e <= #[trigger] times[i])
            && (upper_all(latest, times) matches Some(l) && times[i] <= l),
        earliest matches Some(e0) ==> (lower_all(earliest, times) matches Some(e) && e <= e0),
        latest matches Some(l0) ==> (upper_all(latest, times) matches Some(l) && l0 <= l),
    decreases times.len(),
{
    if times.len() > 0 {
        let pre = times.drop_last();
        lemma_watermarks_bracket_all(earliest, latest, pre);
        assert forall|i: int| 0 <= i < times.len() implies (lower_all(earliest, times) matches Some(e) && e
            <= #[trigger] times[i]) && (upper_all(latest, times) matches Some(l) && times[i] <= l) by {
            if i < pre.len() {
                assert(times[i] == pre[i]);
            }
        }
    }
}

/// Whether the watermarks bracket every firing in `fired`.
pub open spec fn brackets(earliest: Option<i64>, latest: Option<i64>, fired: Set<i64>) -> bool {
    forall|x: i64| #[trigger] fired.contains(x) ==> (earliest matches Some(e) && e <= x) && (latest matches Some(l)
        && x <= l)
}

/// If the watermarks bracket every earlier firing, then after recording a
/// firing at `t` they bracket every firing including `t`, and they have only
/// widened.
pub proof fn lemma_watermarks_bracket(earliest: Option<i64>, latest: Option<i64>, fired: Set<i64>, t: i64)
    requires
        brackets(earliest, latest, fired),
    ensures
        brackets(Some(lower_mark(earliest, t)), Some(upper_mark(latest, t)), fired.insert(t)),
        earliest matches Some(e) ==> lower_mark(earliest, t) <= e,
        latest matches Some(l) ==> l <= upper_mark(latest, t),
{
}

pub open spec fn ascending(s: Seq<Token>) -> bool {
    forall|i: int, j: int| 0 <= i < j < s.len() ==> s[i].trigger_datetime <= s[j].trigger_datetime
}

pub open spec fn descending(s: Seq<Token>) -> bool {
    forall|i: int, j: int| 0 <= i < j < s.len() ==> s[i].trigger_datetime >= s[j].trigger_datetime
}

/// Relies on std's slice::sort_by_key: a stable sort, here by logical time.
#[verifier::external_body]
fn sort_by_time(v: &mut Vec<Token>)
    ensures
        final(v)@.to_multiset() == old(v)@.to_multiset(),
        ascending(final(v)@),
{
    v.sort_by_key(|t| t.trigger_datetime)
}

/// Relies on rand's SliceRandom::shuffle with the thread-local generator:
/// the items are permuted.
#[verifier::external_body]
fn shuffle_tokens(v: &mut Vec<Token>)
    ensures
        final(v)@.to_multiset() == old(v)@.to_multiset(),
{
    v.shuffle(&mut rand::thread_rng())
}

fn reversed(v: &Vec<Token>) -> (r: Vec<Token>)
    ensures
        r@.len() == v@.len(),
        forall|i: int| 0 <= i < r@.len() ==> #[trigger] r@[i] == v@[v@.len() - 1 - i],
        r@.to_multiset() == v@.to_multiset(),
{
    let mut r: Vec<Token> = Vec::new();
    let mut i: usize = v.len();
    proof {
        assert(v@.subrange(i as int, v@.len() as int) =~= Seq::<Token>::empty());
        assert(r@ =~= Seq::<Token>::empty());
    }
    while i > 0
        invariant
            i <= v@.len(),
            r@.len() == v@.len() - i,
            forall|k: int| 0 <= k < r@.len() ==> #[trigger] r@[k] == v@[v@.len() - 1 - k],
            r@.to_multiset() == v@.subrange(i as int, v@.len() as int).to_multiset(),
        decreases i,
    {
        i = i - 1;
        let ghost before = r@;
        r.push(v[i]);
        proof {
            let tail = v@.subrange(i + 1, v@.len() as int);
            assert(v@.subrange(i as int, v@.len() as int) =~= tail.insert(0, v@[i as int]));
            vstd::seq_lib::to_multiset_insert(tail, 0, v@[i as int]);
            vstd::seq_lib::to_multiset_build(before, v@[i as int]);
        }
    }
    assert(v@.subrange(0, v@.len() as int) =~= v@);
    r
}

/// Orders backfilled tokens by the trigger's catchup policy: ascending
/// logical time for Earliest, descending for Latest, a random permutation
/// for Random; with catchup disabled there is nothing to order.
pub fn order_backfill(tokens: Vec<Token>, catchup: Catchup) -> (r: Vec<Token>)
    ensures
        r@.to_multiset() == tokens@.to_multiset(),
        catchup == Catchup::Earliest ==> ascending(r@),
        catchup == Catchup::Latest ==> descending(r@),
        catchup == Catchup::Disabled ==> r@ == tokens@,
{
    let mut tokens = tokens;
    match catchup {
        Catchup::Disabled => tokens,
        Catchup::Earliest => {
            sort_by_time(&mut tokens);
            tokens
        },
        Catchup::Latest => {
            sort_by_time(&mut tokens);
            let r = reversed(&tokens);
            assert forall|i: int, j: int| 0 <= i < j < r@.len() implies r@[i].trigger_datetime
                >= r@[j].trigger_datetime by {
                assert(r@[i] == tokens@[tokens@.len() - 1 - i]);
                assert(r@[j] == tokens@[tokens@.len() - 1 - j]);
            }
            r
        },
        Catchup::Random => {
            shuffle_tokens(&mut tokens);
            tokens
        },
    }
}

} // verus!
