use vstd::prelude::*;
use std::str::FromStr;
use chrono::{DateTime, Utc};
use cron::Schedule;

verus! {

/// The largest distance from the Unix epoch, in seconds, of an instant that
/// the scheduler works with (about 250,000 years either way).
pub const MAX_INSTANT: i64 = 8_000_000_000_000;

/// An instant, in whole seconds since the Unix epoch (UTC), that the
/// scheduler can represent.
pub open spec fn valid_instant(t: int) -> bool {
    -MAX_INSTANT <= t <= MAX_INSTANT
}

pub open spec fn valid_opt_instant(t: Option<i64>) -> bool {
    match t {
        Some(v) => valid_instant(v as int),
        None => true,
    }
}

/// How missed firings of a trigger are backfilled.
#[derive(Copy, Clone, PartialEq, Eq, Structural, Debug, Hash)]
pub enum Catchup {
    /// Missed firings are skipped.
    Disabled,
    Earliest,
    Latest,
    Random,
}

#[derive(Copy, Clone, PartialEq, Eq, Structural, Debug)]
pub enum ScheduleError {
    /// The cron expression does not parse.
    InvalidCron,
    /// Neither a cron expression nor a positive period is set.
    InvalidPeriod,
}

#[verifier::external_type_specification]
#[verifier::external_body]
pub struct ExCronError(cron::error::Error);

/// Whether a cron expression parses: it depends on the text alone.
pub uninterp spec fn cron_parses(expr: Seq<char>) -> bool;

/// The first firing of a cron expression strictly after `t`, in seconds
/// since the Unix epoch, if the expression parses and has a later firing.
pub uninterp spec fn cron_next(expr: Seq<char>, t: i64) -> Option<i64>;

/// Relies on cron::Schedule::from_str, which parses a cron expression.
#[verifier::external_body]
fn parse_cron(expr: &str) -> (r: Result<(), cron::error::Error>)
    ensures
        r is Ok <==> cron_parses(expr@),
{
    Schedule::from_str(expr)?;
    Ok(())
}

/// Relies on cron::Schedule::after and its iterator's first item, on the
/// schedule that cron::Schedule::from_str parses from `expr`: the first
/// firing strictly after `t` (the search starts one second after it).
#[verifier::external_body]
fn cron_next_after(expr: &str, t: i64) -> (r: Option<i64>)
    requires
        valid_instant(t as int),
    ensures
        r == cron_next(expr@, t),
        r matches Some(n) ==> t < n,
{
    let schedule = Schedule::from_str(expr).ok()?;
    let start = DateTime::<Utc>::from_timestamp(t, 0)?;
    let next = schedule.after(&start).next()?;
    Some(next.timestamp())
}

/// How a trigger advances from one firing to the next.
pub enum Period {
    /// A fixed number of seconds.
    Duration(i64),
    /// A cron schedule, by its expression, which parses.
    Cron(String),
}

pub open spec fn positive_period(p: &Period) -> bool {
    p is Duration ==> p->Duration_0 > 0
}

/// A recurring trigger, as stored. Instants are seconds since the Unix epoch.
#[derive(Clone, Debug)]
pub struct Trigger {
    pub id: u128,
    pub start_datetime: i64,
    pub end_datetime: Option<i64>,
    pub earliest_trigger_datetime: Option<i64>,
    pub latest_trigger_datetime: Option<i64>,
    /// Seconds between firings, used when no cron expression is set.
    pub period: Option<i64>,
    pub cron: Option<String>,
    /// Seconds by which each firing is delayed past its trigger datetime.
    pub trigger_offset: Option<i64>,
    pub catchup: Catchup,
}

/// A firing of a trigger: the logical time, and the time it is due.
#[derive(Copy, Clone, PartialEq, Eq, Structural, Debug, Hash)]
pub struct TriggerTime {
    pub trigger_id: u128,
    pub trigger_datetime: i64,
    pub scheduled_datetime: i64,
}

/// An absent offset counts as no offset.
pub open spec fn offset_or_zero(o: Option<i64>) -> int {
    match o {
        Some(v) => v as int,
        None => 0,
    }
}

impl Trigger {
    /// All instants are representable, and so is the offset.
    pub open spec fn wf(&self) -> bool {
        &&& valid_instant(self.start_datetime as int)
        &&& valid_opt_instant(self.end_datetime)
        &&& valid_opt_instant(self.earliest_trigger_datetime)
        &&& valid_opt_instant(self.latest_trigger_datetime)
        &&& valid_opt_instant(self.trigger_offset)
    }

    pub fn is_well_formed(&self) -> (r: bool)
        ensures
            r == self.wf(),
    {
        within(self.start_datetime) && opt_within(self.end_datetime) && opt_within(
            self.earliest_trigger_datetime,
        ) && opt_within(self.latest_trigger_datetime) && opt_within(self.trigger_offset)
    }

    /// Whether the trigger has a period: a cron expression that parses, or,
    /// without one, a positive number of seconds.
    pub open spec fn schedulable(&self) -> bool {
        match self.cron {
            Some(c) => cron_parses(c@),
            None => self.period matches Some(p) && p > 0,
        }
    }

    /// The trigger's period: its cron schedule when one is set, else its
    /// period in seconds, which must be positive.
    pub fn period(&self) -> (r: Result<Period, ScheduleError>)
        ensures
            r is Ok <==> self.schedulable(),
            r matches Ok(p) ==> positive_period(&p) && period_of(*self) == Some(p),
            self.cron matches Some(c) ==> (r is Ok <==> cron_parses(c@)) && (r is Ok ==> r->Ok_0 is Cron)
                && (r is Err ==> r->Err_0 == ScheduleError::InvalidCron),
            self.cron is None ==> match self.period {
                Some(p) if p > 0 => r matches Ok(Period::Duration(d)) && d == p,
                _ => r == Err::<Period, ScheduleError>(ScheduleError::InvalidPeriod),
            },
    {
        match &self.cron {
            Some(c) => match parse_cron(c.as_str()) {
                Ok(()) => Ok(Period::Cron(c.clone())),
                Err(_) => Err(ScheduleError::InvalidCron),
            },
            None => match self.period {
                Some(p) => if p > 0 {
                    Ok(Period::Duration(p))
                } else {
                    Err(ScheduleError::InvalidPeriod)
                },
                None => Err(ScheduleError::InvalidPeriod),
            },
        }
    }

    /// The delay of each firing; none counts as zero.
    pub fn offset_duration(&self) -> (r: i64)
        ensures
            r as int == offset_or_zero(self.trigger_offset),
    {
        match self.trigger_offset {
            Some(o) => o,
            None => 0,
        }
    }

    /// The firing of this trigger at `datetime`.
    pub fn at(&self, datetime: i64) -> (r: TriggerTime)
        requires
            self.wf(),
            valid_instant(datetime as int),
        ensures
            r == self.at_spec(datetime),
    {
        TriggerTime {
            scheduled_datetime: datetime + self.offset_duration(),
            trigger_datetime: datetime,
            trigger_id: self.id,
        }
    }

    pub open spec fn at_spec(&self, datetime: i64) -> TriggerTime {
        TriggerTime {
            trigger_id: self.id,
            trigger_datetime: datetime,
            scheduled_datetime: (datetime + offset_or_zero(self.trigger_offset)) as i64,
        }
    }
}

/// A trigger without an offset fires at the firing's own logical time.
pub proof fn lemma_trigger_offset_defaults_to_zero(tr: Trigger, datetime: i64)
    requires
        tr.trigger_offset is None,
    ensures
        tr.at_spec(datetime).scheduled_datetime == datetime,
{
}

fn within(t: i64) -> (r: bool)
    ensures
        r == valid_instant(t as int),
{
    -MAX_INSTANT <= t && t <= MAX_INSTANT
}

fn opt_within(t: Option<i64>) -> (r: bool)
    ensures
        r == valid_opt_instant(t),
{
    match t {
        Some(v) => within(v),
        None => true,
    }
}

/// The period a trigger has, if it is schedulable.
pub open spec fn period_of(tr: Trigger) -> Option<Period> {
    match tr.cron {
        Some(c) => if cron_parses(c@) { Some(Period::Cron(c)) } else { None },
        None => match tr.period {
            Some(p) => if p > 0 { Some(Period::Duration(p)) } else { None },
            None => None,
        },
    }
}

/// One step of a fixed period from `t`, if it lands on a representable instant.
pub open spec fn duration_step(t: int, d: int) -> Option<int> {
    if valid_instant(t + d) {
        Some(t + d)
    } else {
        None
    }
}

/// One step of a period from `t`: the next firing, when it is a
/// representable instant.
pub open spec fn step(p: Period, t: int) -> Option<int> {
    match p {
        Period::Duration(d) => duration_step(t, d as int),
        Period::Cron(e) => if valid_instant(t) {
            match cron_next(e@, t as i64) {
                Some(n) => if valid_instant(n as int) { Some(n as int) } else { None },
                None => None,
            }
        } else {
            None
        },
    }
}

/// The next firing after `t`: `t` plus the period, or the cron schedule's
/// next firing. None when that is not a representable instant, or the
/// schedule has no later firing.
pub fn advance(t: i64, period: &Period) -> (r: Option<i64>)
    requires
        valid_instant(t as int),
    ensures
        opt_int(r) == step(*period, t as int),
        r matches Some(n) ==> valid_instant(n as int),
        period is Cron ==> (r matches Some(n) ==> t < n),
{
    match period {
        Period::Duration(d) => {
            if *d > 0 {
                if *d <= MAX_INSTANT - t {
                    Some(t + *d)
                } else {
                    None
                }
            } else {
                if *d >= -MAX_INSTANT - t {
                    Some(t + *d)
                } else {
                    None
                }
            }
        },
        Period::Cron(s) => match cron_next_after(s.as_str(), t) {
            Some(n) => if n <= MAX_INSTANT {
                Some(n)
            } else {
                None
            },
            None => None,
        },
    }
}

/// The instants passed when stepping from `from` by the period while
/// before `until`.
pub open spec fn steps(p: Period, from: int, until: int) -> Seq<int>
    decreases (if from < until { until - from } else { 0 }),
{
    if from >= until {
        Seq::empty()
    } else {
        match step(p, from) {
            Some(n) => if n > from {
                seq![from] + steps(p, n, until)
            } else {
                seq![from]
            },
            None => seq![from],
        }
    }
}

/// The first instant reached that is not before `until`; None when
/// stepping ran out of representable instants, or the schedule ended.
pub open spec fn steps_end(p: Period, from: int, until: int) -> Option<int>
    decreases (if from < until { until - from } else { 0 }),
{
    if from >= until {
        Some(from)
    } else {
        match step(p, from) {
            Some(n) => if n > from {
                steps_end(p, n, until)
            } else {
                None
            },
            None => None,
        }
    }
}

pub open spec fn opt_int(o: Option<i64>) -> Option<int> {
    match o {
        Some(v) => Some(v as int),
        None => None,
    }
}

pub open spec fn as_ints(s: Seq<i64>) -> Seq<int> {
    s.map_values(|x: i64| x as int)
}

pub open spec fn strictly_increasing(s: Seq<i64>) -> bool {
    forall|i: int, j: int| 0 <= i < j < s.len() ==> s[i] < s[j]
}

/// Walks from `from` in period steps while before `until`: the instants
/// passed, and the first one at or after `until` (None when stepping ran
/// out of representable instants, or the schedule ended).
pub fn walk(from: i64, until: i64, period: &Period) -> (r: (Vec<i64>, Option<i64>))
    requires
        valid_instant(from as int),
        valid_instant(until as int),
        positive_period(period),
    ensures
        as_ints(r.0@) == steps(*period, from as int, until as int),
        opt_int(r.1) == steps_end(*period, from as int, until as int),
        strictly_increasing(r.0@),
        forall|i: int| 0 <= i < r.0@.len() ==> from <= #[trigger] r.0@[i] < until,
        r.1 matches Some(n) ==> until <= n && valid_instant(n as int),
{
    let mut times: Vec<i64> = Vec::new();
    let mut cur: i64 = from;
    loop
        invariant
            valid_instant(cur as int),
            from <= cur,
            as_ints(times@) + steps(*period, cur as int, until as int) == steps(*period, from as int, until as int),
            steps_end(*period, cur as int, until as int) == steps_end(*period, from as int, until as int),
            strictly_increasing(times@),
            forall|i: int| 0 <= i < times@.len() ==> from <= #[trigger] times@[i] < until && times@[i] < cur,
            positive_period(period),
            valid_instant(until as int),
        decreases (if cur < until { until - cur } else { 0 }),
    {
        if cur >= until {
            proof {
                assert(as_ints(times@) =~= as_ints(times@) + steps(*period, cur as int, until as int));
            }
            return (times, Some(cur));
        }
        let ghost before = times@;
        times.push(cur);
        let next = advance(cur, period);
        proof {
            assert(as_ints(times@) =~= as_ints(before).push(cur as int));
            if let Period::Duration(d) = period {
                if let Some(n) = next {
                    assert(n == cur + *d);
                }
            }
        }
        match next {
            Some(n) => {
                proof {
                    assert(as_ints(times@) + steps(*period, n as int, until as int) =~= as_ints(before)
                        + steps(*period, cur as int, until as int));
                }
                cur = n;
            },
            None => {
                proof {
                    assert(steps(*period, cur as int, until as int) =~= seq![cur as int]);
                    assert(as_ints(times@) =~= steps(*period, from as int, until as int));
                }
                return (times, None);
            },
        }
    }
}

} // verus!
