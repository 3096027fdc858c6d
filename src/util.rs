use vstd::prelude::*;
use vstd::string::StringSliceAdditionalSpecFns;

verus! {

/// How humantime writes a whole number of seconds.
pub uninterp spec fn humantime_text(secs: u64) -> Seq<char>;

/// Relies on humantime::format_duration and its Display impl, which writes
/// a zero duration as "0s".
#[verifier::external_body]
fn humantime_seconds(secs: u64) -> (r: String)
    ensures
        r@ == humantime_text(secs),
        secs == 0 ==> r@ == "0s"@,
{
    humantime::format_duration(std::time::Duration::from_secs(secs)).to_string()
}

pub open spec fn abs_seconds(seconds: i64) -> u64 {
    if seconds < 0 {
        (-(seconds as int)) as u64
    } else {
        seconds as u64
    }
}

/// A duration in seconds in human readable form; a negative duration is
/// written as its length.
pub fn format_duration_approx(seconds: i64) -> (r: String)
    ensures
        r@ == humantime_text(abs_seconds(seconds)),
{
    let secs: u64 = if seconds < 0 {
        (-(seconds as i128)) as u64
    } else {
        seconds as u64
    };
    humantime_seconds(secs)
}

/// Whether a database error code is in the integrity constraint class (a
/// unique key or a foreign key failed): the class is the code's first two
/// characters, "23".
pub fn is_pg_integrity_error(code: &str) -> (r: bool)
    ensures
        r == (code.spec_bytes().len() >= 2 && code.spec_bytes()[0] == 50u8 && code.spec_bytes()[1] == 51u8),
{
    let b = code.as_bytes();
    b.len() >= 2 && b[0] == 50u8 && b[1] == 51u8
}

/// Restarts a supervised task until it fails too often too quickly: a
/// restart is refused once `limit` starts lie within `window` seconds.
pub struct CircuitBreaker {
    limit: usize,
    window: i64,
    starts: Vec<i64>,
}

/// Whether a start at `t` is within the window that ends at `now`.
pub open spec fn recent(t: i64, now: i64, window: i64) -> bool {
    now - window < t && t <= now
}

impl CircuitBreaker {
    pub closed spec fn limit(&self) -> nat {
        self.limit as nat
    }

    pub closed spec fn window(&self) -> i64 {
        self.window
    }

    /// The recorded starts.
    pub closed spec fn starts(&self) -> Seq<i64> {
        self.starts@
    }

    pub fn new(limit: usize, window: i64) -> (r: CircuitBreaker)
        requires
            window >= 0,
        ensures
            r.limit() == limit,
            r.window() == window,
            r.starts() == Seq::<i64>::empty(),
    {
        CircuitBreaker { limit, window, starts: Vec::new() }
    }

    /// Asks to start the task at `now`: true unless `limit` earlier starts
    /// lie within the window. The start is recorded either way, and starts
    /// that have left the window are forgotten.
    pub fn retry(&mut self, now: i64) -> (r: bool)
        requires
            old(self).window() >= 0,
            now >= i64::MIN + old(self).window(),
        ensures
            r == (old(self).starts().filter(|t: i64| recent(t, now, old(self).window())).len() < old(self).limit()),
            final(self).starts() == old(self).starts().filter(|t: i64| recent(t, now, old(self).window())).push(now),
            final(self).limit() == old(self).limit(),
            final(self).window() == old(self).window(),
    {
        let ghost f = |t: i64| recent(t, now, self.window);
        let mut kept: Vec<i64> = Vec::new();
        let mut i: usize = 0;
        while i < self.starts.len()
            invariant
                i <= self.starts@.len(),
                kept@ == self.starts@.subrange(0, i as int).filter(f),
                f == (|t: i64| recent(t, now, self.window)),
                self.window >= 0,
                now >= i64::MIN + self.window,
            decreases self.starts@.len() - i,
        {
            proof {
                reveal(Seq::filter);
                assert(self.starts@.subrange(0, i + 1).drop_last() =~= self.starts@.subrange(0, i as int));
            }
            let t = self.starts[i];
            if now - self.window < t && t <= now {
                kept.push(t);
            }
            i = i + 1;
        }
        assert(self.starts@.subrange(0, self.starts@.len() as int) =~= self.starts@);
        let allowed = kept.len() < self.limit;
        kept.push(now);
        self.starts = kept;
        allowed
    }
}

/// What waiting for the server does after an initial heartbeat.
#[derive(Copy, Clone, PartialEq, Eq, Structural, Debug)]
pub enum HeartbeatStep {
    /// The server recorded the worker: start work.
    Ready,
    /// Try again after a pause, with this many tries left.
    Retry(u32),
    /// No try is left: give up.
    GiveUp,
}

/// Decides, after a heartbeat, whether the worker may start, should try
/// again, or has run out of tries.
pub fn after_heartbeat(accepted: bool, tries_left: u32) -> (r: HeartbeatStep)
    ensures
        accepted ==> r == HeartbeatStep::Ready,
        !accepted && tries_left <= 1 ==> r == HeartbeatStep::GiveUp,
        !accepted && tries_left > 1 ==> r == HeartbeatStep::Retry((tries_left - 1) as u32),
{
    if accepted {
        HeartbeatStep::Ready
    } else if tries_left <= 1 {
        HeartbeatStep::GiveUp
    } else {
        HeartbeatStep::Retry(tries_left - 1)
    }
}

} // verus!
