//! The connection limit: counting connections and deciding, for each one
//! accepted, whether it is served, and whether accepting pauses.
use vstd::prelude::*;

verus! {

/// The counters and the state of the connection limit.
pub struct ConnectionLimiter {
    max: u64,
    maxconns_fast: bool,
    curr: u64,
    total: u64,
    rejected: u64,
    listen_disabled_num: u64,
    accepting: bool,
}

pub struct LimiterView {
    /// The limit; 0 means none.
    pub max: u64,
    /// Refuse connections over the limit at once, rather than serve them
    /// and pause accepting.
    pub maxconns_fast: bool,
    /// Connections being served.
    pub curr: u64,
    /// Connections accepted so far.
    pub total: u64,
    /// Connections refused.
    pub rejected: u64,
    /// Times accepting was paused.
    pub listen_disabled_num: u64,
    /// Whether new connections are accepted.
    pub accepting: bool,
}

impl View for ConnectionLimiter {
    type V = LimiterView;

    closed spec fn view(&self) -> LimiterView {
        LimiterView {
            max: self.max,
            maxconns_fast: self.maxconns_fast,
            curr: self.curr,
            total: self.total,
            rejected: self.rejected,
            listen_disabled_num: self.listen_disabled_num,
            accepting: self.accepting,
        }
    }
}

/// `n + 1`, wrapping at the largest `u64` as an atomic counter does.
pub open spec fn inc(n: u64) -> u64 {
    if n == u64::MAX {
        0
    } else {
        (n + 1) as u64
    }
}

/// The state after a connection arrives, and whether it is served.
pub open spec fn spec_try_acquire(v: LimiterView) -> (LimiterView, bool) {
    let v1 = LimiterView { total: inc(v.total), ..v };
    if v.max == 0 {
        (LimiterView { curr: inc(v.curr), ..v1 }, true)
    } else if v.curr + 1 > v.max {
        if v.maxconns_fast {
            (LimiterView { rejected: inc(v.rejected), ..v1 }, false)
        } else {
            (
                LimiterView {
                    accepting: false,
                    listen_disabled_num: inc(v.listen_disabled_num),
                    curr: (v.curr + 1) as u64,
                    ..v1
                },
                true,
            )
        }
    } else {
        (LimiterView { curr: (v.curr + 1) as u64, ..v1 }, true)
    }
}

/// The state after a served connection ends, and whether a paused accept
/// is to be woken: where accepting was paused and the count is back under
/// the limit, accepting resumes.
pub open spec fn spec_release(v: LimiterView) -> (LimiterView, bool) {
    let now = (v.curr - 1) as u64;
    if v.max != 0 && now < v.max && !v.accepting {
        (LimiterView { curr: now, accepting: true, ..v }, true)
    } else {
        (LimiterView { curr: now, ..v }, false)
    }
}

/// What `try_acquire` asks of the state: the count can grow by one where a
/// limit is set.
pub open spec fn can_acquire(v: LimiterView) -> bool {
    v.max != 0 ==> v.curr < u64::MAX
}

impl ConnectionLimiter {
    /// A limiter with limit `max` (0: none) that accepts.
    pub fn new(max: u64, maxconns_fast: bool) -> (res: Self)
        ensures
            res@ == (LimiterView {
                max,
                maxconns_fast,
                curr: 0,
                total: 0,
                rejected: 0,
                listen_disabled_num: 0,
                accepting: true,
            }),
    {
        Self {
            max,
            maxconns_fast,
            curr: 0,
            total: 0,
            rejected: 0,
            listen_disabled_num: 0,
            accepting: true,
        }
    }

    /// Counts an arriving connection; whether it is served.
    pub fn try_acquire(&mut self) -> (res: bool)
        requires
            can_acquire(old(self)@),
        ensures
            (final(self)@, res) == spec_try_acquire(old(self)@),
    {
        self.total = self.total.wrapping_add(1);
        if self.max == 0 {
            self.curr = self.curr.wrapping_add(1);
            return true;
        }
        let curr = self.curr + 1;
        if curr > self.max {
            if self.maxconns_fast {
                self.rejected = self.rejected.wrapping_add(1);
                return false;
            } else {
                self.accepting = false;
                self.listen_disabled_num = self.listen_disabled_num.wrapping_add(1);
                self.curr = curr;
            }
        } else {
            self.curr = curr;
        }
        true
    }

    /// Counts a served connection's end; whether a paused accept is to be
    /// woken.
    pub fn release(&mut self) -> (res: bool)
        requires
            old(self)@.curr > 0,
        ensures
            (final(self)@, res) == spec_release(old(self)@),
    {
        self.curr = self.curr - 1;
        let now = self.curr;
        if self.max != 0 && now < self.max && !self.accepting {
            self.accepting = true;
            return true;
        }
        false
    }

    pub fn curr_connections(&self) -> (res: u64)
        ensures
            res == self@.curr,
    {
        self.curr
    }

    pub fn total_connections(&self) -> (res: u64)
        ensures
            res == self@.total,
    {
        self.total
    }

    pub fn rejected_connections(&self) -> (res: u64)
        ensures
            res == self@.rejected,
    {
        self.rejected
    }

    pub fn listen_disabled_num(&self) -> (res: u64)
        ensures
            res == self@.listen_disabled_num,
    {
        self.listen_disabled_num
    }

    pub fn is_accepting(&self) -> (res: bool)
        ensures
            res == self@.accepting,
    {
        self.accepting
    }

    pub fn max_connections(&self) -> (res: u64)
        ensures
            res == self@.max,
    {
        self.max
    }
}

/// Every arriving connection is counted, served or not.
pub proof fn law_every_arrival_counted(v: LimiterView)
    ensures
        spec_try_acquire(v).0.total == inc(v.total),
{
}

/// A served connection raises the live count by one, and its end lowers it
/// by one again: acquiring and then releasing leaves the count as it was.
pub proof fn law_acquire_release_restores_count(v: LimiterView)
    requires
        can_acquire(v),
        v.curr < u64::MAX,
    ensures
        spec_try_acquire(v).1 ==> spec_try_acquire(v).0.curr == v.curr + 1,
        spec_try_acquire(v).1 ==> spec_release(spec_try_acquire(v).0).0.curr == v.curr,
        !spec_try_acquire(v).1 ==> spec_try_acquire(v).0.curr == v.curr,
{
}

/// With a limit in fast mode the live count never exceeds the limit: a
/// connection over it is refused and counted as rejected.
pub proof fn law_fast_mode_keeps_limit(v: LimiterView)
    requires
        v.max != 0,
        v.maxconns_fast,
        v.curr <= v.max,
    ensures
        spec_try_acquire(v).0.curr <= v.max,
        spec_try_acquire(v).1 <==> v.curr < v.max,
        !spec_try_acquire(v).1 ==> spec_try_acquire(v).0.rejected == inc(v.rejected),
{
}

/// Connections are only refused in fast mode with a limit; otherwise each
/// is served.
pub proof fn law_refused_only_in_fast_mode(v: LimiterView)
    requires
        can_acquire(v),
    ensures
        !spec_try_acquire(v).1 ==> v.maxconns_fast && v.max != 0,
        !spec_try_acquire(v).1 ==> spec_try_acquire(v).0.rejected == inc(v.rejected),
        spec_try_acquire(v).1 ==> spec_try_acquire(v).0.rejected == v.rejected,
{
}

/// An arriving connection pauses accepting only where a limit is set, fast
/// mode is off and the connection is over the limit; otherwise accepting
/// stays as it was (with no limit it is never paused).
pub proof fn law_accepting_pauses_only_over_limit(v: LimiterView)
    ensures
        spec_try_acquire(v).0.accepting == (v.accepting && !(v.max != 0 && !v.maxconns_fast
            && v.curr + 1 > v.max)),
        v.max == 0 ==> spec_try_acquire(v).0.accepting == v.accepting,
        spec_try_acquire(v).0.max == v.max,
        spec_try_acquire(v).0.maxconns_fast == v.maxconns_fast,
{
}

/// The end of a connection resumes accepting only where a limit is set and
/// the count falls under it; it never pauses accepting.
pub proof fn law_release_only_resumes(v: LimiterView)
    requires
        v.curr > 0,
    ensures
        spec_release(v).0.accepting == (v.accepting || (v.max != 0 && v.curr - 1 < v.max)),
        spec_release(v).0.curr == v.curr - 1,
        spec_release(v).1 == (!v.accepting && spec_release(v).0.accepting),
{
}

/// Without fast mode, a connection over the limit is served but pauses
/// accepting.
pub proof fn law_pause_over_limit(v: LimiterView)
    requires
        v.max != 0,
        !v.maxconns_fast,
        v.curr >= v.max,
        v.curr < u64::MAX,
    ensures
        spec_try_acquire(v).1,
        !spec_try_acquire(v).0.accepting,
        spec_try_acquire(v).0.listen_disabled_num == inc(v.listen_disabled_num),
{
}

/// While accepting is paused, the end of a connection that brings the
/// count under the limit resumes accepting and wakes the paused accept;
/// any other end leaves it paused.
pub proof fn law_resume_under_limit(v: LimiterView)
    requires
        v.max != 0,
        !v.accepting,
        v.curr > 0,
    ensures
        spec_release(v).1 <==> v.curr - 1 < v.max,
        spec_release(v).0.accepting == spec_release(v).1,
{
}

} // verus!
