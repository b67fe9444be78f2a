//! Wall-clock decisions: the daily quota-reset instant, the lazy reset check, and
//! the cadences of credential sync and proxy refresh. Times are milliseconds since
//! the Unix epoch, UTC.
use vstd::prelude::*;
use vstd::arithmetic::div_mod::lemma_fundamental_div_mod_converse;

verus! {

pub const MS_PER_DAY: i64 = 86_400_000;

/// Normal interval between two credential syncs.
pub const SYNC_INTERVAL_MS: i64 = 300_000;

/// Elapsed time after which a credential sync happens whatever the activity.
pub const FORCE_SYNC_MS: i64 = 28_800_000;

/// Least time between two proxy-list refreshes.
pub const PROXY_REFRESH_DEBOUNCE_MS: i64 = 300_000;

/// The day number of instant `t` (day 0 starts at the epoch).
pub open spec fn day_of(t: int) -> int {
    t / (MS_PER_DAY as int)
}

/// Milliseconds since midnight UTC at instant `t`.
pub open spec fn time_of_day(t: int) -> int {
    t % (MS_PER_DAY as int)
}

pub proof fn lemma_day_split(t: int, day: int, tod: int)
    requires
        0 <= tod < MS_PER_DAY,
        t == day * MS_PER_DAY + tod,
    ensures
        day_of(t) == day,
        time_of_day(t) == tod,
{
    lemma_fundamental_div_mod_converse(t, MS_PER_DAY as int, day, tod);
}

/// The day number and time of day of `t`.
pub fn split_day(t: i64) -> (r: (i64, i64))
    ensures
        r.0 == day_of(t as int),
        r.1 == time_of_day(t as int),
{
    if t >= 0 {
        let u = t as u64;
        let day = (u / (MS_PER_DAY as u64)) as i64;
        let tod = (u % (MS_PER_DAY as u64)) as i64;
        proof {
            lemma_day_split(t as int, day as int, tod as int);
        }
        (day, tod)
    } else {
        let u = (-(t + 1)) as u64;
        let q = (u / (MS_PER_DAY as u64)) as i64;
        let m = (u % (MS_PER_DAY as u64)) as i64;
        let day = -q - 1;
        let tod = MS_PER_DAY - 1 - m;
        proof {
            assert(u == q * MS_PER_DAY + m);
            assert(t == day * MS_PER_DAY + tod) by (nonlinear_arith)
                requires
                    u == q * MS_PER_DAY + m,
                    u == -(t + 1),
                    day == -q - 1,
                    tod == MS_PER_DAY - 1 - m,
            ;
            lemma_day_split(t as int, day as int, tod as int);
        }
        (day, tod)
    }
}

/// A lazy reset is due at `now` when today's reset time has come and no check
/// since today's reset time has been recorded (`last_check` is the previous check).
pub open spec fn reset_due(now: int, last_check: int, reset_at: int) -> bool {
    &&& time_of_day(now) >= reset_at
    &&& !(day_of(last_check) == day_of(now) && time_of_day(last_check) >= reset_at)
}

/// Decides whether the lazy quota reset fires at `now`.
pub fn handle_reset_check(now: i64, last_check: i64, reset_at: i64) -> (r: bool)
    ensures
        r == reset_due(now as int, last_check as int, reset_at as int),
{
    let (day, tod) = split_day(now);
    if tod < reset_at {
        return false;
    }
    let (last_day, last_tod) = split_day(last_check);
    !(last_day == day && last_tod >= reset_at)
}

/// The daily reset check of one provider: its reset time of day and the time of
/// its previous check.
#[derive(Clone, Copy, PartialEq, Eq, Structural, Debug)]
pub struct ResetClock {
    pub reset_at: i64,
    pub last_check: i64,
}

impl ResetClock {
    pub fn new(reset_at: i64, now: i64) -> (r: ResetClock)
        ensures
            r.reset_at == reset_at,
            r.last_check == now,
    {
        ResetClock { reset_at, last_check: now }
    }

    /// Records a check at `now` and says whether the reset fires on it.
    pub fn check(&mut self, now: i64) -> (r: bool)
        ensures
            r == reset_due(now as int, old(self).last_check as int, old(self).reset_at as int),
            final(self).reset_at == old(self).reset_at,
            final(self).last_check == now,
    {
        let r = handle_reset_check(now, self.last_check, self.reset_at);
        self.last_check = now;
        r
    }
}

/// Once the reset has fired at `now`, later checks on the same day do not fire
/// it again.
pub proof fn lemma_reset_fires_once(reset_at: int, last_check: int, now: int, later: int)
    requires
        reset_due(now, last_check, reset_at),
        now <= later,
        day_of(later) == day_of(now),
    ensures
        !reset_due(later, now, reset_at),
{
}

/// `t` is the first instant strictly after `now` whose time of day is `reset_at`.
pub open spec fn is_next_reset(now: int, reset_at: int, t: int) -> bool {
    &&& now < t
    &&& time_of_day(t) == reset_at
    &&& forall|u: int| now < u < t ==> time_of_day(u) != reset_at
}

/// The next occurrence of time of day `reset_at` strictly after `now`.
pub fn next_reset_after(now: i64, reset_at: i64) -> (r: i64)
    requires
        0 <= reset_at < MS_PER_DAY,
        i64::MIN + MS_PER_DAY <= now <= i64::MAX - 2 * MS_PER_DAY,
    ensures
        is_next_reset(now as int, reset_at as int, r as int),
        r - now <= MS_PER_DAY,
{
    let (day, tod) = split_day(now);
    let base = now - tod;
    proof {
        assert(base == day * MS_PER_DAY) by {
            vstd::arithmetic::div_mod::lemma_fundamental_div_mod(now as int, MS_PER_DAY as int);
        }
    }
    let r = if tod < reset_at {
        base + reset_at
    } else {
        base + MS_PER_DAY + reset_at
    };
    proof {
        let d = day as int;
        if tod < reset_at {
            lemma_day_split(r as int, d, reset_at as int);
            assert forall|u: int| now < u < r implies time_of_day(u) != reset_at by {
                lemma_day_split(u, d, u - base);
            }
        } else {
            assert(r == (d + 1) * MS_PER_DAY + reset_at) by (nonlinear_arith)
                requires
                    r == base + MS_PER_DAY + reset_at,
                    base == d * MS_PER_DAY,
            ;
            lemma_day_split(r as int, d + 1, reset_at as int);
            assert forall|u: int| now < u < r implies time_of_day(u) != reset_at by {
                if u < base + MS_PER_DAY {
                    lemma_day_split(u, d, u - base);
                } else {
                    assert(u == (d + 1) * MS_PER_DAY + (u - base - MS_PER_DAY)) by (nonlinear_arith)
                        requires
                            base == d * MS_PER_DAY,
                    ;
                    lemma_day_split(u, d + 1, u - base - MS_PER_DAY);
                }
            }
        }
    }
    r
}

/// A credential sync is due when the force interval has passed since the last one,
/// or the normal interval has passed and some key was used within the normal
/// interval before `now` (`latest_use` is the newest `used_at` of all keys).
pub open spec fn sync_due_spec(now: int, last_sync: int, latest_use: Option<i64>) -> bool {
    ||| now - last_sync > FORCE_SYNC_MS
    ||| (now - last_sync > SYNC_INTERVAL_MS && (match latest_use {
        Some(u) => now - u < SYNC_INTERVAL_MS,
        None => false,
    }))
}

pub fn sync_due(now: i64, last_sync: i64, latest_use: Option<i64>) -> (r: bool)
    ensures
        r == sync_due_spec(now as int, last_sync as int, latest_use),
{
    let elapsed = now as i128 - last_sync as i128;
    if elapsed > FORCE_SYNC_MS as i128 {
        return true;
    }
    if elapsed <= SYNC_INTERVAL_MS as i128 {
        return false;
    }
    match latest_use {
        Some(u) => (now as i128 - u as i128) < SYNC_INTERVAL_MS as i128,
        None => false,
    }
}

/// A proxy refresh is due when the debounce window has passed since the last one.
pub fn refresh_due(now: i64, last_refresh: i64) -> (r: bool)
    ensures
        r == (now - last_refresh > PROXY_REFRESH_DEBOUNCE_MS),
{
    (now as i128 - last_refresh as i128) > PROXY_REFRESH_DEBOUNCE_MS as i128
}

/// Relies on chrono's `Utc::now` and `DateTime::timestamp_millis`: the current UTC
/// time in milliseconds since the Unix epoch. Nothing is promised of its value.
#[verifier::external_body]
pub(crate) fn now_millis() -> (r: i64) {
    chrono::Utc::now().timestamp_millis()
}

} // verus!
