//! The practice timer: one day's session, accumulated across pauses. The
//! caller supplies the clock, as whole milliseconds.

use vstd::prelude::*;
use crate::text::{decimal, int_text, owned, push_str};

verus! {

/// A running or paused practice session, bound to the day it was started on.
#[derive(Debug)]
pub struct PracticeTimer {
    pub day_id: i64,
    /// Milliseconds banked by segments that have already been paused.
    banked: i64,
    /// Clock reading when the current segment began; `None` while paused.
    running_since: Option<i64>,
}

impl Clone for PracticeTimer {
    fn clone(&self) -> (r: Self)
        ensures
            r == *self,
    {
        proof {
            use_type_invariant(self);
        }
        PracticeTimer { day_id: self.day_id, banked: self.banked, running_since: self.running_since }
    }
}

/// Length of one run segment. A clock that reads backwards - a machine resumed
/// from sleep, say - must never subtract from time already practised.
pub open spec fn segment(since: int, now: int) -> int {
    if now > since {
        now - since
    } else {
        0
    }
}

/// Whole minutes in `ms` milliseconds, to the nearest minute, halves up.
pub open spec fn rounded_minutes(ms: int) -> int {
    (ms + 30_000) / 60_000
}

impl PracticeTimer {
    #[verifier::type_invariant]
    spec fn banked_is_time(self) -> bool {
        self.banked >= 0
    }

    /// The day the session was started on.
    pub closed spec fn day(self) -> i64 {
        self.day_id
    }

    /// Milliseconds banked by segments already paused.
    pub closed spec fn banked_ms(self) -> int {
        self.banked as int
    }

    /// When the running segment began, or `None` while paused.
    pub closed spec fn since(self) -> Option<i64> {
        self.running_since
    }

    /// Milliseconds on the clock at `now`, counting the segment in progress.
    pub open spec fn elapsed_at(self, now: i64) -> int {
        self.banked_ms() + match self.since() {
            Some(s) => segment(s as int, now as int),
            None => 0,
        }
    }

    pub fn started(day_id: i64, now: i64) -> (r: Self)
        ensures
            r.day() == day_id,
            r.banked_ms() == 0,
            r.since() == Some(now),
    {
        PracticeTimer { day_id, banked: 0, running_since: Some(now) }
    }

    pub fn is_running(&self) -> (r: bool)
        ensures
            r == self.since() is Some,
    {
        self.running_since.is_some()
    }

    /// Milliseconds on the clock, counting the segment in progress.
    pub fn elapsed(&self, now: i64) -> (r: i64)
        requires
            self.elapsed_at(now) <= i64::MAX,
        ensures
            r == self.elapsed_at(now),
    {
        proof {
            use_type_invariant(self);
        }
        match self.running_since {
            Some(since) => if now > since {
                self.banked + (now - since)
            } else {
                self.banked
            },
            None => self.banked,
        }
    }

    /// Stop the running segment and bank it; a paused timer is left alone.
    pub fn pause(&mut self, now: i64)
        requires
            old(self).elapsed_at(now) <= i64::MAX,
        ensures
            paused_from(*old(self), *final(self), now),
    {
        proof {
            use_type_invariant(&*self);
        }
        if let Some(since) = self.running_since {
            let add = if now > since {
                now - since
            } else {
                0
            };
            self.banked = self.banked + add;
            self.running_since = None;
        }
    }

    /// Start a new segment at `now`; a running timer is left alone.
    pub fn resume(&mut self, now: i64)
        ensures
            resumed_from(*old(self), *final(self), now),
    {
        proof {
            use_type_invariant(&*self);
        }
        if self.running_since.is_none() {
            self.running_since = Some(now);
        }
    }

    /// Whole minutes to log, to the nearest minute.
    pub fn minutes(&self, now: i64) -> (r: i64)
        requires
            self.elapsed_at(now) <= i64::MAX - 30_000,
        ensures
            r == rounded_minutes(self.elapsed_at(now)),
    {
        let ms = self.elapsed(now);
        proof {
            use_type_invariant(self);
        }
        (ms + 30_000) / 60_000
    }
}

impl PracticeTimer {
    /// The elapsed milliseconds, or `None` when they do not fit in an `i64`.
    pub fn elapsed_checked(&self, now: i64) -> (r: Option<i64>)
        ensures
            match r {
                Some(ms) => ms == self.elapsed_at(now),
                None => self.elapsed_at(now) > i64::MAX,
            },
    {
        proof {
            use_type_invariant(self);
        }
        match self.running_since {
            Some(since) => if now > since {
                let seg = now as i128 - since as i128;
                if self.banked as i128 + seg > i64::MAX as i128 {
                    None
                } else {
                    Some(self.elapsed(now))
                }
            } else {
                Some(self.elapsed(now))
            },
            None => Some(self.elapsed(now)),
        }
    }

    /// The minutes to log, or `None` when the elapsed time is too large to
    /// round in an `i64`.
    pub fn minutes_checked(&self, now: i64) -> (r: Option<i64>)
        ensures
            match r {
                Some(m) => m == rounded_minutes(self.elapsed_at(now)),
                None => self.elapsed_at(now) > i64::MAX - 30_000,
            },
    {
        match self.elapsed_checked(now) {
            Some(ms) => if ms <= i64::MAX - 30_000 {
                Some(self.minutes(now))
            } else {
                None
            },
            None => None,
        }
    }
}

/// `after` is `before` paused at `now`: the running segment banked.
pub open spec fn paused_from(before: PracticeTimer, after: PracticeTimer, now: i64) -> bool {
    &&& after.day() == before.day()
    &&& after.since() is None
    &&& after.banked_ms() == before.elapsed_at(now)
}

/// `after` is `before` resumed at `now`: a new segment starts unless one is
/// already running.
pub open spec fn resumed_from(before: PracticeTimer, after: PracticeTimer, now: i64) -> bool {
    &&& after.day() == before.day()
    &&& after.banked_ms() == before.banked_ms()
    &&& after.since() == match before.since() {
        Some(s) => Some(s),
        None => Some(now),
    }
}

/// Pausing stops the clock at what it read and it then reads that at every
/// later moment; pausing twice is the same as pausing once, resuming twice the
/// same as resuming once, and time spent paused is not counted: after a pause at `a`
/// and a resume at `c`, the clock at `d` reads what it read at `a` plus the
/// time since `c`.
pub proof fn lemma_pause_resume_laws(t: PracticeTimer, s1: PracticeTimer, s2: PracticeTimer, a: i64, b: i64, c: i64, d: i64)
    ensures
        paused_from(t, s1, a) ==> s1.since() is None
            && forall|y: i64| #[trigger] s1.elapsed_at(y) == t.elapsed_at(a),
        paused_from(t, s1, a) && paused_from(s1, s2, b) ==>
            s2.banked_ms() == s1.banked_ms() && s2.since() == s1.since() && s2.day() == s1.day(),
        resumed_from(t, s1, a) && resumed_from(s1, s2, b) ==>
            s2.banked_ms() == s1.banked_ms() && s2.since() == s1.since() && s2.day() == s1.day(),
        paused_from(t, s1, a) && resumed_from(s1, s2, c) ==>
            s2.elapsed_at(d) == t.elapsed_at(a) + segment(c as int, d as int),
{
}

/// The clock never reads less than what is banked, stands still while the
/// timer is paused, and does not run backwards while it runs and the clock
/// it is handed moves forward.
pub proof fn lemma_timer_laws(t: PracticeTimer, now: i64, later: i64)
    requires
        t.banked_ms() >= 0,
    ensures
        t.elapsed_at(now) >= t.banked_ms(),
        t.since() is None ==> t.elapsed_at(later) == t.elapsed_at(now),
        t.since() matches Some(s) ==> (now <= later ==> t.elapsed_at(now) <= t.elapsed_at(later)),
{
}

/// Two digits at least: a leading zero before a single-digit number.
pub open spec fn two_digits(n: i64) -> Seq<char> {
    if decimal(n).len() < 2 {
        "0"@ + decimal(n)
    } else {
        decimal(n)
    }
}

/// `mm:ss` of a whole number of seconds, a negative reading showing as zero.
pub open spec fn clock_text(seconds: i64) -> Seq<char> {
    let whole: i64 = if seconds < 0 { 0 } else { seconds };
    two_digits((whole / 60) as i64) + ":"@ + two_digits(whole % 60)
}

fn padded(n: i64) -> (r: String)
    ensures
        r@ == two_digits(n),
{
    let digits = int_text(n);
    if digits.as_str().unicode_len() < 2 {
        let mut out = owned("0");
        push_str(&mut out, digits.as_str());
        out
    } else {
        digits
    }
}

/// `mm:ss` for the timer row and the status bar.
pub fn format_clock(seconds: i64) -> (r: String)
    ensures
        r@ == clock_text(seconds),
{
    let whole = if seconds < 0 { 0 } else { seconds };
    let mut out = padded(whole / 60);
    push_str(&mut out, ":");
    push_str(&mut out, padded(whole % 60).as_str());
    out
}

} // verus!
