//! Decisions of the host's live connection: which slide to show on a command,
//! and when to send the host updated statistics.

use vstd::prelude::*;
use crate::config::STATS_UPDATE_THROTTLE_MILLIS;

verus! {

/// How long the host connection waits when no statistics are held back, in milliseconds.
pub const IDLE_TIMEOUT_MILLIS: u64 = 999_999_000;

/// The slide a host command asks to show: the command `gotoSlide` names the
/// slide in its `slideIndex` field (0 where that is missing); other commands
/// ask for nothing.
pub fn host_command_slide_index(cmd: &str, slide_index: Option<u64>) -> (r: Option<usize>)
    ensures
        cmd@ == "gotoSlide"@ ==> r == Some(
            (match slide_index {
                Some(i) => i,
                None => 0,
            }) as usize,
        ),
        cmd@ != "gotoSlide"@ ==> r is None,
{
    if cmd.to_string() == "gotoSlide".to_string() {
        let i = match slide_index {
            Some(i) => i,
            None => 0,
        };
        Some(i as usize)
    } else {
        None
    }
}

/// The throttle of statistics updates to the host: an update is sent at once
/// when none is held back and the last one went out more than
/// `STATS_UPDATE_THROTTLE_MILLIS` ago; otherwise it is held back (replacing any
/// update held back before) until a timer fires.
pub struct StatsThrottle {
    /// When the last update was sent, in milliseconds on the connection's clock.
    pub last_sent_millis: u64,
    /// Whether an update is held back.
    pub pending: bool,
}

/// Milliseconds from `from` to `to`, 0 where `to` is earlier.
pub open spec fn elapsed(from: u64, to: u64) -> nat {
    if to >= from {
        (to - from) as nat
    } else {
        0
    }
}

/// How long after `now` a held back update is due when the last update went out
/// at `last_sent`: when the throttle interval since then has passed.
pub open spec fn due_in(last_sent: u64, now: u64) -> nat {
    if elapsed(last_sent, now) <= STATS_UPDATE_THROTTLE_MILLIS {
        (STATS_UPDATE_THROTTLE_MILLIS - elapsed(last_sent, now)) as nat
    } else {
        0
    }
}

/// What reaches the throttle: an update, or its timer firing, at a time in
/// milliseconds.
pub enum ThrottleEvent {
    Update(u64),
    Timer(u64),
}

/// The time of an event.
pub open spec fn event_time(e: ThrottleEvent) -> u64 {
    match e {
        ThrottleEvent::Update(now) => now,
        ThrottleEvent::Timer(now) => now,
    }
}

/// The throttle after an event, and whether an update is sent: an update goes
/// out at once when none is held back and the interval since the last one has
/// passed, else it is held back; the timer sends the held back update once the
/// interval since the last one has passed.
pub open spec fn throttle_step(t: StatsThrottle, e: ThrottleEvent) -> (StatsThrottle, bool) {
    match e {
        ThrottleEvent::Update(now) => if !t.pending && elapsed(t.last_sent_millis, now)
            > STATS_UPDATE_THROTTLE_MILLIS {
            (StatsThrottle { last_sent_millis: now, pending: false }, true)
        } else {
            (StatsThrottle { last_sent_millis: t.last_sent_millis, pending: true }, false)
        },
        ThrottleEvent::Timer(now) => if t.pending && elapsed(t.last_sent_millis, now)
            >= STATS_UPDATE_THROTTLE_MILLIS {
            (StatsThrottle { last_sent_millis: now, pending: false }, true)
        } else {
            (t, false)
        },
    }
}

/// The throttle after the events `evs`, and the times at which updates went out.
pub open spec fn throttle_run(t: StatsThrottle, evs: Seq<ThrottleEvent>) -> (StatsThrottle, Seq<u64>)
    decreases evs.len(),
{
    if evs.len() == 0 {
        (t, Seq::empty())
    } else {
        let (t1, sent) = throttle_run(t, evs.drop_last());
        let (t2, send) = throttle_step(t1, evs.last());
        (t2, if send { sent.push(event_time(evs.last())) } else { sent })
    }
}

proof fn lemma_throttle_run(t: StatsThrottle, evs: Seq<ThrottleEvent>)
    ensures
        ({
            let (t2, sent) = throttle_run(t, evs);
            &&& sent.len() == 0 ==> t2.last_sent_millis == t.last_sent_millis
            &&& sent.len() > 0 ==> t2.last_sent_millis == sent.last()
            &&& sent.len() > 0 ==> sent[0] >= t.last_sent_millis + STATS_UPDATE_THROTTLE_MILLIS
            &&& forall|i: int|
                0 <= i < sent.len() - 1 ==> #[trigger] sent[i + 1] >= sent[i] + STATS_UPDATE_THROTTLE_MILLIS
        }),
    decreases evs.len(),
{
    if evs.len() > 0 {
        lemma_throttle_run(t, evs.drop_last());
        let (t1, s1) = throttle_run(t, evs.drop_last());
        let (t2, send) = throttle_step(t1, evs.last());
        if send {
            let s2 = s1.push(event_time(evs.last()));
            assert forall|i: int| 0 <= i < s2.len() - 1 implies #[trigger] s2[i + 1] >= s2[i]
                + STATS_UPDATE_THROTTLE_MILLIS by {
                if i + 1 < s1.len() {
                    assert(s2[i + 1] == s1[i + 1] && s2[i] == s1[i]);
                }
            }
        }
    }
}

/// Over a whole connection, the updates that go out are at least
/// `STATS_UPDATE_THROTTLE_MILLIS` apart, and the first at least that long after
/// the start state's last update.
pub proof fn law_updates_spaced_over_connection(t: StatsThrottle, evs: Seq<ThrottleEvent>)
    ensures
        forall|i: int|
            0 <= i < throttle_run(t, evs).1.len() - 1 ==> #[trigger] throttle_run(t, evs).1[i + 1]
                >= throttle_run(t, evs).1[i] + STATS_UPDATE_THROTTLE_MILLIS,
        throttle_run(t, evs).1.len() > 0 ==> throttle_run(t, evs).1[0] >= t.last_sent_millis
            + STATS_UPDATE_THROTTLE_MILLIS,
{
    lemma_throttle_run(t, evs);
}

impl StatsThrottle {
    /// The throttle of a new connection: nothing sent at 0 and nothing held back.
    /// A caller whose clock starts at `STATS_UPDATE_THROTTLE_MILLIS` lets the first
    /// update go out at once.
    pub fn new() -> (t: Self)
        ensures
            t.last_sent_millis == 0,
            !t.pending,
    {
        StatsThrottle { last_sent_millis: 0, pending: false }
    }

    /// An update arrives at `now`: returns whether to send it now; else it is held back.
    pub fn on_stats_update(&mut self, now: u64) -> (send_now: bool)
        ensures
            (*final(self), send_now) == throttle_step(*old(self), ThrottleEvent::Update(now)),
    {
        let since = if now >= self.last_sent_millis { now - self.last_sent_millis } else { 0 };
        if !self.pending && since > STATS_UPDATE_THROTTLE_MILLIS {
            self.last_sent_millis = now;
            self.pending = false;
            true
        } else {
            self.pending = true;
            false
        }
    }

    /// How long to wait at `now` before the held back update is due.
    pub fn timeout_millis(&self, now: u64) -> (t: u64)
        ensures
            self.pending ==> t == due_in(self.last_sent_millis, now),
            !self.pending ==> t == IDLE_TIMEOUT_MILLIS,
    {
        if self.pending {
            let since = if now >= self.last_sent_millis { now - self.last_sent_millis } else { 0 };
            if since <= STATS_UPDATE_THROTTLE_MILLIS {
                STATS_UPDATE_THROTTLE_MILLIS - since
            } else {
                0
            }
        } else {
            IDLE_TIMEOUT_MILLIS
        }
    }

    /// The timer fires at `now`: returns whether the held back update is to be
    /// sent, which it is once the interval since the last update has passed.
    pub fn on_timer(&mut self, now: u64) -> (send: bool)
        ensures
            (*final(self), send) == throttle_step(*old(self), ThrottleEvent::Timer(now)),
    {
        let since = if now >= self.last_sent_millis { now - self.last_sent_millis } else { 0 };
        if self.pending && since >= STATS_UPDATE_THROTTLE_MILLIS {
            self.pending = false;
            self.last_sent_millis = now;
            true
        } else {
            false
        }
    }
}

/// A held back update, sent when the timer set at `now` for `due_in` fires, goes
/// out no earlier than `STATS_UPDATE_THROTTLE_MILLIS` after the last update (one
/// sent at once goes out more than that after it, by `on_stats_update`).
pub proof fn law_updates_spaced(last_sent: u64, now: u64, fired: u64)
    requires
        last_sent <= now,
        fired >= now + due_in(last_sent, now),
    ensures
        fired >= last_sent + STATS_UPDATE_THROTTLE_MILLIS,
{
}

/// How long the site statistics are cached, in milliseconds.
pub const SITE_STATS_CACHE_MILLIS: u64 = 5000;

/// Whether the cached site statistics are to be computed again at `now`: there
/// are none yet, or they were computed `SITE_STATS_CACHE_MILLIS` or more ago.
pub fn site_stats_outdated(computed_at: Option<u64>, now: u64) -> (r: bool)
    ensures
        r == match computed_at {
            None => true,
            Some(t) => elapsed(t, now) >= SITE_STATS_CACHE_MILLIS,
        },
{
    match computed_at {
        None => true,
        Some(t) => {
            let since = if now >= t { now - t } else { 0 };
            since >= SITE_STATS_CACHE_MILLIS
        },
    }
}

/// No update is lost: an update that does not go out at once is held back, the
/// last update sent stays the reference, and the timer sends it once it fires at
/// or after the end of the throttle interval.
pub proof fn law_update_not_lost(t: StatsThrottle, now: u64, fired: u64)
    ensures
        ({
            let (t2, sent) = throttle_step(t, ThrottleEvent::Update(now));
            sent ==> t2.last_sent_millis == now && !t2.pending
        }),
        ({
            let (t2, sent) = throttle_step(t, ThrottleEvent::Update(now));
            !sent ==> t2.pending && t2.last_sent_millis == t.last_sent_millis
        }),
        ({
            let (t2, sent) = throttle_step(t, ThrottleEvent::Update(now));
            !sent && fired >= t2.last_sent_millis + STATS_UPDATE_THROTTLE_MILLIS ==> throttle_step(
                t2,
                ThrottleEvent::Timer(fired),
            ).1
        }),
{
}

/// An update goes out at once exactly when none is held back and the throttle
/// interval has passed since the last one was sent.
pub proof fn law_update_sent_at_once(t: StatsThrottle, now: u64)
    ensures
        throttle_step(t, ThrottleEvent::Update(now)).1 <==> (!t.pending && now > t.last_sent_millis
            + STATS_UPDATE_THROTTLE_MILLIS),
{
}

} // verus!
