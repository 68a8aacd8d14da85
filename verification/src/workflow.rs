//! The main workflow: the messages that reach it, what each one does to the
//! clients, and when the periodic chores (forgetting stale clients, closing stale
//! doors, checking the firewall) are due.
use crate::firewall::CheckupRequest;
use crate::knock::Knock;
use crate::knockers::{elapsed, elapsed_between, step, Knocker, Knockers, live_knockers, MAX_KNOCKER_LIVE_TIME};
use vstd::prelude::*;

verus! {

/// A message to the workflow: a knock received, or the order to stop.
#[allow(non_camel_case_types)]
#[derive(Debug, Clone, Copy, PartialEq, Eq, Structural)]
pub enum Msg {
    KNOCK(Knock),
    QUIT,
}

/// The state of the workflow: the clients, and whether it was asked to stop.
pub struct Workflow {
    knockers: Knockers,
    want_to_quit: bool,
}

impl Workflow {
    /// The clients known, by address.
    pub closed spec fn clients(self) -> Map<u128, Knocker> {
        self.knockers.knockers()
    }

    /// The knock sequence.
    pub closed spec fn sequence(self) -> Seq<u16> {
        self.knockers.sequence()
    }

    /// Whether the workflow was asked to stop.
    pub closed spec fn quitting(self) -> bool {
        self.want_to_quit
    }

    /// A workflow that knows no client yet, with the knock sequence `sequence`.
    pub fn new(sequence: Vec<u16>) -> (w: Workflow)
        requires
            sequence@.len() > 0,
        ensures
            w.clients() == Map::<u128, Knocker>::empty(),
            w.sequence() == sequence@,
            !w.quitting(),
    {
        Workflow { knockers: Knockers::new(sequence), want_to_quit: false }
    }

    /// Whether the workflow was asked to stop.
    pub fn want_to_quit(&self) -> (r: bool)
        ensures
            r == self.quitting(),
    {
        self.want_to_quit
    }

    /// Treats the message `m`, received at `now`. A knock moves its client along
    /// the sequence; the answer is its address when the knock completes the
    /// sequence, so that its door opens. `QUIT` asks the workflow to stop.
    pub fn treat_message(&mut self, m: Msg, now: u64) -> (open_for: Option<u128>)
        ensures
            final(self).sequence() == old(self).sequence(),
            match m {
                Msg::QUIT => {
                    &&& final(self).quitting()
                    &&& final(self).clients() == old(self).clients()
                    &&& open_for is None
                },
                Msg::KNOCK(k) => {
                    let (after, open) = step(old(self).sequence(), old(self).clients(), k, now);
                    &&& final(self).quitting() == old(self).quitting()
                    &&& final(self).clients() == after
                    &&& open_for == (if open {
                        Some(k.ip)
                    } else {
                        None
                    })
                },
            },
    {
        match m {
            Msg::QUIT => {
                self.want_to_quit = true;
                None
            },
            Msg::KNOCK(k) => {
                if self.knockers.event(k, now) {
                    Some(k.ip)
                } else {
                    None
                }
            },
        }
    }

    /// Forgets the clients whose last knock is more than `MAX_KNOCKER_LIVE_TIME`
    /// before `now`.
    pub fn clean_up(&mut self, now: u64)
        ensures
            final(self).sequence() == old(self).sequence(),
            final(self).quitting() == old(self).quitting(),
            final(self).clients() == live_knockers(old(self).clients(), now),
    {
        self.knockers.clean_up(now);
    }
}

/// The periodic chores due at one turn of the main loop.
#[derive(Debug, Clone, Copy, PartialEq, Eq, Structural)]
pub struct Chores {
    /// Forget the stale clients.
    pub clean_knockers: bool,
    /// Close the stale doors.
    pub clean_doors: bool,
    /// Check that the firewall zone is still there: a check-up without reset.
    pub check_firewall: Option<CheckupRequest>,
}

/// When each periodic chore was last done, and how often the doors and the
/// firewall are to be looked after (in nanoseconds). The clients are looked after
/// every `MAX_KNOCKER_LIVE_TIME`.
#[derive(Debug, Clone, Copy, PartialEq, Eq, Structural)]
pub struct Housekeeping {
    pub last_knock_cleanup: u64,
    pub last_doors_cleanup: u64,
    pub last_firewall_checkup: u64,
    pub doors_period: u64,
    pub firewall_period: u64,
}

/// Whether a chore last done at `last` and due every `period` is due at `now`.
pub open spec fn due(now: u64, last: u64, period: u64) -> bool {
    elapsed(now, last) > period
}

/// The housekeeping and the chores due after a turn of the main loop at `now`.
pub open spec fn tick_spec(h: Housekeeping, now: u64) -> (Housekeeping, Chores) {
    let ck = due(now, h.last_knock_cleanup, MAX_KNOCKER_LIVE_TIME);
    let cd = due(now, h.last_doors_cleanup, h.doors_period);
    let cf = due(now, h.last_firewall_checkup, h.firewall_period);
    (
        Housekeeping {
            last_knock_cleanup: if ck {
                now
            } else {
                h.last_knock_cleanup
            },
            last_doors_cleanup: if cd {
                now
            } else {
                h.last_doors_cleanup
            },
            last_firewall_checkup: if cf {
                now
            } else {
                h.last_firewall_checkup
            },
            doors_period: h.doors_period,
            firewall_period: h.firewall_period,
        },
        Chores {
            clean_knockers: ck,
            clean_doors: cd,
            check_firewall: if cf {
                Some(CheckupRequest { reset: false })
            } else {
                None
            },
        },
    )
}

/// The housekeeping after turns of the main loop at the instants `nows`.
pub open spec fn ticks(h: Housekeeping, nows: Seq<u64>) -> Housekeeping
    decreases nows.len(),
{
    if nows.len() == 0 {
        h
    } else {
        tick_spec(ticks(h, nows.drop_last()), nows.last()).0
    }
}

/// The chores due at the turn `nows[i]`, after the turns before it.
pub open spec fn chores_at(h: Housekeeping, nows: Seq<u64>, i: int) -> Chores {
    tick_spec(ticks(h, nows.take(i)), nows[i]).1
}

/// When the chore `c` (0: clients, 1: doors, 2: firewall) was last done.
pub open spec fn last_done(h: Housekeeping, c: int) -> u64 {
    if c == 0 {
        h.last_knock_cleanup
    } else if c == 1 {
        h.last_doors_cleanup
    } else {
        h.last_firewall_checkup
    }
}

/// The period of the chore `c` (0: clients, 1: doors, 2: firewall).
pub open spec fn period_of(h: Housekeeping, c: int) -> u64 {
    if c == 0 {
        MAX_KNOCKER_LIVE_TIME
    } else if c == 1 {
        h.doors_period
    } else {
        h.firewall_period
    }
}

/// Whether the chores `ch` include the chore `c` (0: clients, 1: doors, 2:
/// firewall).
pub open spec fn does(ch: Chores, c: int) -> bool {
    if c == 0 {
        ch.clean_knockers
    } else if c == 1 {
        ch.clean_doors
    } else {
        ch.check_firewall is Some
    }
}

impl Housekeeping {
    /// Every chore counted as done at `now`.
    pub fn new(now: u64, doors_period: u64, firewall_period: u64) -> (h: Housekeeping)
        ensures
            h == (Housekeeping {
                last_knock_cleanup: now,
                last_doors_cleanup: now,
                last_firewall_checkup: now,
                doors_period,
                firewall_period,
            }),
    {
        Housekeeping {
            last_knock_cleanup: now,
            last_doors_cleanup: now,
            last_firewall_checkup: now,
            doors_period,
            firewall_period,
        }
    }

    /// The chores due at `now`; each one due is counted as done at `now`.
    pub fn tick(&mut self, now: u64) -> (c: Chores)
        ensures
            (*final(self), c) == tick_spec(*old(self), now),
            c.check_firewall is None || c.check_firewall == Some(CheckupRequest { reset: false }),
    {
        let clean_knockers = elapsed_between(now, self.last_knock_cleanup)
            > MAX_KNOCKER_LIVE_TIME;
        if clean_knockers {
            self.last_knock_cleanup = now;
        }
        let clean_doors = elapsed_between(now, self.last_doors_cleanup) > self.doors_period;
        if clean_doors {
            self.last_doors_cleanup = now;
        }
        let check_firewall = if elapsed_between(now, self.last_firewall_checkup)
            > self.firewall_period {
            self.last_firewall_checkup = now;
            Some(CheckupRequest { reset: false })
        } else {
            None
        };
        Chores { clean_knockers, clean_doors, check_firewall }
    }
}

/// A chore done at `done_at` is not due again before its period has passed, and
/// is due as soon as it has.
pub proof fn law_chores_follow_their_period(done_at: u64, later: u64, period: u64)
    requires
        done_at <= later,
    ensures
        later - done_at <= period ==> !due(later, done_at, period),
        later - done_at > period ==> due(later, done_at, period),
{
}

proof fn lemma_ticks(h: Housekeeping, nows: Seq<u64>, c: int, k: int)
    requires
        0 <= c < 3,
        0 <= k <= nows.len(),
    ensures
        period_of(ticks(h, nows.take(k)), c) == period_of(h, c),
        forall|i: int|
            0 <= i < k && does(#[trigger] chores_at(h, nows, i), c) ==> nows[i] <= last_done(
                ticks(h, nows.take(k)),
                c,
            ),
    decreases k,
{
    if k == 0 {
        assert(nows.take(0) =~= Seq::<u64>::empty());
    } else {
        lemma_ticks(h, nows, c, k - 1);
        assert(nows.take(k).drop_last() =~= nows.take(k - 1));
        assert(nows.take(k).last() == nows[k - 1]);
    }
}

/// Each chore keeps its period over the turns of the main loop: two turns that
/// both do a chore are more than its period apart (the instant a chore was last
/// done only moves forward, since a chore is due only more than its period after
/// it).
pub proof fn law_chores_are_spaced_by_their_period(
    h: Housekeeping,
    nows: Seq<u64>,
    c: int,
    i: int,
    j: int,
)
    requires
        0 <= c < 3,
        0 <= i < j < nows.len(),
        does(chores_at(h, nows, i), c),
        does(chores_at(h, nows, j), c),
    ensures
        nows[j] - nows[i] > period_of(h, c),
{
    lemma_ticks(h, nows, c, j);
}

/// A turn of the main loop at `now` does each chore exactly when more than its
/// period has passed since it was last done (30 s for the clients), records it
/// as done at `now`, and asks only for firewall check-ups without reset.
pub proof fn law_chores_due_after_their_period(h: Housekeeping, now: u64)
    ensures
        ({
            let (after, c) = tick_spec(h, now);
            &&& c.clean_knockers == (now >= h.last_knock_cleanup && now - h.last_knock_cleanup
                > 30_000_000_000u64)
            &&& c.clean_doors == (now >= h.last_doors_cleanup && now - h.last_doors_cleanup
                > h.doors_period)
            &&& c.check_firewall == (if now >= h.last_firewall_checkup && now
                - h.last_firewall_checkup > h.firewall_period {
                Some(CheckupRequest { reset: false })
            } else {
                None
            })
            &&& after.last_knock_cleanup == (if c.clean_knockers {
                now
            } else {
                h.last_knock_cleanup
            })
            &&& after.last_doors_cleanup == (if c.clean_doors {
                now
            } else {
                h.last_doors_cleanup
            })
            &&& after.last_firewall_checkup == (if c.check_firewall is Some {
                now
            } else {
                h.last_firewall_checkup
            })
            &&& after.doors_period == h.doors_period
            &&& after.firewall_period == h.firewall_period
        }),
{
}

/// The periodic chores never rebuild the firewall zone: at every turn the firewall
/// chore is absent or a check-up without reset.
pub proof fn law_periodic_checkups_never_reset(h: Housekeeping, now: u64)
    ensures
        tick_spec(h, now).1.check_firewall is None || tick_spec(h, now).1.check_firewall
            == Some(CheckupRequest { reset: false }),
{
}

} // verus!
