//! The decisions of the rate-limited hardware push worker.
//!
//! A worker thread owns one device and applies EQ updates to it without
//! flooding the hardware: rapid updates coalesce (only the latest desired
//! state matters), writes are throttled to one per [`MIN_INTERVAL_MS`], and
//! flash commits are written inline on commit-to-apply devices or debounced
//! on the others, so a burst of actions wears the flash once. A promised
//! flash is never lost, not even at shutdown.
//!
//! The thread, the channel, the clock and the device belong to the caller,
//! which runs the loop: it waits until [`PushWorker::deadline`] for the next
//! command, hands it to [`PushWorker::receive`], performs the write
//! [`PushWorker::flush`] or [`PushWorker::flash`] asks for and reports it
//! back, and on exit performs the write [`PushWorker::owed_at_exit`] names.
//! Device states are identified by a number: two pushes carry the same
//! number exactly when they carry the same bands and pregain.

use vstd::prelude::*;

verus! {

/// Minimum gap between consecutive device writes, in ms.
pub const MIN_INTERVAL_MS: u64 = 60;

/// How long the device must stay quiet before a debounced flash commit, in ms.
pub const FLASH_DEBOUNCE_MS: u64 = 2000;

/// How a device's flash commits are scheduled.
#[derive(Debug, Clone, Copy, PartialEq, Eq, Structural)]
pub enum CommitPolicy {
    /// Write the commit inline with the push (commit-to-apply devices, whose
    /// RAM writes never reach the audio).
    Immediate,
    /// Apply pushes volatile at once, and flash once the device has been
    /// quiet for the given number of ms.
    Debounced(u64),
}

/// The commit policy for a device: inline on commit-to-apply devices,
/// whose RAM writes never reach the audio (deferring the flash would defer
/// the change itself); debounced by [`FLASH_DEBOUNCE_MS`] on the others.
pub fn policy_for(commit_to_apply: bool) -> (p: CommitPolicy)
    ensures
        p == if commit_to_apply {
            CommitPolicy::Immediate
        } else {
            CommitPolicy::Debounced(FLASH_DEBOUNCE_MS)
        },
        policy_ok(p),
{
    if commit_to_apply {
        CommitPolicy::Immediate
    } else {
        CommitPolicy::Debounced(FLASH_DEBOUNCE_MS)
    }
}

/// What the flush of pending work decided.
#[derive(Debug, Clone, Copy, PartialEq, Eq, Structural)]
pub enum Flush {
    /// Nothing to write yet: no pending state, or the throttle window is open.
    Hold,
    /// The device already holds the state; the write is skipped.
    Skipped,
    /// Write `state` to the device, committing it to flash when `inline`.
    Write { state: u64, inline: bool, commit: bool },
}

/// The worker's bookkeeping.
#[derive(Debug, Clone, Copy)]
pub struct PushWorker {
    /// Desired state not yet written, and whether a commit was requested.
    pub pending: Option<(u64, bool)>,
    /// When the device was last written (or a write was skipped), in ms.
    pub last_write: u64,
    /// What the device's RAM holds.
    pub ram: Option<u64>,
    /// What the device's flash holds, as far as this session knows.
    pub flashed: Option<u64>,
    /// When a debounced flash falls due; `None` when no flash is owed.
    pub flash_due: Option<u64>,
}

/// The debounced-flash bookkeeping after `state` was written (or found
/// already written): a commit for already-flashed state owes nothing; a
/// fresh commit (re)starts the quiet timer, and so does any further write
/// while a flash is owed.
pub open spec fn booked(w: PushWorker, state: u64, commit: bool, now: u64, policy: CommitPolicy) -> Option<u64> {
    match policy {
        CommitPolicy::Immediate => w.flash_due,
        CommitPolicy::Debounced(delay) => if w.flashed == Some(state) {
            None
        } else if commit || w.flash_due is Some {
            Some((now + delay) as u64)
        } else {
            w.flash_due
        },
    }
}

/// Clock values stay far from the end of the `u64` range.
pub open spec fn time_ok(t: u64) -> bool {
    t <= u64::MAX / 2
}

/// A debounce delay that a clock value can be advanced by.
pub open spec fn policy_ok(policy: CommitPolicy) -> bool {
    match policy {
        CommitPolicy::Immediate => true,
        CommitPolicy::Debounced(d) => d <= u64::MAX / 4,
    }
}

/// The flash commit a stopping worker owes (see [`PushWorker::owed_at_exit`]).
pub open spec fn owed_flash(w: PushWorker) -> Option<u64> {
    let owed = match w.pending {
        Some((s, true)) => Some(s),
        _ => if w.flash_due is Some {
            w.ram
        } else {
            None
        },
    };
    match owed {
        Some(s) => if w.flashed == Some(s) {
            None
        } else {
            Some(s)
        },
        None => None,
    }
}

/// The worker after a push of `state` arrives: the push replaces any pending
/// state, and a commit requested by either sticks; nothing else changes.
pub open spec fn received(w: PushWorker, state: u64, commit: bool) -> PushWorker {
    PushWorker {
        pending: Some(
            (
                state,
                commit || match w.pending {
                    Some((_, c)) => c,
                    None => false,
                },
            ),
        ),
        ..w
    }
}

impl PushWorker {
    /// The bookkeeping's times are all clock values.
    pub open spec fn times_ok(&self) -> bool {
        &&& time_ok(self.last_write)
        &&& match self.flash_due {
            Some(d) => d <= u64::MAX / 2 + u64::MAX / 4,
            None => true,
        }
    }

    /// A fresh worker at time `now`: nothing pending or known, and the last
    /// write backdated by the throttle interval so the first push isn't
    /// throttled (not before time 0).
    pub fn new(now: u64) -> (w: PushWorker)
        ensures
            w.pending is None,
            w.ram is None,
            w.flashed is None,
            w.flash_due is None,
            w.last_write == if now >= MIN_INTERVAL_MS {
                (now - MIN_INTERVAL_MS) as u64
            } else {
                now
            },
    {
        let last_write = if now >= MIN_INTERVAL_MS {
            now - MIN_INTERVAL_MS
        } else {
            now
        };
        PushWorker { pending: None, last_write, ram: None, flashed: None, flash_due: None }
    }

    /// When the worker next has something to do without a new command:
    /// flushing pending work once the throttle window closes, or a debounced
    /// flash falling due (not before the window closes either). `None`:
    /// nothing to do but wait for a command.
    pub fn deadline(&self) -> (d: Option<u64>)
        requires
            self.times_ok(),
        ensures
            d == match (self.pending, self.flash_due) {
                (Some(_), _) => Some((self.last_write + MIN_INTERVAL_MS) as u64),
                (None, Some(due)) => Some(
                    if due >= self.last_write + MIN_INTERVAL_MS {
                        due
                    } else {
                        (self.last_write + MIN_INTERVAL_MS) as u64
                    },
                ),
                (None, None) => None,
            },
    {
        let open = self.last_write + MIN_INTERVAL_MS;
        match (self.pending, self.flash_due) {
            (Some(_), _) => Some(open),
            (None, Some(due)) => Some(
                if due >= open {
                    due
                } else {
                    open
                },
            ),
            (None, None) => None,
        }
    }

    /// A push arrives: it replaces any pending state, and a commit requested
    /// by either sticks until the next flush, so a flash save is never
    /// dropped.
    pub fn receive(&mut self, state: u64, commit: bool)
        ensures
            *final(self) == received(*old(self), state, commit),
    {
        let prev_commit = match self.pending {
            Some((_, c)) => c,
            None => false,
        };
        self.pending = Some((state, commit || prev_commit));
    }

    /// Decide what to do with pending work at time `now`: hold it while the
    /// throttle window is open; skip the write when the device already holds
    /// the state (and, for an inline commit, already has it flashed); else
    /// write it, committing inline under the immediate policy.
    pub fn flush(&mut self, now: u64, policy: CommitPolicy) -> (f: Flush)
        requires
            old(self).last_write <= now,
            time_ok(now),
            policy_ok(policy),
            old(self).times_ok(),
        ensures
            final(self).times_ok(),
            match old(self).pending {
                None => f == Flush::Hold && *final(self) == *old(self),
                Some((s, commit)) => if now - old(self).last_write < MIN_INTERVAL_MS {
                    f == Flush::Hold && *final(self) == *old(self)
                } else {
                    let inline = commit && policy == CommitPolicy::Immediate;
                    if old(self).ram == Some(s) && (!inline || old(self).flashed == Some(s)) {
                        &&& f == Flush::Skipped
                        &&& final(self).pending is None
                        &&& final(self).last_write == now
                        &&& final(self).ram == old(self).ram
                        &&& final(self).flashed == old(self).flashed
                        &&& final(self).flash_due == booked(*old(self), s, commit, now, policy)
                    } else {
                        &&& f == (Flush::Write { state: s, inline, commit })
                        &&& *final(self) == (PushWorker { pending: None, ..*old(self) })
                    }
                }
            },
    {
        match self.pending {
            None => Flush::Hold,
            Some((s, commit)) => {
                if now - self.last_write < MIN_INTERVAL_MS {
                    return Flush::Hold;
                }
                self.pending = None;
                let inline = commit && policy == CommitPolicy::Immediate;
                if self.ram == Some(s) && (!inline || self.flashed == Some(s)) {
                    self.last_write = now;
                    self.book(s, commit, now, policy);
                    Flush::Skipped
                } else {
                    Flush::Write { state: s, inline, commit }
                }
            },
        }
    }

    fn book(&mut self, state: u64, commit: bool, now: u64, policy: CommitPolicy)
        requires
            time_ok(now),
            policy_ok(policy),
            old(self).times_ok(),
        ensures
            final(self).flash_due == booked(*old(self), state, commit, now, policy),
            final(self).pending == old(self).pending,
            final(self).last_write == old(self).last_write,
            final(self).ram == old(self).ram,
            final(self).flashed == old(self).flashed,
            final(self).times_ok(),
    {
        match policy {
            CommitPolicy::Immediate => {},
            CommitPolicy::Debounced(delay) => {
                if self.flashed == Some(state) {
                    self.flash_due = None;
                } else if commit || self.flash_due.is_some() {
                    self.flash_due = Some(now + delay);
                }
            },
        }
    }

    /// A write the flush asked for succeeded at `now`: the device's RAM (and,
    /// for an inline commit, its flash) holds the state, and the debounce
    /// bookkeeping follows.
    pub fn written(&mut self, state: u64, inline: bool, commit: bool, now: u64, policy: CommitPolicy)
        requires
            time_ok(now),
            policy_ok(policy),
            old(self).times_ok(),
        ensures
            final(self).pending == old(self).pending,
            final(self).last_write == now,
            final(self).ram == Some(state),
            final(self).flashed == if inline {
                Some(state)
            } else {
                old(self).flashed
            },
            final(self).flash_due == booked(
                PushWorker { flashed: final(self).flashed, ..*old(self) },
                state,
                commit,
                now,
                policy,
            ),
            final(self).times_ok(),
    {
        self.last_write = now;
        self.ram = Some(state);
        if inline {
            self.flashed = Some(state);
        }
        self.book(state, commit, now, policy);
    }

    /// Whether the debounced flash is due at `now`: nothing pending, the
    /// quiet time elapsed and the throttle window closed. When due, returns
    /// the RAM state to commit to flash; when RAM is already flashed (or
    /// empty), nothing is owed any more.
    pub fn flash(&mut self, now: u64) -> (r: Option<u64>)
        requires
            old(self).last_write <= now,
        ensures
            ({
                let w = *old(self);
                let due = w.pending is None && (w.flash_due matches Some(d) && now >= d) && now
                    - w.last_write >= MIN_INTERVAL_MS;
                if !due {
                    r is None && *final(self) == w
                } else {
                    match w.ram {
                        Some(s) => if w.flashed != Some(s) {
                            r == Some(s) && *final(self) == w
                        } else {
                            r is None && *final(self) == (PushWorker { flash_due: None, ..w })
                        },
                        None => r is None && *final(self) == (PushWorker { flash_due: None, ..w }),
                    }
                }
            }),
            old(self).times_ok() ==> final(self).times_ok(),
    {
        let due = self.pending.is_none() && match self.flash_due {
            Some(d) => now >= d,
            None => false,
        } && now - self.last_write >= MIN_INTERVAL_MS;
        if !due {
            return None;
        }
        match self.ram {
            Some(s) => {
                if self.flashed != Some(s) {
                    return Some(s);
                }
                self.flash_due = None;
                None
            },
            None => {
                self.flash_due = None;
                None
            },
        }
    }

    /// The debounced flash of `state` succeeded at `now`.
    pub fn flashed_at(&mut self, state: u64, now: u64)
        requires
            time_ok(now),
        ensures
            *final(self) == (PushWorker {
                last_write: now,
                flashed: Some(state),
                flash_due: None,
                ..*old(self)
            }),
            final(self).times_ok(),
    {
        self.last_write = now;
        self.flashed = Some(state);
        self.flash_due = None;
    }

    /// The flash commit still owed when the worker stops: a commit coalesced
    /// into pending work, else the RAM state when a debounced flash is owed —
    /// unless the flash already holds it. Volatile pending state is dropped.
    pub fn owed_at_exit(&self) -> (r: Option<u64>)
        ensures
            r == owed_flash(*self),
    {
        let owed = match self.pending {
            Some((s, true)) => Some(s),
            _ => if self.flash_due.is_some() {
                self.ram
            } else {
                None
            },
        };
        match owed {
            Some(s) => if self.flashed == Some(s) {
                None
            } else {
                Some(s)
            },
            None => None,
        }
    }
}

/// A requested commit is never lost: a worker with a pending commit request
/// owes that flash at exit, unless its flash already holds the state.
pub proof fn law_requested_commit_is_owed(w: PushWorker, state: u64)
    requires
        w.pending == Some((state, true)),
    ensures
        owed_flash(w) == if w.flashed == Some(state) {
            None
        } else {
            Some(state)
        },
{
}

/// Coalescing keeps a commit request: after a commit was asked for, a later
/// push of any state, with or without a commit of its own, leaves a commit
/// pending for that later state, and the flash owed at exit is that state
/// (unless the flash already holds it).
pub proof fn law_coalescing_keeps_the_commit(w: PushWorker, first: u64, later: u64, commit: bool)
    requires
        w.pending == Some((first, true)),
    ensures
        received(w, later, commit).pending == Some((later, true)),
        owed_flash(received(w, later, commit)) == if w.flashed == Some(later) {
            None
        } else {
            Some(later)
        },
{
}

/// A debounced flash, once owed, is never lost at shutdown: a worker that
/// owes a flash for the state in RAM, not yet flashed, owes that state at
/// exit (a pending commit owes its own state first); with neither a flash
/// owed nor a commit pending, nothing is owed; and what is owed is never
/// what the flash already holds.
pub proof fn law_owed_flash_survives_stop(w: PushWorker, s: u64)
    ensures
        w.flash_due is Some && w.ram == Some(s) && w.flashed != Some(s) && !(w.pending matches Some((_, true)))
            ==> owed_flash(w) == Some(s),
        w.flash_due is None && !(w.pending matches Some((_, true))) ==> owed_flash(w) is None,
        owed_flash(w) matches Some(o) ==> w.flashed != Some(o),
{
}

/// A debounced commit, once written, is owed at exit until the flash is
/// made: after a write of `state` to RAM that asked for a commit under the
/// debounced policy (the state `written` leaves), a worker whose flash does
/// not hold that state and has no commit pending owes `state` at exit.
pub proof fn law_written_commit_is_owed_until_flashed(w: PushWorker, state: u64, now: u64, delay: u64)
    requires
        w.flashed != Some(state),
        !(w.pending matches Some((_, true))),
    ensures
        owed_flash(
            PushWorker {
                last_write: now,
                ram: Some(state),
                flash_due: booked(w, state, true, now, CommitPolicy::Debounced(delay)),
                ..w
            },
        ) == Some(state),
{
}

} // verus!
