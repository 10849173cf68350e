use fastpeq::worker::{CommitPolicy, Flush, PushWorker, FLASH_DEBOUNCE_MS, MIN_INTERVAL_MS};

/// Drives the worker's decisions the way the worker thread does, over a
/// scripted sequence of (time, push) events, and logs the device writes.
struct Driver {
    w: PushWorker,
    policy: CommitPolicy,
    log: Vec<(u64, bool)>,
}

impl Driver {
    fn new(policy: CommitPolicy) -> Self {
        Driver {
            w: PushWorker::new(1_000),
            policy,
            log: Vec::new(),
        }
    }

    fn tick(&mut self, now: u64) {
        match self.w.flush(now, self.policy) {
            Flush::Write {
                state,
                inline,
                commit,
            } => {
                self.log.push((state, inline));
                self.w.written(state, inline, commit, now, self.policy);
            }
            Flush::Skipped | Flush::Hold => {}
        }
        if let Some(state) = self.w.flash(now) {
            self.log.push((state, true));
            self.w.flashed_at(state, now);
        }
    }

    fn push(&mut self, now: u64, state: u64, commit: bool) {
        self.w.receive(state, commit);
        self.tick(now);
    }

    fn stop(&mut self) {
        if let Some(state) = self.w.owed_at_exit() {
            self.log.push((state, true));
        }
    }
}

#[test]
fn pending_commit_is_flushed_on_stop() {
    let mut d = Driver::new(CommitPolicy::Immediate);
    d.push(1_000, 1, false);
    // Inside the throttle window: the commit coalesces into pending.
    d.push(1_010, 2, true);
    assert_eq!(d.log, vec![(1, false)]);
    d.stop();
    assert_eq!(d.log.last(), Some(&(2, true)));
}

#[test]
fn pending_commit_is_flushed_on_disconnect() {
    let mut d = Driver::new(CommitPolicy::Debounced(FLASH_DEBOUNCE_MS));
    d.push(1_000, 1, false);
    d.push(1_000, 2, true);
    // The sender is gone: the loop ends and the owed flash is written.
    d.stop();
    assert_eq!(d.log.last(), Some(&(2, true)));
}

#[test]
fn volatile_pushes_are_never_flash_committed_on_stop() {
    let mut d = Driver::new(CommitPolicy::Immediate);
    d.push(1_000, 1, false);
    d.push(1_010, 2, false);
    d.stop();
    assert!(d.log.iter().all(|(_, commit)| !commit));
}

#[test]
fn debounced_commits_coalesce_into_one_flash() {
    let mut d = Driver::new(CommitPolicy::Debounced(FLASH_DEBOUNCE_MS));
    let mut t = 1_000;
    for state in 1..=5 {
        d.push(t, state, true);
        t += 100;
    }
    // Quiet long enough for the debounce, then a wake-up.
    let due = d.w.deadline().unwrap();
    d.tick(due);
    let flashes: Vec<_> = d.log.iter().filter(|(_, c)| *c).collect();
    assert_eq!(flashes, vec![&(5, true)]);
    assert!(d.log.iter().any(|(s, c)| *s == 3 && !*c));
}

#[test]
fn identical_recommit_never_reflashes() {
    let mut d = Driver::new(CommitPolicy::Immediate);
    d.push(1_000, 7, true);
    d.push(1_000 + MIN_INTERVAL_MS, 7, true);
    d.push(1_000 + 3 * MIN_INTERVAL_MS, 7, true);
    assert_eq!(d.log, vec![(7, true)]);
    d.stop();
    assert_eq!(d.log, vec![(7, true)]);
}

#[test]
fn deadlines_follow_the_throttle_and_the_debounce() {
    let mut w = PushWorker::new(1_000);
    assert_eq!(w.deadline(), None);
    w.receive(1, false);
    assert_eq!(w.deadline(), Some(1_000));
    assert_eq!(w.flush(1_000, CommitPolicy::Immediate), Flush::Write { state: 1, inline: false, commit: false });
    w.written(1, false, false, 1_000, CommitPolicy::Immediate);
    w.receive(1, false);
    assert_eq!(w.deadline(), Some(1_060));
    assert_eq!(w.flush(1_030, CommitPolicy::Immediate), Flush::Hold);
    assert_eq!(w.flush(1_060, CommitPolicy::Immediate), Flush::Skipped);
    assert!(w.pending.is_none());
}

#[test]
fn a_later_push_keeps_an_earlier_commit() {
    let mut w = PushWorker::new(0);
    w.receive(1, true);
    w.receive(2, false);
    assert_eq!(w.pending, Some((2, true)));
    assert_eq!(w.owed_at_exit(), Some(2));
}
