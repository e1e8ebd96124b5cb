use cull_previews::{completion_step, CompletionStep, ReaderPhase, SlotEvent, WakeupSlot};

struct Lcg(u64);

impl Lcg {
    fn next(&mut self, n: usize) -> usize {
        self.0 = self.0.wrapping_mul(6364136223846793005).wrapping_add(1442695040888963407);
        ((self.0 >> 33) as usize) % n
    }
}

fn holds(p: ReaderPhase) -> bool {
    matches!(p, ReaderPhase::Holding | ReaderPhase::Waiting | ReaderPhase::Woken)
}

#[test]
fn completion_step_decision() {
    assert_eq!(completion_step(true), CompletionStep::Clear);
    assert_eq!(completion_step(false), CompletionStep::NotifyAndRetry);
}

#[test]
fn worker_alone_clears_at_once() {
    let mut s = WakeupSlot::new(2);
    assert_eq!(s.worker_attempt(), CompletionStep::Clear);
    assert!(!s.is_live());
    assert!(!s.reader_lookup(0));
    assert_eq!(s.phase(0), ReaderPhase::Done);
}

#[test]
fn subscribed_reader_is_woken_before_clear() {
    let mut s = WakeupSlot::new(1);
    assert!(s.reader_lookup(0));
    s.reader_subscribe(0);
    assert_eq!(s.phase(0), ReaderPhase::Waiting);
    assert_eq!(s.worker_attempt(), CompletionStep::NotifyAndRetry);
    assert_eq!(s.phase(0), ReaderPhase::Woken);
    assert!(s.is_live());
    s.reader_release(0);
    assert_eq!(s.worker_attempt(), CompletionStep::Clear);
    assert!(!s.is_live());
}

#[test]
fn no_lost_wakeup_random_schedules() {
    let mut rng = Lcg(7);
    for _round in 0..2000 {
        let n = 1 + rng.next(5);
        let mut s = WakeupSlot::new(n);
        let mut worker_done = false;
        let mut steps = 0;
        loop {
            let all_done = (0..n).all(|r| s.phase(r) == ReaderPhase::Done);
            if all_done && worker_done {
                break;
            }
            steps += 1;
            assert!(steps < 10_000, "schedule did not finish");
            let who = rng.next(n + 1);
            if who == n {
                if !worker_done {
                    if s.worker_attempt() == CompletionStep::Clear {
                        worker_done = true;
                        for r in 0..n {
                            assert!(!holds(s.phase(r)), "a reader holds a cleared slot");
                        }
                    } else {
                        for r in 0..n {
                            assert_ne!(s.phase(r), ReaderPhase::Waiting);
                        }
                    }
                }
            } else {
                match s.phase(who) {
                    ReaderPhase::Idle => {
                        s.reader_lookup(who);
                    }
                    ReaderPhase::Holding => s.reader_subscribe(who),
                    ReaderPhase::Woken => s.reader_release(who),
                    ReaderPhase::Waiting | ReaderPhase::Done => {}
                }
            }
            if !s.is_live() {
                for r in 0..n {
                    assert_ne!(s.phase(r), ReaderPhase::Waiting);
                }
            }
        }
    }
}

#[test]
fn arbitrary_event_sequences_never_strand_a_reader() {
    let mut rng = Lcg(99);
    for _round in 0..500 {
        let n = 1 + rng.next(4);
        let mut s = WakeupSlot::new(n);
        for _ in 0..200 {
            let r = rng.next(n + 1);
            let e = match rng.next(4) {
                0 => SlotEvent::Lookup(r),
                1 => SlotEvent::Subscribe(r),
                2 => SlotEvent::Release(r),
                _ => SlotEvent::WorkerAttempt,
            };
            s.step(e);
            if !s.is_live() {
                for q in 0..n {
                    assert!(!holds(s.phase(q)));
                }
            }
        }
    }
}

#[test]
fn waiting_reader_woken_by_next_attempt() {
    let mut s = WakeupSlot::new(3);
    s.step(SlotEvent::Lookup(0));
    s.step(SlotEvent::Subscribe(0));
    s.step(SlotEvent::Lookup(1));
    s.step(SlotEvent::WorkerAttempt);
    assert_eq!(s.phase(0), ReaderPhase::Woken);
    assert_eq!(s.phase(1), ReaderPhase::Holding);
    assert!(s.is_live());
    s.step(SlotEvent::Release(0));
    s.step(SlotEvent::Subscribe(1));
    s.step(SlotEvent::WorkerAttempt);
    s.step(SlotEvent::Release(1));
    s.step(SlotEvent::WorkerAttempt);
    assert!(!s.is_live());
    s.step(SlotEvent::Lookup(2));
    assert_eq!(s.phase(2), ReaderPhase::Done);
}
