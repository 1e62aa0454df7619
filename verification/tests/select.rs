use std::sync::atomic::{AtomicUsize, Ordering};
use std::sync::Arc;
use std::task::{Context, Poll, Wake, Waker};

use selectme::{
    random, select, settle, unbiased, PollerWaker, Random, Select, Snapshot, StaticWaker, DISABLED,
};

struct Counter(AtomicUsize);

impl Wake for Counter {
    fn wake(self: Arc<Self>) {
        self.0.fetch_add(1, Ordering::SeqCst);
    }
}

fn counter() -> (Arc<Counter>, Waker) {
    let counter = Arc::new(Counter(AtomicUsize::new(0)));
    let waker = Waker::from(counter.clone());
    (counter, waker)
}

fn woken(counter: &Arc<Counter>) -> usize {
    counter.0.load(Ordering::SeqCst)
}

/// What the callback of a test does when it is asked about a branch.
#[derive(Clone, Copy, PartialEq, Debug)]
enum Act {
    /// The operation has not completed.
    Wait,
    /// The operation has completed and its outcome did not match.
    Mismatch,
    /// The operation has completed with this result.
    Done(u32),
}

/// The operations of a test: what each branch does, and a log of the
/// indices that the callback was asked about.
struct Ops {
    acts: Vec<Act>,
    log: Vec<u32>,
}

fn ops(acts: &[Act]) -> Ops {
    Ops { acts: acts.to_vec(), log: Vec::new() }
}

fn callback(_cx: &mut Context<'_>, ops: &mut Ops, mask: &mut Snapshot<u8>, index: u32) -> Poll<u32> {
    ops.log.push(index);
    if index == DISABLED {
        return Poll::Ready(1000);
    }
    let polled = match ops.acts[index as usize] {
        Act::Wait => Poll::Pending,
        Act::Mismatch => Poll::Ready(None),
        Act::Done(value) => Poll::Ready(Some(value)),
    };
    settle(mask, index, polled)
}

#[test]
fn settle_clears_a_completed_branch_and_passes_a_match_on() {
    let mut mask = Snapshot::new(0b111u8);
    assert_eq!(settle(&mut mask, 1, Poll::<Option<u32>>::Pending), Poll::Pending);
    assert_eq!(mask.state(), 0b111);
    assert_eq!(settle(&mut mask, 1, Poll::<Option<u32>>::Ready(None)), Poll::Pending);
    assert_eq!(mask.state(), 0b101);
    assert_eq!(settle(&mut mask, 2, Poll::Ready(Some(9u32))), Poll::Ready(9));
    assert_eq!(mask.state(), 0b001);
    assert_eq!(settle(&mut mask, 2, Poll::Ready(Some(9u32))), Poll::Ready(9));
    assert_eq!(mask.state(), 0b001);
}

#[test]
fn first_poll_visits_every_enabled_branch() {
    let shared = StaticWaker::new();
    let (count, waker) = counter();
    let mut cx = Context::from_waker(&waker);
    let mut engine = select(&shared, 0b111u8, unbiased(), ops(&[Act::Wait, Act::Wait, Act::Wait]), callback);
    assert_eq!(engine.poll_next(&mut cx), Poll::Pending);
    assert_eq!(engine.state().log, vec![0, 1, 2]);
    // Nothing was registered yet: the engine asks to be polled again.
    assert_eq!(woken(&count), 1);
}

#[test]
fn a_poll_without_ready_branches_registers_and_suspends() {
    let shared = StaticWaker::new();
    let (count, waker) = counter();
    let mut cx = Context::from_waker(&waker);
    let mut engine = select(&shared, 0b11u8, unbiased(), ops(&[Act::Wait, Act::Wait]), callback);
    assert_eq!(engine.poll_next(&mut cx), Poll::Pending);
    assert_eq!(woken(&count), 1);
    assert_eq!(engine.poll_next(&mut cx), Poll::Pending);
    assert_eq!(engine.state().log, vec![0, 1]);
    assert_eq!(woken(&count), 1);
    // The continuation is registered now: a branch that wakes notifies it.
    PollerWaker::new(&shared, 1).wake_by_ref();
    assert_eq!(woken(&count), 2);
    assert_eq!(engine.poll_next(&mut cx), Poll::Pending);
    assert_eq!(engine.state().log, vec![0, 1, 1]);
}

#[test]
fn at_most_one_result_per_poll_and_the_first_in_order_wins() {
    let shared = StaticWaker::new();
    let (_count, waker) = counter();
    let mut cx = Context::from_waker(&waker);
    let acts = [Act::Wait, Act::Done(11), Act::Done(22), Act::Done(33)];
    let mut engine = select(&shared, 0b1111u8, unbiased(), ops(&acts), callback);
    assert_eq!(engine.poll_next(&mut cx), Poll::Ready(11));
    assert_eq!(engine.state().log, vec![0, 1]);
    // The branches after the winner were observed as ready: they are examined
    // on the next poll without any new wakeup.
    assert_eq!(engine.poll_next(&mut cx), Poll::Ready(22));
    assert_eq!(engine.state().log, vec![0, 1, 2]);
    assert_eq!(engine.poll_next(&mut cx), Poll::Ready(33));
    assert_eq!(engine.state().log, vec![0, 1, 2, 3]);
}

#[test]
fn the_bias_decides_which_ready_branch_wins() {
    let shared = StaticWaker::new();
    let (_count, waker) = counter();
    let mut cx = Context::from_waker(&waker);
    let acts = [Act::Done(10), Act::Done(11), Act::Done(12), Act::Done(13)];
    let mut engine = select(&shared, 0b1111u8, Random::new(2), ops(&acts), callback);
    assert_eq!(engine.poll_next(&mut cx), Poll::Ready(12));
    assert_eq!(engine.poll_next(&mut cx), Poll::Ready(13));
    assert_eq!(engine.poll_next(&mut cx), Poll::Ready(10));
    assert_eq!(engine.poll_next(&mut cx), Poll::Ready(11));
    assert_eq!(engine.poll_next(&mut cx), Poll::Ready(1000));
    assert_eq!(engine.state().log, vec![2, 3, 0, 1, DISABLED]);
}

#[test]
fn a_mismatch_disables_the_branch_and_the_visit_goes_on() {
    let shared = StaticWaker::new();
    let (_count, waker) = counter();
    let mut cx = Context::from_waker(&waker);
    let acts = [Act::Mismatch, Act::Done(7)];
    let mut engine = select(&shared, 0b11u8, unbiased(), ops(&acts), callback);
    assert_eq!(engine.poll_next(&mut cx), Poll::Ready(7));
    assert_eq!(engine.state().log, vec![0, 1]);
    // Both branches are disabled now.
    assert_eq!(engine.poll_next(&mut cx), Poll::Ready(1000));
    assert_eq!(engine.state().log, vec![0, 1, DISABLED]);
}

#[test]
fn readiness_behind_a_winner_is_kept_for_the_next_poll() {
    let shared = StaticWaker::new();
    let (count, waker) = counter();
    let mut cx = Context::from_waker(&waker);
    // Branch 0 completes without a match, branch 1 wins, and branches 2 and 3
    // are ready behind it.
    let acts = [Act::Mismatch, Act::Done(1), Act::Wait, Act::Done(3)];
    let mut engine = select(&shared, 0b1111u8, unbiased(), ops(&acts), callback);
    assert_eq!(engine.poll_next(&mut cx), Poll::Ready(1));
    assert_eq!(engine.state().log, vec![0, 1]);
    // No branch has been woken in between.
    assert_eq!(shared.set().take(), 0);
    assert_eq!(engine.poll_next(&mut cx), Poll::Ready(3));
    assert_eq!(engine.state().log, vec![0, 1, 2, 3]);
    assert_eq!(woken(&count), 0);
}

#[test]
fn a_disabled_branch_is_never_polled_again() {
    let shared = StaticWaker::new();
    let (_count, waker) = counter();
    let mut cx = Context::from_waker(&waker);
    let acts = [Act::Mismatch, Act::Wait];
    let mut engine = select(&shared, 0b11u8, unbiased(), ops(&acts), callback);
    assert_eq!(engine.poll_next(&mut cx), Poll::Pending);
    assert_eq!(engine.state().log, vec![0, 1]);
    // A late wakeup of the disabled branch is ignored.
    PollerWaker::new(&shared, 0).wake_by_ref();
    PollerWaker::new(&shared, 1).wake_by_ref();
    assert_eq!(engine.poll_next(&mut cx), Poll::Pending);
    assert_eq!(engine.state().log, vec![0, 1, 1]);
}

#[test]
fn exhaustion_yields_the_sentinel_in_the_same_poll() {
    let shared = StaticWaker::new();
    let (count, waker) = counter();
    let mut cx = Context::from_waker(&waker);
    let acts = [Act::Mismatch, Act::Mismatch];
    let mut engine = select(&shared, 0b11u8, unbiased(), ops(&acts), callback);
    assert_eq!(engine.poll_next(&mut cx), Poll::Ready(1000));
    assert_eq!(engine.state().log, vec![0, 1, DISABLED]);
    assert_eq!(woken(&count), 0);
    // And again on every later poll.
    assert_eq!(engine.poll_next(&mut cx), Poll::Ready(1000));
    assert_eq!(engine.state().log, vec![0, 1, DISABLED, DISABLED]);
}

#[test]
fn an_empty_mask_yields_the_sentinel_at_once() {
    let shared = StaticWaker::new();
    shared.set().set(3);
    let (count, waker) = counter();
    let mut cx = Context::from_waker(&waker);
    let mut engine = select(&shared, 0u8, unbiased(), ops(&[]), callback);
    assert_eq!(engine.poll_next(&mut cx), Poll::Ready(1000));
    assert_eq!(engine.state().log, vec![DISABLED]);
    assert_eq!(woken(&count), 0);
    // The shared interest set was not consulted.
    assert_eq!(shared.set().take(), 0b1000);
}

#[test]
fn guarded_branches_stay_out_whatever_wakes_them() {
    let shared = StaticWaker::new();
    let (_count, waker) = counter();
    let mut cx = Context::from_waker(&waker);
    let acts = [Act::Wait, Act::Done(1), Act::Wait];
    // Branch 1 is disabled by its guard.
    let mut engine = select(&shared, 0b101u8, unbiased(), ops(&acts), callback);
    assert_eq!(engine.poll_next(&mut cx), Poll::Pending);
    PollerWaker::new(&shared, 1).wake_by_ref();
    PollerWaker::new(&shared, 2).wake_by_ref();
    assert_eq!(engine.poll_next(&mut cx), Poll::Pending);
    assert_eq!(engine.state().log, vec![0, 2, 2]);
}

fn greedy(_cx: &mut Context<'_>, log: &mut Vec<u32>, mask: &mut Snapshot<u8>, index: u32) -> Poll<u32> {
    log.push(index);
    // Tries to enable every branch.
    *mask = Snapshot::new(0xff);
    Poll::Pending
}

#[test]
fn the_enabled_mask_never_gains_a_branch() {
    let shared = StaticWaker::new();
    let (_count, waker) = counter();
    let mut cx = Context::from_waker(&waker);
    let mut engine = select(&shared, 0b1u8, unbiased(), Vec::new(), greedy);
    assert_eq!(engine.poll_next(&mut cx), Poll::Pending);
    for index in 0..8 {
        PollerWaker::new(&shared, index).wake_by_ref();
    }
    assert_eq!(engine.poll_next(&mut cx), Poll::Pending);
    assert_eq!(*engine.state(), vec![0, 0]);
}

#[test]
fn a_released_engine_gives_its_ready_branches_back() {
    let shared = StaticWaker::new();
    let (_count, waker) = counter();
    let mut cx = Context::from_waker(&waker);
    let acts = [Act::Done(5), Act::Wait, Act::Wait];
    let mut engine = select(&shared, 0b111u8, unbiased(), ops(&acts), callback);
    assert_eq!(engine.poll_next(&mut cx), Poll::Ready(5));
    engine.release();
    assert_eq!(shared.set().take(), 0b110);
}

#[test]
fn a_wakeup_survives_the_engine_that_did_not_take_it() {
    let shared = StaticWaker::new();
    let (_count, waker) = counter();
    let mut cx = Context::from_waker(&waker);
    {
        let mut first = select(&shared, 0b11u8, unbiased(), ops(&[Act::Wait, Act::Wait]), callback);
        assert_eq!(first.poll_next(&mut cx), Poll::Pending);
        shared.set().set(1);
        first.release();
    }
    let second: Select<'_, u8, Ops, _, _> =
        select(&shared, 0b11u8, unbiased(), ops(&[Act::Wait, Act::Wait]), callback);
    assert_eq!(second.state().log, Vec::<u32>::new());
    assert_eq!(shared.set().take(), 0b10);
}

#[test]
fn the_random_bias_starts_below_64() {
    let shared = StaticWaker::new();
    let (_count, waker) = counter();
    let mut cx = Context::from_waker(&waker);
    for _ in 0..50 {
        let acts = [Act::Done(0), Act::Done(1), Act::Done(2)];
        let mut engine = select(&shared, 0b111u8, random(), ops(&acts), callback);
        let first = engine.poll_next(&mut cx);
        assert!(matches!(first, Poll::Ready(0) | Poll::Ready(1) | Poll::Ready(2)));
        assert_eq!(engine.state().log.len(), 1);
    }
}

#[test]
fn a_closure_with_captured_state_serves_as_callback() {
    let shared = StaticWaker::new();
    let (_count, waker) = counter();
    let mut cx = Context::from_waker(&waker);
    let mut s1_done = false;
    let mut s2_done = false;
    let mut result = 0;
    loop {
        let initial: u32 = if !s1_done { 1 } else { 0 } + if !s2_done { 2 } else { 0 };
        let mut engine = select(
            &shared,
            initial,
            unbiased(),
            (),
            |_cx: &mut Context<'_>, _state: &mut (), mask: &mut Snapshot<u32>, index: u32| {
                match index {
                    0 => {
                        mask.clear(0);
                        s1_done = true;
                        Poll::Ready(1)
                    }
                    1 => {
                        mask.clear(1);
                        s2_done = true;
                        Poll::Ready(2)
                    }
                    DISABLED => Poll::Ready(4),
                    n => panic!("no branch with index `{}`", n),
                }
            },
        );
        let output = match engine.poll_next(&mut cx) {
            Poll::Ready(output) => output,
            Poll::Pending => panic!("every branch completes at once"),
        };
        if output == 4 {
            break;
        }
        result += output;
    }
    assert_eq!(result, 3);
}

/// A plain simulation of one poll: what the engine is expected to ask and to
/// answer, given the enabled and ready branches as bit masks.
fn simulate(
    enabled: &mut u16,
    ready: &mut u16,
    woken: u16,
    offset: u32,
    acts: &[Act],
    log: &mut Vec<u32>,
) -> Poll<u32> {
    if *enabled == 0 {
        log.push(DISABLED);
        return Poll::Ready(1000);
    }
    *ready |= woken & *enabled;
    if *ready == 0 {
        return Poll::Pending;
    }
    let start = *ready;
    for step in 0..16 {
        let index = (step + offset) % 16;
        if start & (1 << index) == 0 {
            continue;
        }
        *ready &= !(1 << index);
        log.push(index);
        match acts[index as usize] {
            Act::Wait => {}
            Act::Mismatch => {
                *enabled &= !(1 << index);
            }
            Act::Done(value) => {
                *enabled &= !(1 << index);
                return Poll::Ready(value);
            }
        }
    }
    if *enabled == 0 {
        log.push(DISABLED);
        return Poll::Ready(1000);
    }
    Poll::Pending
}

fn wide_callback(_cx: &mut Context<'_>, ops: &mut Ops, mask: &mut Snapshot<u16>, index: u32) -> Poll<u32> {
    ops.log.push(index);
    if index == DISABLED {
        return Poll::Ready(1000);
    }
    let polled = match ops.acts[index as usize] {
        Act::Wait => Poll::Pending,
        Act::Mismatch => Poll::Ready(None),
        Act::Done(value) => Poll::Ready(Some(value)),
    };
    settle(mask, index, polled)
}

#[test]
fn the_engine_agrees_with_a_plain_simulation() {
    let mut x: u32 = 2463534242;
    let mut next = move || {
        x ^= x << 13;
        x ^= x >> 17;
        x ^= x << 5;
        x
    };
    for _ in 0..300 {
        let shared = StaticWaker::new();
        let (_count, waker) = counter();
        let mut cx = Context::from_waker(&waker);
        let mask = next() as u16;
        let offset = next() % 40;
        let acts: Vec<Act> = (0..16)
            .map(|index| match next() % 4 {
                0 => Act::Mismatch,
                1 => Act::Done(index),
                _ => Act::Wait,
            })
            .collect();
        let mut engine = select(&shared, mask, Random::new(offset), ops(&acts), wide_callback);
        let mut enabled = mask;
        let mut ready = mask;
        let mut log = Vec::new();
        for _ in 0..12 {
            let woken = next() as u16;
            for index in 0..16 {
                if woken & (1 << index) != 0 {
                    PollerWaker::new(&shared, index).wake_by_ref();
                }
            }
            let mask_before = enabled;
            let expected = simulate(&mut enabled, &mut ready, woken, offset, &acts, &mut log);
            let before = engine.state().log.len();
            assert_eq!(engine.poll_next(&mut cx), expected);
            assert_eq!(engine.state().log, log);
            // At most one result, given by the last branch that was asked.
            if let Poll::Ready(value) = expected {
                if value != 1000 {
                    assert_eq!(*log.last().unwrap(), value);
                }
            }
            assert!(log.len() >= before);
            assert_eq!(enabled & !mask_before, 0);
            if mask_before == 0 {
                // Nothing was taken from the shared set.
                assert_eq!(shared.set().take(), woken as u128);
            }
        }
    }
}

fn numbered(_cx: &mut Context<'_>, log: &mut Vec<u32>, mask: &mut Snapshot<u8>, index: u32) -> Poll<u32> {
    log.push(index);
    if index == DISABLED {
        return Poll::Ready(0);
    }
    mask.clear(index);
    Poll::Ready(index + 1)
}

#[test]
fn the_winner_leaves_the_mask_and_the_branches_behind_it_stay() {
    let shared = StaticWaker::new();
    let (_count, waker) = counter();
    let mut cx = Context::from_waker(&waker);
    let mut engine = select(&shared, 0b11u8, unbiased(), Vec::new(), numbered);
    assert_eq!(engine.mask().state(), 0b11);
    assert_eq!(engine.snapshot().state(), 0b11);
    assert_eq!(engine.poll_next(&mut cx), Poll::Ready(1));
    assert_eq!(*engine.state(), vec![0]);
    assert_eq!(engine.mask().state(), 0b10);
    assert_eq!(engine.snapshot().state(), 0b10);
    assert_eq!(engine.poll_next(&mut cx), Poll::Ready(2));
    assert_eq!(engine.mask().state(), 0);
    assert_eq!(engine.poll_next(&mut cx), Poll::Ready(0));
    assert_eq!(*engine.state(), vec![0, 1, DISABLED]);
}

#[test]
fn a_mismatch_and_a_match_empty_the_mask_in_one_poll() {
    let shared = StaticWaker::new();
    let (_count, waker) = counter();
    let mut cx = Context::from_waker(&waker);
    let acts = [Act::Mismatch, Act::Done(7)];
    let mut engine = select(&shared, 0b11u8, unbiased(), ops(&acts), callback);
    assert_eq!(engine.poll_next(&mut cx), Poll::Ready(7));
    assert_eq!(engine.state().log, vec![0, 1]);
    assert_eq!(engine.mask().state(), 0);
}

#[test]
fn a_branch_that_empties_the_mask_brings_the_sentinel_in_the_same_poll() {
    let shared = StaticWaker::new();
    let (_count, waker) = counter();
    let mut cx = Context::from_waker(&waker);
    let mut engine = select(&shared, 0b1u8, unbiased(), ops(&[Act::Mismatch]), callback);
    assert_eq!(engine.poll_next(&mut cx), Poll::Ready(1000));
    assert_eq!(engine.state().log, vec![0, DISABLED]);
    assert_eq!(engine.mask().state(), 0);
}

#[test]
fn the_engine_clears_no_branch_by_itself() {
    let shared = StaticWaker::new();
    let (_count, waker) = counter();
    let mut cx = Context::from_waker(&waker);
    let acts = [Act::Wait, Act::Wait, Act::Wait];
    let mut engine = select(&shared, 0b101u8, unbiased(), ops(&acts), callback);
    assert_eq!(engine.poll_next(&mut cx), Poll::Pending);
    assert_eq!(engine.state().log, vec![0, 2]);
    assert_eq!(engine.mask().state(), 0b101);
    assert_eq!(engine.snapshot().state(), 0);
    // Nothing ready and nothing gathered: the engine registers and suspends.
    assert_eq!(engine.poll_next(&mut cx), Poll::Pending);
    assert_eq!(engine.state().log, vec![0, 2]);
    assert_eq!(engine.mask().state(), 0b101);
}
