//! A model of the wakeup protocol between the task that selects and the
//! wakers of its branches, and the proof that it loses no wakeup.
//!
//! The model follows the atomic operations of [`SharedSet`], of
//! [`AtomicWaker`] and of the merge of a [`Poller`] one by one, for one task
//! with one continuation. The threads take their steps in any order. The
//! model has no mask of enabled branches: every index that a waker adds
//! counts as one that the task waits for.
//!
//! [`SharedSet`]: crate::interest::SharedSet
//! [`AtomicWaker`]: crate::atomic_waker::AtomicWaker
//! [`Poller`]: crate::poller::Poller

use vstd::prelude::*;
use crate::atomic_waker::{
    clears,
    delivers,
    enters,
    redelivers,
    IDLE,
    LOOP,
    REGISTER,
    WAKE_BY_REF,
};

verus! {

/// The state word of the waker cell for the two flags.
pub open spec fn word(registering: bool, pending: bool) -> usize {
    if registering {
        if pending {
            3
        } else {
            REGISTER
        }
    } else {
        if pending {
            WAKE_BY_REF
        } else {
            IDLE
        }
    }
}

/// The operations of the cell on its state word, and what it decides from
/// the word it finds, are the operations and decisions of the model on the
/// two flags.
pub proof fn lemma_word(registering: bool, pending: bool)
    ensures
        word(registering, pending) == IDLE <==> !registering && !pending,
        word(registering, pending) & REGISTER == 0 <==> !registering,
        word(registering, pending) & WAKE_BY_REF != 0 <==> pending,
        word(registering, pending) | WAKE_BY_REF == word(registering, true),
        word(registering, pending) & !WAKE_BY_REF == word(registering, false),
{
    assert(0usize & 1 == 0 && 1usize & 1 == 1 && 2usize & 1 == 0 && 3usize & 1 == 1) by (bit_vector);
    assert(0usize & 2 == 0 && 1usize & 2 == 0 && 2usize & 2 == 2 && 3usize & 2 == 2 && 0usize | 2
        == 2 && 1usize | 2 == 3 && 2usize | 2 == 2 && 3usize | 2 == 3 && 0usize & !2usize == 0
        && 1usize & !2usize == 1 && 2usize & !2usize == 0 && 3usize & !2usize == 1)
        by (bit_vector);
}

/// Where the task that selects stands in a poll.
pub enum Task {
    /// It is not polling: it has returned, and runs again once woken.
    Suspended,
    /// It is about to take the lower word of the shared interest set.
    FirstLow,
    /// It is about to take the upper word; the flag tells whether the lower
    /// word held an index.
    FirstHigh(bool),
    /// It is about to register its continuation, for the given time.
    Register(nat),
    /// It has entered the registration and is about to store.
    Store,
    /// It is about to leave the registration; the flag tells whether it
    /// has stored.
    Leave(bool),
    /// It is about to take the lower word once more before it suspends.
    SecondLow,
    /// It is about to take the upper word once more; the flag tells whether
    /// the lower word held an index.
    SecondHigh(bool),
}

/// Where a waker stands in its notification.
pub enum Notifier {
    /// It has not begun.
    Idle,
    /// It has added its index to the interest set and is about to flag the
    /// notification in the cell.
    Published,
    /// It found the cell idle, which makes it the one to remove the flag,
    /// and is about to wake the continuation.
    Deliver,
    /// It has woken the continuation and is about to remove the flag.
    Clear,
    /// It found the notification of another waker flagged and is about to
    /// wake the continuation too.
    Guest,
    /// It is done.
    Done,
}

/// What the task and the wakers share, and where each of them stands.
pub struct World {
    /// The cell's flag "a registration is in flight".
    pub registering: bool,
    /// The cell's flag "a notification has not been delivered yet".
    pub pending: bool,
    /// Whether the cell holds the continuation of the task.
    pub registered: bool,
    /// The indices that the shared interest set holds.
    pub board: Set<nat>,
    /// The indices that wakers have added to the interest set, ever.
    pub published: Set<nat>,
    /// The indices that polls of the task have taken from the interest set,
    /// ever.
    pub observed: Set<nat>,
    /// Whether the task has been woken and has not run since.
    pub woken: bool,
    /// Where the task stands.
    pub task: Task,
    /// Where each waker stands.
    pub notifiers: Seq<Notifier>,
}

/// One step of one thread.
pub enum Action {
    /// The task begins a poll, woken or not.
    Begin,
    /// The task takes its next step in the poll.
    Advance,
    /// The task finds that the cell holds its continuation already and
    /// leaves out the registration.
    Skip,
    /// The task finds the slot of the cell in use by a waker and does not
    /// store.
    Stumble,
    /// The waker with the given number adds the given index to the interest
    /// set.
    Publish(int, nat),
    /// The waker with the given number flags its notification in the cell.
    Flag(int),
    /// The waker with the given number wakes the continuation that the cell
    /// holds.
    Fire(int),
    /// The waker with the given number does not get at the slot of the
    /// cell, which the task is about to store in, and wakes nothing.
    Miss(int),
    /// The waker with the given number removes the flag of the notification.
    Clear(int),
}

/// The world before anything has happened: the task is in its first poll,
/// nothing is registered, and `wakers` wakers have not begun.
pub open spec fn start(wakers: nat) -> World {
    World {
        registering: false,
        pending: false,
        registered: false,
        board: Set::<nat>::empty(),
        published: Set::<nat>::empty(),
        observed: Set::<nat>::empty(),
        woken: false,
        task: Task::FirstLow,
        notifiers: Seq::new(wakers, |k: int| Notifier::Idle),
    }
}

/// The indices of `board` that the lower word of the interest set holds.
pub open spec fn low_part(board: Set<nat>) -> Set<nat> {
    board.filter(|i: nat| i < 64)
}

/// The indices of `board` that the upper word of the interest set holds.
pub open spec fn high_part(board: Set<nat>) -> Set<nat> {
    board.filter(|i: nat| i >= 64)
}

/// The world after the task has taken the lower word, on its way to `then`.
pub open spec fn take_low(world: World, then: spec_fn(bool) -> Task) -> World {
    World {
        board: high_part(world.board),
        observed: world.observed.union(low_part(world.board)),
        task: then(low_part(world.board) != Set::<nat>::empty()),
        ..world
    }
}

/// The world after the task has taken the upper word, when `found` tells
/// whether the lower word held an index. Ready branches keep the task
/// running: it is polled again. Without any, it goes on to `otherwise`.
pub open spec fn take_high(world: World, found: bool, otherwise: Task) -> World {
    let taken = World {
        board: low_part(world.board),
        observed: world.observed.union(high_part(world.board)),
        ..world
    };
    if found || high_part(world.board) != Set::<nat>::empty() {
        World { woken: true, task: Task::Suspended, ..taken }
    } else {
        World { task: otherwise, ..taken }
    }
}

/// The world after the next step of the task in its poll.
pub open spec fn advance(world: World) -> World {
    match world.task {
        Task::Suspended => world,
        Task::FirstLow => take_low(world, |found: bool| Task::FirstHigh(found)),
        Task::FirstHigh(found) => take_high(world, found, Task::Register(0)),
        Task::Register(attempt) => if attempt >= LOOP {
            World { woken: true, task: Task::SecondLow, ..world }
        } else if enters(word(world.registering, world.pending)) {
            World { registering: true, task: Task::Store, ..world }
        } else {
            World { task: Task::Register(attempt + 1), ..world }
        },
        Task::Store => World { registered: true, task: Task::Leave(true), ..world },
        Task::Leave(stored) => World {
            registering: false,
            pending: false,
            woken: world.woken || redelivers(stored, word(world.registering, world.pending)),
            task: Task::SecondLow,
            ..world
        },
        Task::SecondLow => take_low(world, |found: bool| Task::SecondHigh(found)),
        Task::SecondHigh(found) => take_high(world, found, Task::Suspended),
    }
}

/// The world after `action`; an action that cannot be taken changes
/// nothing.
pub open spec fn step(world: World, action: Action) -> World {
    match action {
        Action::Begin => if world.task == Task::Suspended {
            World { woken: false, task: Task::FirstLow, ..world }
        } else {
            world
        },
        Action::Advance => advance(world),
        Action::Skip => if world.task == Task::Register(0) && world.registered {
            World { task: Task::SecondLow, ..world }
        } else {
            world
        },
        Action::Stumble => if world.task == Task::Store {
            World { task: Task::Leave(false), ..world }
        } else {
            world
        },
        Action::Publish(k, index) => if 0 <= k < world.notifiers.len() && world.notifiers[k]
            == Notifier::Idle {
            World {
                board: if index < 128 {
                    world.board.insert(index)
                } else {
                    world.board
                },
                published: if index < 128 {
                    world.published.insert(index)
                } else {
                    world.published
                },
                notifiers: world.notifiers.update(k, Notifier::Published),
                ..world
            }
        } else {
            world
        },
        Action::Flag(k) => if 0 <= k < world.notifiers.len() && world.notifiers[k]
            == Notifier::Published {
            World {
                pending: true,
                notifiers: world.notifiers.update(
                    k,
                    if !delivers(word(world.registering, world.pending)) {
                        Notifier::Done
                    } else if clears(word(world.registering, world.pending)) {
                        Notifier::Deliver
                    } else {
                        Notifier::Guest
                    },
                ),
                ..world
            }
        } else {
            world
        },
        Action::Miss(k) => if 0 <= k < world.notifiers.len() && world.notifiers[k]
            == Notifier::Guest && world.task == Task::Store {
            World { notifiers: world.notifiers.update(k, Notifier::Done), ..world }
        } else {
            world
        },
        Action::Fire(k) => if 0 <= k < world.notifiers.len() && fires(world.notifiers[k]) {
            World {
                woken: world.woken || world.registered,
                notifiers: world.notifiers.update(
                    k,
                    if world.notifiers[k] == Notifier::Deliver {
                        Notifier::Clear
                    } else {
                        Notifier::Done
                    },
                ),
                ..world
            }
        } else {
            world
        },
        Action::Clear(k) => if 0 <= k < world.notifiers.len() && world.notifiers[k]
            == Notifier::Clear {
            World { pending: false, notifiers: world.notifiers.update(k, Notifier::Done), ..world }
        } else {
            world
        },
    }
}

/// The world after the actions of `actions`, in their order, from the start
/// with `wakers` wakers.
pub open spec fn run(wakers: nat, actions: Seq<Action>) -> World
    decreases actions.len(),
{
    if actions.len() == 0 {
        start(wakers)
    } else {
        step(run(wakers, actions.drop_last()), actions.last())
    }
}

/// Whether one of `notifiers` stands at `phase`.
pub open spec fn stands(notifiers: Seq<Notifier>, phase: Notifier) -> bool {
    exists|k: int| 0 <= k < notifiers.len() && #[trigger] notifiers[k] == phase
}

/// Whether some waker stands at `phase`.
pub open spec fn some_at(world: World, phase: Notifier) -> bool {
    stands(world.notifiers, phase)
}

/// Whether a waker at `phase` is the one to remove the flag of the
/// notification.
pub open spec fn owns(phase: Notifier) -> bool {
    phase == Notifier::Deliver || phase == Notifier::Clear
}

/// Whether a waker at `phase` is about to wake the continuation.
pub open spec fn fires(phase: Notifier) -> bool {
    phase == Notifier::Deliver || phase == Notifier::Guest
}

/// Whether the task is in a poll.
pub open spec fn polling(world: World) -> bool {
    world.task != Task::Suspended
}

/// The indices in the interest set that no take of the poll in progress
/// will reach: all of them when the task is suspended; those of the lower
/// word once the task has taken it for the second time; none otherwise.
pub open spec fn behind(world: World) -> Set<nat> {
    match world.task {
        Task::Suspended => world.board,
        Task::SecondHigh(_) => low_part(world.board),
        _ => Set::<nat>::empty(),
    }
}

/// What holds of every world that the threads can reach.
///
/// - An index that a waker has added has been taken by a poll or is still
///   in the interest set, and nothing else is.
/// - A registration is flagged exactly while the task stores or leaves.
/// - A waker is the one to remove the flag of the notification only while
///   that flag is set and no registration is flagged, and only one waker at
///   a time is.
/// - A task that is not polling is registered or woken, and so is one that
///   takes for the second time; one that has stored is registered.
/// - Whenever the interest set holds an index that the poll in progress
///   will not reach, something will bring the task to poll again: the task
///   is woken, or a waker is about to flag its notification or to wake the
///   registered continuation.
pub open spec fn sound(world: World) -> bool {
    &&& world.registering <==> (world.task == Task::Store || world.task is Leave)
    &&& some_at(world, Notifier::Deliver) || some_at(world, Notifier::Clear) ==> world.pending
        && !world.registering
    &&& world.pending && !world.registering ==> some_at(world, Notifier::Deliver) || some_at(
        world,
        Notifier::Clear,
    )
    &&& forall|j: int, k: int|
        0 <= j < world.notifiers.len() && 0 <= k < world.notifiers.len() && owns(
            #[trigger] world.notifiers[j],
        ) && owns(#[trigger] world.notifiers[k]) ==> j == k
    &&& !world.registered ==> polling(world) || world.woken
    &&& world.task == Task::Leave(true) ==> world.registered
    &&& (world.task == Task::SecondLow || world.task is SecondHigh) ==> world.registered
        || world.woken
    &&& forall|i: nat| world.board.contains(i) ==> i < 128
    &&& world.published == world.observed.union(world.board)
    &&& behind(world) != Set::<nat>::empty() ==> world.woken || some_at(
        world,
        Notifier::Published,
    ) || ((some_at(world, Notifier::Deliver) || some_at(world, Notifier::Guest))
        && world.registered)
}

/// Every step leads from a sound world to a sound world.
pub proof fn lemma_step_keeps_sound(world: World, action: Action)
    requires
        sound(world),
    ensures
        sound(step(world, action)),
{
    let next = step(world, action);
    lemma_word(world.registering, world.pending);
    match action {
        Action::Begin => {
            assert(next.notifiers == world.notifiers);
        },
        Action::Skip => {
            assert(next.notifiers == world.notifiers);
        },
        Action::Stumble => {
            assert(next.notifiers == world.notifiers);
        },
        Action::Advance => {
            assert(next.notifiers == world.notifiers);
            assert(low_part(world.board).union(high_part(world.board)) =~= world.board);
            assert(next.published =~= next.observed.union(next.board));
            match world.task {
                Task::SecondHigh(found) => {
                    if !found && high_part(world.board) == Set::<nat>::empty() {
                        assert forall|i: nat| world.board.contains(i) implies i < 64 by {
                            assert(!high_part(world.board).contains(i));
                        }
                        assert(low_part(world.board) =~= world.board);
                    }
                    assert(low_part(low_part(world.board)) =~= low_part(world.board));
                },
                Task::SecondLow => {
                    assert(low_part(high_part(world.board)) =~= Set::<nat>::empty());
                },
                _ => {},
            }
        },
        Action::Publish(k, index) => {
            if 0 <= k < world.notifiers.len() && world.notifiers[k] == Notifier::Idle {
                lemma_others_stay(world.notifiers, k, Notifier::Published);
                assert(next.notifiers[k] == Notifier::Published);
                assert(next.published =~= next.observed.union(next.board));
            }
        },
        Action::Flag(k) => {
            if 0 <= k < world.notifiers.len() && world.notifiers[k] == Notifier::Published {
                let to = next.notifiers[k];
                lemma_others_stay(world.notifiers, k, to);
                if to == Notifier::Deliver {
                    assert(!some_at(world, Notifier::Deliver));
                }
            }
        },
        Action::Miss(k) => {
            if 0 <= k < world.notifiers.len() && world.notifiers[k] == Notifier::Guest
                && world.task == Task::Store {
                lemma_others_stay(world.notifiers, k, Notifier::Done);
            }
        },
        Action::Fire(k) => {
            if 0 <= k < world.notifiers.len() && world.notifiers[k] == Notifier::Deliver {
                lemma_others_stay(world.notifiers, k, Notifier::Clear);
                assert(some_at(world, Notifier::Deliver));
                lemma_only_one_owns(world, next, k);
            } else if 0 <= k < world.notifiers.len() && world.notifiers[k] == Notifier::Guest {
                lemma_others_stay(world.notifiers, k, Notifier::Done);
                assert(some_at(world, Notifier::Guest));
            }
        },
        Action::Clear(k) => {
            if 0 <= k < world.notifiers.len() && world.notifiers[k] == Notifier::Clear {
                lemma_others_stay(world.notifiers, k, Notifier::Done);
                assert(some_at(world, Notifier::Clear));
                lemma_only_one_owns(world, next, k);
            }
        },
    }
}

/// When the one waker that is to remove the flag moves on, no other waker
/// stands where it stood.
proof fn lemma_only_one_owns(world: World, next: World, k: int)
    requires
        sound(world),
        0 <= k < world.notifiers.len(),
        owns(world.notifiers[k]),
        next.notifiers.len() == world.notifiers.len(),
        forall|j: int|
            0 <= j < world.notifiers.len() && j != k ==> #[trigger] next.notifiers[j]
                == world.notifiers[j],
    ensures
        next.notifiers[k] != Notifier::Deliver ==> !some_at(next, Notifier::Deliver),
        next.notifiers[k] != Notifier::Clear ==> !some_at(next, Notifier::Clear),
{
    if next.notifiers[k] != Notifier::Deliver && some_at(next, Notifier::Deliver) {
        let j = choose|j: int|
            0 <= j < next.notifiers.len() && #[trigger] next.notifiers[j] == Notifier::Deliver;
        assert(world.notifiers[j] == Notifier::Deliver);
    }
    if next.notifiers[k] != Notifier::Clear && some_at(next, Notifier::Clear) {
        let j = choose|j: int|
            0 <= j < next.notifiers.len() && #[trigger] next.notifiers[j] == Notifier::Clear;
        assert(world.notifiers[j] == Notifier::Clear);
    }
}

/// After the waker `k` has moved on to `to`, every other waker stands where
/// it stood: some waker stands at `to`; a phase other than the one that `k`
/// has left is still held if it was; and a phase other than `to` is held
/// only if it was.
pub proof fn lemma_others_stay(notifiers: Seq<Notifier>, k: int, to: Notifier)
    requires
        0 <= k < notifiers.len(),
    ensures
        forall|j: int|
            0 <= j < notifiers.len() && j != k ==> #[trigger] notifiers.update(k, to)[j]
                == notifiers[j],
        notifiers.update(k, to)[k] == to,
        notifiers.update(k, to).len() == notifiers.len(),
        stands(notifiers.update(k, to), to),
        forall|phase: Notifier|
            phase != notifiers[k] && #[trigger] stands(notifiers, phase) ==> stands(
                notifiers.update(k, to),
                phase,
            ),
        forall|phase: Notifier|
            phase != to && #[trigger] stands(notifiers.update(k, to), phase) ==> stands(
                notifiers,
                phase,
            ),
{
    let moved = notifiers.update(k, to);
    assert(moved[k] == to);
    assert forall|phase: Notifier|
        phase != notifiers[k] && #[trigger] stands(notifiers, phase) implies stands(
        moved,
        phase,
    ) by {
        let j = choose|j: int| 0 <= j < notifiers.len() && #[trigger] notifiers[j] == phase;
        assert(moved[j] == phase);
    }
    assert forall|phase: Notifier| phase != to && #[trigger] stands(moved, phase) implies stands(
        notifiers,
        phase,
    ) by {
        let j = choose|j: int| 0 <= j < moved.len() && #[trigger] moved[j] == phase;
        assert(notifiers[j] == phase);
    }
}

/// The world is sound however the threads take their steps.
pub proof fn lemma_sound_always(wakers: nat, actions: Seq<Action>)
    ensures
        sound(run(wakers, actions)),
    decreases actions.len(),
{
    if actions.len() == 0 {
        let world = start(wakers);
        assert(!some_at(world, Notifier::Deliver));
        assert(!some_at(world, Notifier::Clear));
        assert(world.published =~= world.observed.union(world.board));
    } else {
        lemma_sound_always(wakers, actions.drop_last());
        lemma_step_keeps_sound(run(wakers, actions.drop_last()), actions.last());
    }
}

/// No wakeup is lost: however the steps of the task and of the wakers
/// interleave, when the task is suspended without a wakeup to come and no
/// waker is in the middle of a notification, the shared interest set is
/// empty, and every index that a waker has added was taken by a poll.
pub proof fn lemma_no_wakeup_lost(wakers: nat, actions: Seq<Action>)
    requires
        run(wakers, actions).task == Task::Suspended,
        !run(wakers, actions).woken,
        forall|k: int|
            0 <= k < run(wakers, actions).notifiers.len() ==> #[trigger] run(
                wakers,
                actions,
            ).notifiers[k] == Notifier::Idle || run(wakers, actions).notifiers[k]
                == Notifier::Done,
    ensures
        run(wakers, actions).board == Set::<nat>::empty(),
        run(wakers, actions).observed == run(wakers, actions).published,
{
    lemma_sound_always(wakers, actions);
    let world = run(wakers, actions);
    assert(world.observed.union(world.board) =~= world.observed);
}

} // verus!
