//! Runners on their way between the control thread and the inference thread.
//!
//! Each end of a ring of runners keeps, for proofs, a log of what was done with
//! it, which nothing outside this module can extend but by doing it. What a ring
//! holds depends on the other thread: the logs say what was offered to it and
//! what was found in it, not what it holds.

use rtrb::{Consumer, Producer};
use vstd::prelude::*;

use crate::rings;
use crate::signal::runner::{RateConverter, StageRunner};
use crate::signal::stage::Stage;

verus! {

/// A runner on its way between threads. It is intact.
pub struct ReadyRunner<S: Stage, C: RateConverter> {
    runner: StageRunner<S, C>,
}

impl<S: Stage, C: RateConverter> ReadyRunner<S, C> {
    #[verifier::type_invariant]
    spec fn intact(self) -> bool {
        self.runner.wf()
    }

    /// The runner itself.
    pub closed spec fn inner(&self) -> StageRunner<S, C> {
        self.runner
    }

    /// Wraps an intact runner.
    pub fn new(runner: StageRunner<S, C>) -> (ready: Self)
        requires
            runner.wf(),
        ensures
            ready.inner() == runner,
    {
        ReadyRunner { runner }
    }

    /// The runner itself.
    pub fn into_runner(self) -> (runner: StageRunner<S, C>)
        ensures
            runner == self.inner(),
            runner.wf(),
    {
        proof {
            use_type_invariant(&self);
        }
        self.runner
    }
}

/// The reading end of a ring of runners, and what each look into it has found.
#[verifier::reject_recursive_types(S)]
#[verifier::reject_recursive_types(C)]
pub struct RunnerInbox<S: Stage, C: RateConverter> {
    ring: Consumer<ReadyRunner<S, C>>,
    found: Ghost<Seq<Option<ReadyRunner<S, C>>>>,
}

impl<S: Stage, C: RateConverter> RunnerInbox<S, C> {
    /// What each look has found.
    pub closed spec fn found(&self) -> Seq<Option<ReadyRunner<S, C>>> {
        self.found@
    }

    /// Nothing has been looked for yet.
    pub fn new(ring: Consumer<ReadyRunner<S, C>>) -> (inbox: Self)
        ensures
            inbox.found() == Seq::<Option<ReadyRunner<S, C>>>::empty(),
    {
        RunnerInbox { ring, found: Ghost(Seq::empty()) }
    }

    /// Takes the oldest runner out of the ring, if there is one, which depends
    /// on the other thread.
    pub fn look(&mut self) -> (runner: Option<ReadyRunner<S, C>>)
        ensures
            final(self).found() == old(self).found().push(runner),
    {
        let runner = rings::pop_item(&mut self.ring);
        self.found = Ghost(self.found@.push(runner));
        runner
    }
}

/// A runner that was put into a ring, and whether there was room for it.
pub struct Offer<S: Stage, C: RateConverter> {
    /// The runner.
    pub runner: StageRunner<S, C>,
    /// Whether there was room; a runner without is dropped.
    pub taken: bool,
}

/// The writing end of a ring of runners, and every offer that was made.
#[verifier::reject_recursive_types(S)]
#[verifier::reject_recursive_types(C)]
pub struct RunnerOutbox<S: Stage, C: RateConverter> {
    ring: Producer<ReadyRunner<S, C>>,
    offers: Ghost<Seq<Offer<S, C>>>,
}

impl<S: Stage, C: RateConverter> RunnerOutbox<S, C> {
    /// Every offer that was made.
    pub closed spec fn offers(&self) -> Seq<Offer<S, C>> {
        self.offers@
    }

    /// Nothing has been offered yet.
    pub fn new(ring: Producer<ReadyRunner<S, C>>) -> (outbox: Self)
        ensures
            outbox.offers() == Seq::<Offer<S, C>>::empty(),
    {
        RunnerOutbox { ring, offers: Ghost(Seq::empty()) }
    }

    /// Puts a runner into the ring if there is room, which depends on the other
    /// thread.
    pub fn offer(&mut self, runner: StageRunner<S, C>) -> (taken: bool)
        requires
            runner.wf(),
        ensures
            final(self).offers() == old(self).offers().push(Offer { runner, taken }),
    {
        let ghost offered = runner;
        let taken: bool = rings::push_item(&mut self.ring, ReadyRunner::new(runner));
        self.offers = Ghost(self.offers@.push(Offer { runner: offered, taken }));
        taken
    }
}

/// The runners of a row of offers.
pub open spec fn runners_of<S: Stage, C: RateConverter>(offers: Seq<Offer<S, C>>) -> Seq<
    StageRunner<S, C>,
> {
    offers.map_values(|offer: Offer<S, C>| offer.runner)
}

/// The runners that a row of looks has found.
pub open spec fn runners_found<S: Stage, C: RateConverter>(
    looks: Seq<Option<ReadyRunner<S, C>>>,
) -> Seq<StageRunner<S, C>>
    decreases looks.len(),
{
    if looks.len() == 0 {
        Seq::empty()
    } else {
        match looks.last() {
            Some(ready) => runners_found(looks.drop_last()).push(ready.inner()),
            None => runners_found(looks.drop_last()),
        }
    }
}

/// More looks in a row than a ring is ever asked for.
pub const LOOK_LIMIT: u64 = 0xffff_ffff_ffff_ffff;

/// Whether a ring of runners was emptied by a row of looks into it: every look
/// but the last took a runner out, and the last found none. (A row that never
/// ends is broken off at the limit.)
pub open spec fn emptied_by<T>(looks: Seq<Option<T>>) -> bool {
    &&& 0 < looks.len() <= LOOK_LIMIT
    &&& forall|i: int| 0 <= i < looks.len() - 1 ==> (#[trigger] looks[i]) is Some
    &&& looks.last() is None || looks.len() == LOOK_LIMIT
}

/// The runner that a look has found.
pub open spec fn found_runner<S: Stage, C: RateConverter>(
    look: Option<ReadyRunner<S, C>>,
) -> Option<StageRunner<S, C>> {
    match look {
        Some(ready) => Some(ready.inner()),
        None => None,
    }
}

/// Whether the looks into the ring of returned runners went from `before` to
/// `after` by emptying it. Without a ring there is none.
pub open spec fn retired_drained<T>(
    started: bool,
    before: Seq<Option<T>>,
    after: Seq<Option<T>>,
) -> bool {
    if started {
        before.is_prefix_of(after) && emptied_by(after.skip(before.len() as int))
    } else {
        after == before
    }
}

/// What one more look adds to a row of looks that all found something.
pub proof fn lemma_one_more_look<T>(before: Seq<Option<T>>, held: Seq<Option<T>>, look: Option<T>)
    requires
        before.is_prefix_of(held),
        held.len() - before.len() < LOOK_LIMIT,
        forall|i: int| before.len() <= i < held.len() ==> (#[trigger] held[i]) is Some,
    ensures
        before.is_prefix_of(held.push(look)),
        look is None ==> emptied_by(held.push(look).skip(before.len() as int)),
        look is Some ==> forall|i: int|
            before.len() <= i < held.push(look).len() ==> (#[trigger] held.push(look)[i]) is Some,
{
    let after = held.push(look);
    let looks = after.skip(before.len() as int);
    assert(before =~= after.take(before.len() as int));
    assert forall|i: int| 0 <= i < looks.len() - 1 implies (#[trigger] looks[i]) is Some by {
        assert(held[before.len() + i] is Some);
    }
    assert(looks.last() == look);
}

/// A row of looks that ended has emptied the ring.
pub proof fn lemma_looks_emptied<T>(
    before: Seq<Option<T>>,
    after: Seq<Option<T>>,
    more: bool,
    taken: u64,
)
    requires
        before.is_prefix_of(after),
        more ==> taken == LOOK_LIMIT && after.len() == before.len() + taken && forall|i: int|
            before.len() <= i < after.len() ==> (#[trigger] after[i]) is Some,
        !more ==> emptied_by(after.skip(before.len() as int)),
    ensures
        emptied_by(after.skip(before.len() as int)),
{
    if more {
        let looks = after.skip(before.len() as int);
        assert forall|i: int| 0 <= i < looks.len() - 1 implies (#[trigger] looks[i]) is Some by {
            assert(after[before.len() + i] is Some);
        }
    }
}

/// Runners come out of a mailbox in the order in which they were found, one for each
/// look that found one.
pub proof fn law_found_runners_keep_their_order<S: Stage, C: RateConverter>(
    first: Seq<Option<ReadyRunner<S, C>>>,
    second: Seq<Option<ReadyRunner<S, C>>>,
)
    ensures
        runners_found(first + second) == runners_found(first) + runners_found(second),
        runners_found(second).len() <= second.len(),
        second.len() == 1 ==> runners_found(second) == (match second[0] {
            Some(ready) => seq![ready.inner()],
            None => Seq::empty(),
        }),
        second.len() == 1 && second[0] is Some ==> found_runner(second[0]) == Some(
            second[0]->0.inner(),
        ),
        second.len() == 1 && second[0] is None ==> found_runner(second[0]) is None,
    decreases second.len(),
{
    if second.len() > 0 {
        let shorter = second.drop_last();
        law_found_runners_keep_their_order(first, shorter);
        assert((first + second).drop_last() =~= first + shorter);
        assert(runners_found(first + second) =~= runners_found(first) + runners_found(second));
        if second.len() == 1 {
            assert(shorter =~= Seq::empty());
            assert(runners_found(shorter) =~= Seq::empty());
            assert(runners_found(second) =~= (match second[0] {
                Some(ready) => seq![ready.inner()],
                None => Seq::empty(),
            }));
        }
    } else {
        assert(first + second =~= first);
        assert(runners_found(first) + runners_found(second) =~= runners_found(first));
    }
}

} // verus!
