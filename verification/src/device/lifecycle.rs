//! Starting and stopping a transport.
//!
//! A transport is started by a list of steps, each of which can fail. What the
//! steps before a failure have acquired is released again, in an order in
//! which nothing is released while something else still uses it.

use vstd::prelude::*;

verus! {

/// The unit a step is about.
#[derive(Debug, Clone, Copy, PartialEq, Eq, Structural)]
pub enum UnitRole {
    /// The unit on the aggregate device, which captures and renders.
    Aggregate,
    /// The input-only unit on a microphone that runs at its own rate.
    Capture,
    /// The output-only unit on the virtual output.
    Output,
    /// The output-only unit that plays the preview.
    Monitor,
}

/// One step of starting a transport.
#[derive(Debug, Clone, Copy, PartialEq, Eq, Structural)]
pub enum StartStep {
    /// Check the capture rate and set the converter up.
    PrepareConverter,
    /// Create the semaphore that wakes the worker.
    CreateSemaphore,
    /// Create a unit.
    Create(UnitRole),
    /// Configure a unit.
    Configure(UnitRole),
    /// Allocate a unit's callback context.
    Allocate(UnitRole),
    /// Attach a unit's callback.
    Attach(UnitRole),
    /// Initialize a unit.
    Initialize(UnitRole),
    /// Read the audio workgroup of a unit.
    ReadWorkgroup(UnitRole),
    /// Spawn the inference worker.
    SpawnWorker,
    /// Start a unit: its callbacks begin.
    Start(UnitRole),
}

/// One step of taking a transport down.
#[derive(Debug, Clone, Copy, PartialEq, Eq, Structural)]
pub enum Cleanup {
    /// Stop a unit: its callbacks cease.
    Stop(UnitRole),
    /// Raise the shutdown flag, wake the worker and join it.
    JoinWorker,
    /// Free a unit's callback context.
    Free(UnitRole),
    /// Uninitialize a unit.
    Uninitialize(UnitRole),
    /// Dispose of a unit.
    Dispose(UnitRole),
    /// Release the semaphore.
    ReleaseSemaphore,
}

/// The steps that start a transport on an aggregate device.
pub open spec fn aggregate_steps() -> Seq<StartStep> {
    seq![
        StartStep::CreateSemaphore,
        StartStep::Create(UnitRole::Aggregate),
        StartStep::Configure(UnitRole::Aggregate),
        StartStep::Allocate(UnitRole::Aggregate),
        StartStep::Attach(UnitRole::Aggregate),
        StartStep::Initialize(UnitRole::Aggregate),
        StartStep::ReadWorkgroup(UnitRole::Aggregate),
        StartStep::SpawnWorker,
        StartStep::Start(UnitRole::Aggregate),
    ]
}

/// The steps that start a transport with a unit for each direction. The rate
/// is checked before any audio object is touched.
pub open spec fn split_steps() -> Seq<StartStep> {
    seq![
        StartStep::PrepareConverter,
        StartStep::CreateSemaphore,
        StartStep::Create(UnitRole::Capture),
        StartStep::Configure(UnitRole::Capture),
        StartStep::Allocate(UnitRole::Capture),
        StartStep::Attach(UnitRole::Capture),
        StartStep::Initialize(UnitRole::Capture),
        StartStep::ReadWorkgroup(UnitRole::Capture),
        StartStep::Create(UnitRole::Output),
        StartStep::Configure(UnitRole::Output),
        StartStep::Allocate(UnitRole::Output),
        StartStep::Attach(UnitRole::Output),
        StartStep::Initialize(UnitRole::Output),
        StartStep::SpawnWorker,
        StartStep::Start(UnitRole::Capture),
        StartStep::Start(UnitRole::Output),
    ]
}

/// The steps that start the preview's unit.
pub open spec fn monitor_steps() -> Seq<StartStep> {
    seq![
        StartStep::Create(UnitRole::Monitor),
        StartStep::Configure(UnitRole::Monitor),
        StartStep::Allocate(UnitRole::Monitor),
        StartStep::Attach(UnitRole::Monitor),
        StartStep::Initialize(UnitRole::Monitor),
        StartStep::Start(UnitRole::Monitor),
    ]
}

/// The units that were started, in order, each stopped.
pub open spec fn stops(done: Seq<StartStep>) -> Seq<Cleanup>
    decreases done.len(),
{
    if done.len() == 0 {
        Seq::empty()
    } else {
        match done.last() {
            StartStep::Start(role) => stops(done.drop_last()).push(Cleanup::Stop(role)),
            _ => stops(done.drop_last()),
        }
    }
}

/// The end of the worker, if it was spawned.
pub open spec fn joins(done: Seq<StartStep>) -> Seq<Cleanup> {
    if done.contains(StartStep::SpawnWorker) {
        seq![Cleanup::JoinWorker]
    } else {
        Seq::empty()
    }
}

/// What one step acquired, released. `done` is every step that was done.
pub open spec fn release(done: Seq<StartStep>, step: StartStep) -> Seq<Cleanup> {
    match step {
        StartStep::CreateSemaphore => seq![Cleanup::ReleaseSemaphore],
        StartStep::Allocate(role) => seq![Cleanup::Free(role)],
        StartStep::Create(role) => if done.contains(StartStep::Initialize(role)) {
            seq![Cleanup::Uninitialize(role), Cleanup::Dispose(role)]
        } else {
            seq![Cleanup::Dispose(role)]
        },
        _ => Seq::empty(),
    }
}

/// What the first `count` steps acquired, released in reverse order.
pub open spec fn releases(done: Seq<StartStep>, count: nat) -> Seq<Cleanup>
    decreases count,
{
    if count == 0 {
        Seq::empty()
    } else {
        release(done, done[count - 1]) + releases(done, (count - 1) as nat)
    }
}

/// The cleanup after the step that follows `done` has failed: the units that
/// run are stopped, the worker is joined, and the rest is released in reverse
/// order.
pub open spec fn rollback(done: Seq<StartStep>) -> Seq<Cleanup> {
    stops(done) + joins(done) + releases(done, done.len())
}

/// A transport that is being started.
#[derive(Debug)]
pub struct Startup {
    steps: Vec<StartStep>,
    done: usize,
}

/// Whether a step is among the steps.
fn has_step(steps: &Vec<StartStep>, count: usize, wanted: StartStep) -> (found: bool)
    requires
        count <= steps@.len(),
    ensures
        found == steps@.take(count as int).contains(wanted),
{
    let ghost done = steps@.take(count as int);
    let mut i: usize = 0;
    while i < count
        invariant
            i <= count <= steps@.len(),
            done == steps@.take(count as int),
            forall|k: int| 0 <= k < i ==> #[trigger] done[k] != wanted,
        decreases count - i,
    {
        if steps[i] == wanted {
            assert(done[i as int] == wanted);
            return true;
        }
        i = i + 1;
    }
    false
}

impl Startup {
    /// The steps in order.
    pub closed spec fn plan(&self) -> Seq<StartStep> {
        self.steps@
    }

    /// How many of them are done.
    pub closed spec fn progress(&self) -> nat {
        self.done as nat
    }

    /// No more steps are done than there are.
    pub closed spec fn wf(&self) -> bool {
        self.done <= self.steps@.len()
    }

    /// The steps that are done.
    pub open spec fn finished(&self) -> Seq<StartStep> {
        self.plan().take(self.progress() as int)
    }

    /// Begins to start a transport on an aggregate device.
    pub fn aggregate() -> (startup: Self)
        ensures
            startup.wf(),
            startup.plan() == aggregate_steps(),
            startup.progress() == 0,
    {
        let steps = vec![
            StartStep::CreateSemaphore,
            StartStep::Create(UnitRole::Aggregate),
            StartStep::Configure(UnitRole::Aggregate),
            StartStep::Allocate(UnitRole::Aggregate),
            StartStep::Attach(UnitRole::Aggregate),
            StartStep::Initialize(UnitRole::Aggregate),
            StartStep::ReadWorkgroup(UnitRole::Aggregate),
            StartStep::SpawnWorker,
            StartStep::Start(UnitRole::Aggregate),
        ];
        assert(steps@ =~= aggregate_steps());
        Startup { steps, done: 0 }
    }

    /// Begins to start a transport with a unit for each direction.
    pub fn split() -> (startup: Self)
        ensures
            startup.wf(),
            startup.plan() == split_steps(),
            startup.progress() == 0,
    {
        let steps = vec![
            StartStep::PrepareConverter,
            StartStep::CreateSemaphore,
            StartStep::Create(UnitRole::Capture),
            StartStep::Configure(UnitRole::Capture),
            StartStep::Allocate(UnitRole::Capture),
            StartStep::Attach(UnitRole::Capture),
            StartStep::Initialize(UnitRole::Capture),
            StartStep::ReadWorkgroup(UnitRole::Capture),
            StartStep::Create(UnitRole::Output),
            StartStep::Configure(UnitRole::Output),
            StartStep::Allocate(UnitRole::Output),
            StartStep::Attach(UnitRole::Output),
            StartStep::Initialize(UnitRole::Output),
            StartStep::SpawnWorker,
            StartStep::Start(UnitRole::Capture),
            StartStep::Start(UnitRole::Output),
        ];
        assert(steps@ =~= split_steps());
        Startup { steps, done: 0 }
    }

    /// Begins to start the preview's unit.
    pub fn monitor() -> (startup: Self)
        ensures
            startup.wf(),
            startup.plan() == monitor_steps(),
            startup.progress() == 0,
    {
        let steps = vec![
            StartStep::Create(UnitRole::Monitor),
            StartStep::Configure(UnitRole::Monitor),
            StartStep::Allocate(UnitRole::Monitor),
            StartStep::Attach(UnitRole::Monitor),
            StartStep::Initialize(UnitRole::Monitor),
            StartStep::Start(UnitRole::Monitor),
        ];
        assert(steps@ =~= monitor_steps());
        Startup { steps, done: 0 }
    }

    /// The step to perform, or `None` when the transport runs.
    pub fn next_step(&self) -> (step: Option<StartStep>)
        requires
            self.wf(),
        ensures
            step == (if self.progress() < self.plan().len() {
                Some(self.plan()[self.progress() as int])
            } else {
                None
            }),
    {
        if self.done < self.steps.len() {
            Some(self.steps[self.done])
        } else {
            None
        }
    }

    /// The step succeeded: go on to the next.
    pub fn advance(&mut self)
        requires
            old(self).wf(),
            old(self).progress() < old(self).plan().len(),
        ensures
            final(self).wf(),
            final(self).plan() == old(self).plan(),
            final(self).progress() == old(self).progress() + 1,
    {
        let total: usize = self.steps.len();
        assert(self.done < total);
        self.done = self.done + 1;
    }

    /// The step failed: what to do to leave nothing behind.
    pub fn fail(&self) -> (cleanup: Vec<Cleanup>)
        requires
            self.wf(),
        ensures
            cleanup@ == rollback(self.finished()),
    {
        let ghost done = self.finished();
        let mut cleanup: Vec<Cleanup> = Vec::new();
        let mut i: usize = 0;
        assert(done.take(0) =~= Seq::<StartStep>::empty());
        assert(cleanup@ =~= stops(done.take(0)));
        while i < self.done
            invariant
                self.wf(),
                done == self.finished(),
                i <= self.done,
                cleanup@ == stops(done.take(i as int)),
            decreases self.done - i,
        {
            proof {
                assert(done.take(i + 1).drop_last() =~= done.take(i as int));
                assert(done.take(i + 1).last() == self.steps@[i as int]);
            }
            match self.steps[i] {
                StartStep::Start(role) => {
                    cleanup.push(Cleanup::Stop(role));
                },
                _ => {},
            }
            i = i + 1;
        }
        assert(done.take(i as int) =~= done);
        if has_step(&self.steps, self.done, StartStep::SpawnWorker) {
            cleanup.push(Cleanup::JoinWorker);
        }
        let ghost begun = cleanup@;
        assert(begun =~= stops(done) + joins(done));
        let mut left: usize = self.done;
        assert(begun + releases(done, left as nat) =~= cleanup@ + releases(done, left as nat));
        while left > 0
            invariant
                self.wf(),
                done == self.finished(),
                left <= self.done,
                done.len() == self.done,
                cleanup@ + releases(done, left as nat) == begun + releases(
                    done,
                    self.done as nat,
                ),
            decreases left,
        {
            let ghost before = cleanup@;
            assert(done[left - 1] == self.steps@[left - 1]);
            let step: StartStep = self.steps[left - 1];
            match step {
                StartStep::CreateSemaphore => {
                    cleanup.push(Cleanup::ReleaseSemaphore);
                },
                StartStep::Allocate(role) => {
                    cleanup.push(Cleanup::Free(role));
                },
                StartStep::Create(role) => {
                    if has_step(&self.steps, self.done, StartStep::Initialize(role)) {
                        cleanup.push(Cleanup::Uninitialize(role));
                    }
                    cleanup.push(Cleanup::Dispose(role));
                },
                _ => {},
            }
            proof {
                assert(cleanup@ =~= before + release(done, done[left - 1]));
                assert(before + releases(done, left as nat) =~= cleanup@ + releases(
                    done,
                    (left - 1) as nat,
                ));
            }
            left = left - 1;
        }
        assert(cleanup@ =~= cleanup@ + releases(done, 0));
        assert(cleanup@ =~= rollback(done));
        cleanup
    }
}

/// A transport that runs, as a set of steps.
#[derive(Debug, Clone, Copy, PartialEq, Eq, Structural)]
pub enum Transport {
    /// One unit on an aggregate device.
    Aggregate,
    /// A unit for each direction.
    Split,
    /// The preview's unit.
    Preview,
}

impl Transport {
    /// The steps that started it.
    pub open spec fn steps(self) -> Seq<StartStep> {
        match self {
            Transport::Aggregate => aggregate_steps(),
            Transport::Split => split_steps(),
            Transport::Preview => monitor_steps(),
        }
    }

    /// What takes it down: the units are stopped first, so that the callbacks
    /// cease before the worker is joined; then each unit goes, followed by its
    /// context.
    pub open spec fn takedown(self) -> Seq<Cleanup> {
        match self {
            Transport::Aggregate => seq![
                Cleanup::Stop(UnitRole::Aggregate),
                Cleanup::JoinWorker,
                Cleanup::Uninitialize(UnitRole::Aggregate),
                Cleanup::Dispose(UnitRole::Aggregate),
                Cleanup::Free(UnitRole::Aggregate),
            ],
            Transport::Split => seq![
                Cleanup::Stop(UnitRole::Capture),
                Cleanup::Stop(UnitRole::Output),
                Cleanup::JoinWorker,
                Cleanup::Uninitialize(UnitRole::Capture),
                Cleanup::Dispose(UnitRole::Capture),
                Cleanup::Free(UnitRole::Capture),
                Cleanup::Uninitialize(UnitRole::Output),
                Cleanup::Dispose(UnitRole::Output),
                Cleanup::Free(UnitRole::Output),
            ],
            Transport::Preview => seq![
                Cleanup::Stop(UnitRole::Monitor),
                Cleanup::Uninitialize(UnitRole::Monitor),
                Cleanup::Dispose(UnitRole::Monitor),
                Cleanup::Free(UnitRole::Monitor),
            ],
        }
    }

    /// What takes it down.
    pub fn take_down(self) -> (cleanup: Vec<Cleanup>)
        ensures
            cleanup@ == self.takedown(),
    {
        let cleanup = match self {
            Transport::Aggregate => vec![
                Cleanup::Stop(UnitRole::Aggregate),
                Cleanup::JoinWorker,
                Cleanup::Uninitialize(UnitRole::Aggregate),
                Cleanup::Dispose(UnitRole::Aggregate),
                Cleanup::Free(UnitRole::Aggregate),
            ],
            Transport::Split => vec![
                Cleanup::Stop(UnitRole::Capture),
                Cleanup::Stop(UnitRole::Output),
                Cleanup::JoinWorker,
                Cleanup::Uninitialize(UnitRole::Capture),
                Cleanup::Dispose(UnitRole::Capture),
                Cleanup::Free(UnitRole::Capture),
                Cleanup::Uninitialize(UnitRole::Output),
                Cleanup::Dispose(UnitRole::Output),
                Cleanup::Free(UnitRole::Output),
            ],
            Transport::Preview => vec![
                Cleanup::Stop(UnitRole::Monitor),
                Cleanup::Uninitialize(UnitRole::Monitor),
                Cleanup::Dispose(UnitRole::Monitor),
                Cleanup::Free(UnitRole::Monitor),
            ],
        };
        assert(cleanup@ =~= self.takedown());
        cleanup
    }
}

/// Whether a cleanup undoes everything the steps have acquired.
pub open spec fn undoes(cleanup: Seq<Cleanup>, done: Seq<StartStep>) -> bool {
    &&& done.contains(StartStep::SpawnWorker) ==> cleanup.contains(Cleanup::JoinWorker)
    &&& forall|role: UnitRole|
        #[trigger] done.contains(StartStep::Create(role)) ==> cleanup.contains(
            Cleanup::Dispose(role),
        )
    &&& forall|role: UnitRole|
        #[trigger] done.contains(StartStep::Allocate(role)) ==> cleanup.contains(
            Cleanup::Free(role),
        )
    &&& forall|role: UnitRole|
        #[trigger] done.contains(StartStep::Start(role)) ==> cleanup.contains(Cleanup::Stop(role))
    &&& forall|role: UnitRole|
        #[trigger] done.contains(StartStep::Initialize(role)) && done.contains(
            StartStep::Create(role),
        ) ==> cleanup.contains(Cleanup::Uninitialize(role))
}

/// A failed start leaves nothing behind: whatever step fails, everything that
/// was acquired is released.
pub proof fn law_failed_start_leaks_nothing(done: Seq<StartStep>)
    ensures
        undoes(rollback(done), done),
        done.contains(StartStep::CreateSemaphore) ==> rollback(done).contains(
            Cleanup::ReleaseSemaphore,
        ),
{
    let cleanup = rollback(done);
    if done.contains(StartStep::SpawnWorker) {
        assert(cleanup[stops(done).len() as int] == Cleanup::JoinWorker);
    }
    assert forall|role: UnitRole| #[trigger]
        done.contains(StartStep::Create(role)) implies cleanup.contains(
        Cleanup::Dispose(role),
    ) by {
        let i = choose|i: int| 0 <= i < done.len() && done[i] == StartStep::Create(role);
        let released = release(done, done[i]);
        assert(released[released.len() - 1] == Cleanup::Dispose(role));
        lemma_released(done, i, Cleanup::Dispose(role));
    }
    assert forall|role: UnitRole| #[trigger]
        done.contains(StartStep::Allocate(role)) implies cleanup.contains(Cleanup::Free(role)) by {
        let i = choose|i: int| 0 <= i < done.len() && done[i] == StartStep::Allocate(role);
        assert(release(done, done[i])[0] == Cleanup::Free(role));
        lemma_released(done, i, Cleanup::Free(role));
    }
    assert forall|role: UnitRole| #[trigger]
        done.contains(StartStep::Start(role)) implies cleanup.contains(Cleanup::Stop(role)) by {
        lemma_stopped(done, role);
        let i = choose|i: int| 0 <= i < stops(done).len() && stops(done)[i] == Cleanup::Stop(role);
        assert(cleanup[i] == Cleanup::Stop(role));
    }
    assert forall|role: UnitRole| #[trigger]
        done.contains(StartStep::Initialize(role)) && done.contains(
            StartStep::Create(role),
        ) implies cleanup.contains(Cleanup::Uninitialize(role)) by {
        let i = choose|i: int| 0 <= i < done.len() && done[i] == StartStep::Create(role);
        assert(release(done, done[i])[0] == Cleanup::Uninitialize(role));
        lemma_released(done, i, Cleanup::Uninitialize(role));
    }
    if done.contains(StartStep::CreateSemaphore) {
        let i = choose|i: int| 0 <= i < done.len() && done[i] == StartStep::CreateSemaphore;
        assert(release(done, done[i])[0] == Cleanup::ReleaseSemaphore);
        lemma_released(done, i, Cleanup::ReleaseSemaphore);
    }
}

/// What one step's release holds is in the rollback.
proof fn lemma_released(done: Seq<StartStep>, i: int, item: Cleanup)
    requires
        0 <= i < done.len(),
        release(done, done[i]).contains(item),
    ensures
        rollback(done).contains(item),
{
    lemma_in_releases(done, i, done.len(), item);
    let all = releases(done, done.len());
    let k = choose|k: int| 0 <= k < all.len() && all[k] == item;
    let before = stops(done) + joins(done);
    assert(rollback(done)[before.len() + k] == item);
}

proof fn lemma_in_releases(done: Seq<StartStep>, i: int, count: nat, item: Cleanup)
    requires
        0 <= i < count <= done.len(),
        release(done, done[i]).contains(item),
    ensures
        releases(done, count).contains(item),
    decreases count,
{
    let first = release(done, done[count - 1]);
    let rest = releases(done, (count - 1) as nat);
    if i == count - 1 {
        let k = choose|k: int| 0 <= k < first.len() && first[k] == item;
        assert((first + rest)[k] == item);
    } else {
        lemma_in_releases(done, i, (count - 1) as nat, item);
        let k = choose|k: int| 0 <= k < rest.len() && rest[k] == item;
        assert((first + rest)[first.len() + k] == item);
    }
}

proof fn lemma_stopped(done: Seq<StartStep>, role: UnitRole)
    requires
        done.contains(StartStep::Start(role)),
    ensures
        stops(done).contains(Cleanup::Stop(role)),
    decreases done.len(),
{
    let rest = done.drop_last();
    if done.last() == StartStep::Start(role) {
        assert(stops(done)[stops(done).len() - 1] == Cleanup::Stop(role));
    } else {
        let i = choose|i: int| 0 <= i < done.len() && done[i] == StartStep::Start(role);
        assert(rest[i] == StartStep::Start(role));
        lemma_stopped(rest, role);
        let k = choose|k: int| 0 <= k < stops(rest).len() && stops(rest)[k] == Cleanup::Stop(role);
        assert(stops(done)[k] == Cleanup::Stop(role));
    }
}

/// Taking a running transport down leaves nothing of it behind.
pub proof fn law_takedown_leaks_nothing(transport: Transport)
    ensures
        undoes(transport.takedown(), transport.steps()),
{
    let cleanup = transport.takedown();
    let done = transport.steps();
    match transport {
        Transport::Aggregate => {
            assert(cleanup[0] == Cleanup::Stop(UnitRole::Aggregate));
            assert(cleanup[1] == Cleanup::JoinWorker);
            assert(cleanup[2] == Cleanup::Uninitialize(UnitRole::Aggregate));
            assert(cleanup[3] == Cleanup::Dispose(UnitRole::Aggregate));
            assert(cleanup[4] == Cleanup::Free(UnitRole::Aggregate));
        },
        Transport::Split => {
            assert(cleanup[0] == Cleanup::Stop(UnitRole::Capture));
            assert(cleanup[1] == Cleanup::Stop(UnitRole::Output));
            assert(cleanup[2] == Cleanup::JoinWorker);
            assert(cleanup[3] == Cleanup::Uninitialize(UnitRole::Capture));
            assert(cleanup[4] == Cleanup::Dispose(UnitRole::Capture));
            assert(cleanup[5] == Cleanup::Free(UnitRole::Capture));
            assert(cleanup[6] == Cleanup::Uninitialize(UnitRole::Output));
            assert(cleanup[7] == Cleanup::Dispose(UnitRole::Output));
            assert(cleanup[8] == Cleanup::Free(UnitRole::Output));
        },
        Transport::Preview => {
            assert(cleanup[0] == Cleanup::Stop(UnitRole::Monitor));
            assert(cleanup[1] == Cleanup::Uninitialize(UnitRole::Monitor));
            assert(cleanup[2] == Cleanup::Dispose(UnitRole::Monitor));
            assert(cleanup[3] == Cleanup::Free(UnitRole::Monitor));
        },
    }
}

/// No callback runs once the worker is joined, and no context is freed while
/// one can: every unit that was started is stopped before anything else is
/// done.
pub proof fn law_callbacks_cease_first(done: Seq<StartStep>, k: int)
    requires
        0 <= k < rollback(done).len(),
    ensures
        rollback(done)[k] is Stop <==> k < stops(done).len(),
{
    lemma_stops_only(done);
    lemma_releases_never_stop(done, done.len());
    if k >= stops(done).len() + joins(done).len() {
        let i = k - stops(done).len() - joins(done).len();
        assert(rollback(done)[k] == releases(done, done.len())[i]);
    }
}

/// A running transport is taken down in the same order: all units are stopped
/// before anything else is done, and the worker is joined before anything is
/// released.
pub proof fn law_takedown_stops_units_first(transport: Transport, j: int, k: int)
    requires
        0 <= j < k < transport.takedown().len(),
    ensures
        transport.takedown()[k] is Stop ==> transport.takedown()[j] is Stop,
        transport.takedown()[k] == Cleanup::JoinWorker ==> transport.takedown()[j] is Stop,
{
}

proof fn lemma_stops_only(done: Seq<StartStep>)
    ensures
        forall|k: int| 0 <= k < stops(done).len() ==> #[trigger] stops(done)[k] is Stop,
    decreases done.len(),
{
    if done.len() > 0 {
        lemma_stops_only(done.drop_last());
    }
}

proof fn lemma_releases_never_stop(done: Seq<StartStep>, count: nat)
    requires
        count <= done.len(),
    ensures
        forall|k: int|
            0 <= k < releases(done, count).len() ==> !(#[trigger] releases(done, count)[k] is Stop),
    decreases count,
{
    if count > 0 {
        lemma_releases_never_stop(done, (count - 1) as nat);
        let first = release(done, done[count - 1]);
        let rest = releases(done, (count - 1) as nat);
        assert forall|k: int| 0 <= k < releases(done, count).len() implies !(#[trigger] releases(
            done,
            count,
        )[k] is Stop) by {
            if k >= first.len() {
                assert(releases(done, count)[k] == rest[k - first.len()]);
            }
        }
    }
}

/// How far a step brings its unit; the other steps have no place in this order.
pub open spec fn place(step: StartStep, role: UnitRole) -> Option<int> {
    if step == StartStep::Create(role) {
        Some(0)
    } else if step == StartStep::Configure(role) {
        Some(1)
    } else if step == StartStep::Allocate(role) {
        Some(2)
    } else if step == StartStep::Attach(role) {
        Some(3)
    } else if step == StartStep::Initialize(role) {
        Some(4)
    } else if step == StartStep::Start(role) {
        Some(5)
    } else {
        None
    }
}

/// A transport is started in an order in which nothing is used before it is there:
/// each unit is created, configured, given its context, attached, initialized and
/// started, in this order; the semaphore is there before any unit, the rate is
/// checked before everything else, and the worker runs before any callback can.
pub proof fn law_starts_are_in_order(transport: Transport, role: UnitRole, i: int, j: int)
    requires
        0 <= i < transport.steps().len(),
        0 <= j < transport.steps().len(),
    ensures
        ({
            let steps = transport.steps();
            let first = steps[i];
            let second = steps[j];
            &&& place(first, role) matches Some(a) ==> place(second, role) matches Some(b) ==> (a
                < b ==> i < j)
            &&& first == second ==> i == j
            &&& first == StartStep::SpawnWorker && second is Start ==> i < j
            &&& first == StartStep::CreateSemaphore && second is Create ==> i < j
            &&& first == StartStep::PrepareConverter ==> i == 0
            &&& first == StartStep::ReadWorkgroup(role) && second == StartStep::SpawnWorker ==> i
                < j
            &&& first == StartStep::Start(role) ==> {
                &&& steps.contains(StartStep::Create(role))
                &&& steps.contains(StartStep::Configure(role))
                &&& steps.contains(StartStep::Allocate(role))
                &&& steps.contains(StartStep::Attach(role))
                &&& steps.contains(StartStep::Initialize(role))
            }
            &&& first is Create ==> steps.contains(StartStep::Start(first->Create_0))
        }),
{
    let steps = transport.steps();
    match transport {
        Transport::Aggregate => {
            assert(steps[1] == StartStep::Create(UnitRole::Aggregate));
            assert(steps[2] == StartStep::Configure(UnitRole::Aggregate));
            assert(steps[3] == StartStep::Allocate(UnitRole::Aggregate));
            assert(steps[4] == StartStep::Attach(UnitRole::Aggregate));
            assert(steps[5] == StartStep::Initialize(UnitRole::Aggregate));
            assert(steps[8] == StartStep::Start(UnitRole::Aggregate));
        },
        Transport::Split => {
            assert(steps[2] == StartStep::Create(UnitRole::Capture));
            assert(steps[3] == StartStep::Configure(UnitRole::Capture));
            assert(steps[4] == StartStep::Allocate(UnitRole::Capture));
            assert(steps[5] == StartStep::Attach(UnitRole::Capture));
            assert(steps[6] == StartStep::Initialize(UnitRole::Capture));
            assert(steps[8] == StartStep::Create(UnitRole::Output));
            assert(steps[9] == StartStep::Configure(UnitRole::Output));
            assert(steps[10] == StartStep::Allocate(UnitRole::Output));
            assert(steps[11] == StartStep::Attach(UnitRole::Output));
            assert(steps[12] == StartStep::Initialize(UnitRole::Output));
            assert(steps[14] == StartStep::Start(UnitRole::Capture));
            assert(steps[15] == StartStep::Start(UnitRole::Output));
        },
        Transport::Preview => {
            assert(steps[0] == StartStep::Create(UnitRole::Monitor));
            assert(steps[1] == StartStep::Configure(UnitRole::Monitor));
            assert(steps[2] == StartStep::Allocate(UnitRole::Monitor));
            assert(steps[3] == StartStep::Attach(UnitRole::Monitor));
            assert(steps[4] == StartStep::Initialize(UnitRole::Monitor));
            assert(steps[5] == StartStep::Start(UnitRole::Monitor));
        },
    }
}

/// A transport has the units that its kind needs, and the worker and its semaphore
/// unless it is the preview.
pub proof fn law_transports_have_their_units(transport: Transport, role: UnitRole)
    ensures
        transport.steps().contains(StartStep::Start(role)) <==> match transport {
            Transport::Aggregate => role == UnitRole::Aggregate,
            Transport::Split => role == UnitRole::Capture || role == UnitRole::Output,
            Transport::Preview => role == UnitRole::Monitor,
        },
        transport.steps().contains(StartStep::SpawnWorker) <==> transport != Transport::Preview,
        transport.steps().contains(StartStep::CreateSemaphore) <==> transport
            != Transport::Preview,
        transport.steps().contains(StartStep::PrepareConverter) <==> transport
            == Transport::Split,
{
    let steps = transport.steps();
    match transport {
        Transport::Aggregate => {
            assert(steps[0] == StartStep::CreateSemaphore);
            assert(steps[7] == StartStep::SpawnWorker);
            assert(steps[8] == StartStep::Start(UnitRole::Aggregate));
        },
        Transport::Split => {
            assert(steps[0] == StartStep::PrepareConverter);
            assert(steps[1] == StartStep::CreateSemaphore);
            assert(steps[13] == StartStep::SpawnWorker);
            assert(steps[14] == StartStep::Start(UnitRole::Capture));
            assert(steps[15] == StartStep::Start(UnitRole::Output));
        },
        Transport::Preview => {
            assert(steps[5] == StartStep::Start(UnitRole::Monitor));
        },
    }
}

/// What a cleanup step undoes, given the steps that were done.
pub open spec fn undone(item: Cleanup, done: Seq<StartStep>) -> bool {
    match item {
        Cleanup::Stop(role) => done.contains(StartStep::Start(role)),
        Cleanup::JoinWorker => done.contains(StartStep::SpawnWorker),
        Cleanup::Free(role) => done.contains(StartStep::Allocate(role)),
        Cleanup::Uninitialize(role) => done.contains(StartStep::Initialize(role)),
        Cleanup::Dispose(role) => done.contains(StartStep::Create(role)),
        Cleanup::ReleaseSemaphore => done.contains(StartStep::CreateSemaphore),
    }
}

/// A failed start undoes only what was done, and the worker is joined before anything
/// is released.
pub proof fn law_rollback_undoes_only_what_was_done(done: Seq<StartStep>, j: int, k: int)
    requires
        0 <= j <= k < rollback(done).len(),
    ensures
        undone(rollback(done)[k], done),
        rollback(done)[k] == Cleanup::JoinWorker && j < k ==> rollback(done)[j] is Stop,
{
    lemma_stops_are_of_starts(done);
    lemma_stops_only(done);
    lemma_releases_are_of_steps(done, done.len());
    let first = stops(done) + joins(done);
    let all = releases(done, done.len());
    if k < stops(done).len() {
        assert(rollback(done)[k] == stops(done)[k]);
    } else if k < first.len() {
        assert(rollback(done)[k] == first[k]);
        assert(j < k ==> rollback(done)[j] == stops(done)[j]);
    } else {
        assert(rollback(done)[k] == all[k - first.len()]);
    }
}

proof fn lemma_stops_are_of_starts(done: Seq<StartStep>)
    ensures
        forall|k: int| 0 <= k < stops(done).len() ==> undone(#[trigger] stops(done)[k], done),
    decreases done.len(),
{
    if done.len() > 0 {
        let shorter = done.drop_last();
        lemma_stops_are_of_starts(shorter);
        assert forall|k: int| 0 <= k < stops(done).len() implies undone(
            #[trigger] stops(done)[k],
            done,
        ) by {
            if k < stops(shorter).len() {
                assert(undone(stops(shorter)[k], shorter));
                let role = stops(shorter)[k]->Stop_0;
                lemma_stops_only(shorter);
                let i = choose|i: int|
                    0 <= i < shorter.len() && shorter[i] == StartStep::Start(role);
                assert(done[i] == shorter[i]);
            } else {
                assert(done[done.len() - 1] == done.last());
            }
        }
    }
}

proof fn lemma_releases_are_of_steps(done: Seq<StartStep>, count: nat)
    requires
        count <= done.len(),
    ensures
        forall|k: int|
            0 <= k < releases(done, count).len() ==> undone(
                #[trigger] releases(done, count)[k],
                done,
            ) && !(releases(done, count)[k] is Stop) && !(releases(done, count)[k]
                is JoinWorker),
    decreases count,
{
    if count > 0 {
        lemma_releases_are_of_steps(done, (count - 1) as nat);
        let first = release(done, done[count - 1]);
        let rest = releases(done, (count - 1) as nat);
        assert(done.contains(done[count - 1]));
        assert forall|k: int| 0 <= k < releases(done, count).len() implies undone(
            #[trigger] releases(done, count)[k],
            done,
        ) && !(releases(done, count)[k] is Stop) && !(releases(done, count)[k]
            is JoinWorker) by {
            if k < first.len() {
                assert(releases(done, count)[k] == first[k]);
            } else {
                assert(releases(done, count)[k] == rest[k - first.len()]);
            }
        }
    }
}

/// What was acquired last is released first: what a later step acquired goes before
/// what an earlier one did.
pub proof fn law_rollback_goes_backwards(
    done: Seq<StartStep>,
    earlier: int,
    later: int,
    first: Cleanup,
    last: Cleanup,
) -> (places: (int, int))
    requires
        0 <= earlier < later < done.len(),
        release(done, done[later]).contains(first),
        release(done, done[earlier]).contains(last),
    ensures
        0 <= places.0 < places.1 < rollback(done).len(),
        rollback(done)[places.0] == first,
        rollback(done)[places.1] == last,
{
    let before = stops(done) + joins(done);
    let (p, q) = lemma_releases_backwards(done, done.len(), earlier, later, first, last);
    let all = releases(done, done.len());
    assert(rollback(done)[before.len() + p] == all[p]);
    assert(rollback(done)[before.len() + q] == all[q]);
    (before.len() + p, before.len() + q)
}

proof fn lemma_releases_backwards(
    done: Seq<StartStep>,
    count: nat,
    earlier: int,
    later: int,
    first: Cleanup,
    last: Cleanup,
) -> (places: (int, int))
    requires
        0 <= earlier < later < count <= done.len(),
        release(done, done[later]).contains(first),
        release(done, done[earlier]).contains(last),
    ensures
        0 <= places.0 < places.1 < releases(done, count).len(),
        releases(done, count)[places.0] == first,
        releases(done, count)[places.1] == last,
    decreases count,
{
    let head = release(done, done[count - 1]);
    let rest = releases(done, (count - 1) as nat);
    if later == count - 1 {
        lemma_in_releases(done, earlier, (count - 1) as nat, last);
        let p = choose|p: int| 0 <= p < head.len() && head[p] == first;
        let q = choose|q: int| 0 <= q < rest.len() && rest[q] == last;
        assert(releases(done, count)[p] == head[p]);
        assert(releases(done, count)[head.len() + q] == rest[q]);
        (p, head.len() + q)
    } else {
        let (p, q) = lemma_releases_backwards(
            done,
            (count - 1) as nat,
            earlier,
            later,
            first,
            last,
        );
        assert(releases(done, count)[head.len() + p] == rest[p]);
        assert(releases(done, count)[head.len() + q] == rest[q]);
        (head.len() + p, head.len() + q)
    }
}

/// A running transport is taken down without anything that it does not have, each
/// thing once, and no context goes before its unit: a unit is uninitialized, then
/// disposed of, and then its context is freed.
pub proof fn law_takedown_frees_contexts_last(
    transport: Transport,
    role: UnitRole,
    j: int,
    k: int,
)
    requires
        0 <= j < transport.takedown().len(),
        0 <= k < transport.takedown().len(),
    ensures
        ({
            let first = transport.takedown()[j];
            let second = transport.takedown()[k];
            &&& undone(first, transport.steps())
            &&& first == second ==> j == k
            &&& first == Cleanup::Uninitialize(role) && second == Cleanup::Dispose(role) ==> j < k
            &&& first == Cleanup::Dispose(role) && second == Cleanup::Free(role) ==> j < k
        }),
{
    let steps = transport.steps();
    match transport {
        Transport::Aggregate => {
            assert(steps[1] == StartStep::Create(UnitRole::Aggregate));
            assert(steps[3] == StartStep::Allocate(UnitRole::Aggregate));
            assert(steps[5] == StartStep::Initialize(UnitRole::Aggregate));
            assert(steps[7] == StartStep::SpawnWorker);
            assert(steps[8] == StartStep::Start(UnitRole::Aggregate));
        },
        Transport::Split => {
            assert(steps[2] == StartStep::Create(UnitRole::Capture));
            assert(steps[4] == StartStep::Allocate(UnitRole::Capture));
            assert(steps[6] == StartStep::Initialize(UnitRole::Capture));
            assert(steps[8] == StartStep::Create(UnitRole::Output));
            assert(steps[10] == StartStep::Allocate(UnitRole::Output));
            assert(steps[12] == StartStep::Initialize(UnitRole::Output));
            assert(steps[13] == StartStep::SpawnWorker);
            assert(steps[14] == StartStep::Start(UnitRole::Capture));
            assert(steps[15] == StartStep::Start(UnitRole::Output));
        },
        Transport::Preview => {
            assert(steps[0] == StartStep::Create(UnitRole::Monitor));
            assert(steps[2] == StartStep::Allocate(UnitRole::Monitor));
            assert(steps[4] == StartStep::Initialize(UnitRole::Monitor));
            assert(steps[5] == StartStep::Start(UnitRole::Monitor));
        },
    }
}

} // verus!
