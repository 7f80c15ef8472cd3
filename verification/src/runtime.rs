//! The supervisor's decisions, separated from the tasks, timers and channels that carry
//! them out: what the initial probe means for a source, what a collection outcome does to
//! its breaker and whether it ends the process, which sources are registered, what the
//! control loop does with each event, and how the drain batches signals for export.

use crate::clock::{duration_from_secs, duration_of_secs};
use crate::policy::{backoff_of, classify_failure, failure_action_of, BreakerState, CircuitBreaker, FailureAction};
use crate::ports::{CollectError, Criticality, ProbeResult};
use crate::text::{concat, owned, text_eq, views};
use std::time::Duration;
use vstd::prelude::*;

verus! {

/// Tuning of the supervisor and its drain.
pub struct RuntimeConfig {
    pub channel_capacity: usize,
    pub batch_size: usize,
    pub batch_interval: Duration,
    /// Consecutive failures at which a Critical source becomes fatal.
    pub critical_threshold: u32,
}

impl Default for RuntimeConfig {
    /// A 4096-signal channel, batches of 512 or every 5 s, and a Critical source fatal
    /// at its third consecutive failure.
    fn default() -> (c: Self)
        ensures
            c.channel_capacity == 4096,
            c.batch_size == 512,
            c.batch_interval == duration_of_secs(5),
            c.critical_threshold == 3,
    {
        RuntimeConfig {
            channel_capacity: 4096,
            batch_size: 512,
            batch_interval: duration_from_secs(5),
            critical_threshold: 3,
        }
    }
}

/// Tells the top-level supervisor that a Critical source died irrecoverably.
#[derive(Debug)]
pub struct FatalSignal {
    pub source: String,
    pub reason: String,
}

/// Where a source came from. Boot and discovered sources differ in one behaviour only:
/// what a `NotApplicable` probe means.
#[derive(Debug, Clone, Copy, PartialEq, Eq, Structural)]
pub enum Origin {
    Boot,
    Discovered,
}

/// What the supervisor does once a source has been probed.
#[derive(Debug)]
pub enum StartAction {
    /// Collect on the source's interval.
    Collect,
    /// The source does not apply to this host: it is dropped for good.
    Disable,
    /// The source reported a fatal condition: the process ends.
    Fatal(FatalSignal),
}

/// How one collection cycle ended.
#[derive(Debug)]
pub enum CollectOutcome {
    Done,
    Failed(CollectError),
    /// The collector panicked and the panic was contained.
    Panicked,
}

/// The supervision state of one source: its identity and its circuit breaker.
pub struct SourceSupervisor {
    name: String,
    criticality: Criticality,
    breaker: CircuitBreaker,
}

/// What a supervised source is, seen from outside.
pub struct SupervisedModel {
    pub name: Seq<char>,
    pub criticality: Criticality,
    pub breaker: crate::policy::BreakerModel,
}

impl View for SourceSupervisor {
    type V = SupervisedModel;

    closed spec fn view(&self) -> SupervisedModel {
        SupervisedModel { name: self.name@, criticality: self.criticality, breaker: self.breaker@ }
    }
}

/// The breaker is unchanged except for its state and failure count.
pub open spec fn same_breaker_setup(a: crate::policy::BreakerModel, b: crate::policy::BreakerModel) -> bool {
    a.threshold == b.threshold && a.base_secs == b.base_secs && a.max_secs == b.max_secs
}

impl SourceSupervisor {
    /// A source named `name`, with a fresh breaker whose Critical threshold is `threshold`.
    pub fn new(name: &str, criticality: Criticality, threshold: u32) -> (s: Self)
        ensures
            s@.name == name@,
            s@.criticality == criticality,
            s@.breaker.state == BreakerState::Closed,
            s@.breaker.failures == 0,
            s@.breaker.threshold == threshold,
            s@.breaker.base_secs == 1,
            s@.breaker.max_secs == 60,
    {
        SourceSupervisor { name: owned(name), criticality, breaker: CircuitBreaker::new(threshold) }
    }

    /// What the initial probe means. `Ready` starts collecting. `Unavailable` starts
    /// collecting with the breaker open. `NotApplicable` disables a boot source, but a
    /// discovered one is only unavailable: a container still starting is transient, and
    /// dropping it would unwatch that tenant until a restart. `Fatal` ends the process.
    pub fn start(&mut self, probe: ProbeResult, origin: Origin) -> (a: StartAction)
        ensures
            final(self)@.name == old(self)@.name,
            final(self)@.criticality == old(self)@.criticality,
            final(self)@.breaker.failures == old(self)@.breaker.failures,
            same_breaker_setup(final(self)@.breaker, old(self)@.breaker),
            match probe {
                ProbeResult::Ready => a is Collect && final(self)@.breaker == old(self)@.breaker,
                ProbeResult::Unavailable(_) => a is Collect && final(self)@.breaker.state == BreakerState::Open,
                ProbeResult::NotApplicable => match origin {
                    Origin::Discovered => a is Collect && final(self)@.breaker.state == BreakerState::Open,
                    Origin::Boot => a is Disable && final(self)@.breaker == old(self)@.breaker,
                },
                ProbeResult::Fatal(msg) => final(self)@.breaker == old(self)@.breaker && (a matches StartAction::Fatal(f)
                    && f.source@ == old(self)@.name && f.reason@ == "probe fatal: "@ + msg@),
            },
    {
        match probe {
            ProbeResult::Ready => StartAction::Collect,
            ProbeResult::Unavailable(_) => {
                self.breaker.trip_open();
                StartAction::Collect
            },
            ProbeResult::NotApplicable => {
                if origin == Origin::Discovered {
                    self.breaker.trip_open();
                    StartAction::Collect
                } else {
                    StartAction::Disable
                }
            },
            ProbeResult::Fatal(msg) => StartAction::Fatal(
                FatalSignal { source: owned(self.name.as_str()), reason: concat("probe fatal: ", msg.as_str()) },
            ),
        }
    }

    /// How long to back off before the next cycle: the breaker's backoff while it is
    /// open, nothing while it is closed.
    pub fn pause_before_collect(&self) -> (d: Option<Duration>)
        ensures
            self@.breaker.state == BreakerState::Open ==> d == Some(duration_of_secs(backoff_of(self@.breaker) as u64)),
            self@.breaker.state == BreakerState::Closed ==> d is None,
    {
        if self.breaker.is_open() {
            Some(self.breaker.backoff())
        } else {
            None
        }
    }

    /// Records how a cycle ended. A success closes the breaker; an error or a contained
    /// panic counts a failure, and is fatal only for a Critical source whose consecutive
    /// failures reached the threshold.
    pub fn after_collect(&mut self, outcome: CollectOutcome) -> (f: Option<FatalSignal>)
        ensures
            final(self)@.name == old(self)@.name,
            final(self)@.criticality == old(self)@.criticality,
            same_breaker_setup(final(self)@.breaker, old(self)@.breaker),
            match outcome {
                CollectOutcome::Done => f is None && final(self)@.breaker.failures == 0
                    && final(self)@.breaker.state == BreakerState::Closed,
                _ => {
                    &&& final(self)@.breaker.failures == crate::policy::saturating_succ(old(self)@.breaker.failures)
                    &&& final(self)@.breaker.state == BreakerState::Open
                    &&& (failure_action_of(old(self)@.criticality, final(self)@.breaker) == FailureAction::Degrade
                        ==> f is None)
                    &&& (failure_action_of(old(self)@.criticality, final(self)@.breaker) == FailureAction::Fatal
                        ==> (f matches Some(sig) && sig.source@ == old(self)@.name && sig.reason@ == match outcome {
                        CollectOutcome::Failed(e) => failure_text(e),
                        _ => "panic contained in the collector"@,
                    }))
                },
            },
    {
        match outcome {
            CollectOutcome::Done => {
                self.breaker.record_success();
                None
            },
            CollectOutcome::Failed(e) => {
                let reason = e.message();
                self.handle_failure(reason)
            },
            CollectOutcome::Panicked => self.handle_failure(owned("panic contained in the collector")),
        }
    }

    fn handle_failure(&mut self, reason: String) -> (f: Option<FatalSignal>)
        ensures
            final(self)@.name == old(self)@.name,
            final(self)@.criticality == old(self)@.criticality,
            same_breaker_setup(final(self)@.breaker, old(self)@.breaker),
            final(self)@.breaker.failures == crate::policy::saturating_succ(old(self)@.breaker.failures),
            final(self)@.breaker.state == BreakerState::Open,
            failure_action_of(old(self)@.criticality, final(self)@.breaker) == FailureAction::Degrade ==> f is None,
            failure_action_of(old(self)@.criticality, final(self)@.breaker) == FailureAction::Fatal ==> (f matches Some(
                sig,
            ) && sig.source@ == old(self)@.name && sig.reason@ == reason@),
    {
        self.breaker.record_failure();
        match classify_failure(self.criticality, &self.breaker) {
            FailureAction::Degrade => None,
            FailureAction::Fatal => Some(FatalSignal { source: owned(self.name.as_str()), reason }),
        }
    }

    /// A supervising task that itself panicked: fatal for a Critical source, which must
    /// never die silently; an Optional one is only lost.
    pub fn task_panicked(&self) -> (f: Option<FatalSignal>)
        ensures
            self@.criticality == Criticality::Optional ==> f is None,
            self@.criticality == Criticality::Critical ==> (f matches Some(sig) && sig.source@ == self@.name
                && sig.reason@ == "supervisor task panicked"@),
    {
        match self.criticality {
            Criticality::Optional => None,
            Criticality::Critical => Some(
                FatalSignal { source: owned(self.name.as_str()), reason: owned("supervisor task panicked") },
            ),
        }
    }
}

/// The text a collection error is reported with.
pub open spec fn failure_text(e: CollectError) -> Seq<char> {
    match e {
        CollectError::Unavailable(m) => "target unavailable: "@ + m@,
        CollectError::Failed(m) => "collection failed: "@ + m@,
    }
}

// ------------------------------------------------------------------------------------
// The registry of running sources
// ------------------------------------------------------------------------------------

/// The names of the sources that currently have a task, in the order they were enrolled.
/// A name is its source's identity, so no name is registered twice.
pub struct Registry {
    names: Vec<String>,
}

impl View for Registry {
    type V = Seq<Seq<char>>;

    closed spec fn view(&self) -> Seq<Seq<char>> {
        views(self.names@)
    }
}

impl Registry {
    #[verifier::type_invariant]
    spec fn inv(self) -> bool {
        views(self.names@).no_duplicates()
    }

    pub fn new() -> (r: Self)
        ensures
            r@.len() == 0,
    {
        let r = Registry { names: Vec::new() };
        assert(views(r.names@) =~= Seq::<Seq<char>>::empty());
        r
    }

    fn position(&self, name: &str) -> (r: Option<usize>)
        ensures
            match r {
                Some(i) => i < self@.len() && self@[i as int] == name@,
                None => !self@.contains(name@),
            },
    {
        let mut i: usize = 0;
        while i < self.names.len()
            invariant
                i <= self.names.len(),
                forall|k: int| 0 <= k < i ==> views(self.names@)[k] != name@,
            decreases self.names.len() - i,
        {
            if text_eq(self.names[i].as_str(), name) {
                return Some(i);
            }
            i += 1;
        }
        None
    }

    /// Whether a source named `name` is registered.
    pub fn contains(&self, name: &str) -> (b: bool)
        ensures
            b == self@.contains(name@),
    {
        self.position(name).is_some()
    }

    /// Registers `name` unless it already is. A second source under a registered name is
    /// discovery reporting one instance twice: it is refused rather than allowed to shadow
    /// the first, which would leak a task and leave two writers on one series.
    pub fn enroll(&mut self, name: &str) -> (added: bool)
        ensures
            added == !old(self)@.contains(name@),
            added ==> final(self)@ == old(self)@.push(name@),
            !added ==> final(self)@ == old(self)@,
    {
        proof {
            use_type_invariant(&*self);
        }
        if self.position(name).is_some() {
            return false;
        }
        let mut names: Vec<String> = Vec::new();
        std::mem::swap(&mut names, &mut self.names);
        let ghost before = views(names@);
        names.push(owned(name));
        proof {
            assert(views(names@) =~= before.push(name@));
            assert forall|i: int, j: int| 0 <= i < views(names@).len() && 0 <= j < views(names@).len() && i != j
                implies views(names@)[i] != views(names@)[j] by {
                if i < before.len() && j < before.len() {
                } else if i == before.len() {
                    assert(before.contains(before[j]));
                } else {
                    assert(before.contains(before[i]));
                }
            }
        }
        self.names = names;
        true
    }

    /// Unregisters `name`, reporting whether it was registered; the others keep their
    /// order.
    pub fn remove(&mut self, name: &str) -> (was: bool)
        ensures
            was == old(self)@.contains(name@),
            !was ==> final(self)@ == old(self)@,
            was ==> exists|i: int| 0 <= i < old(self)@.len() && old(self)@[i] == name@ && final(self)@ == old(
                self,
            )@.remove(i),
            !final(self)@.contains(name@),
    {
        proof {
            use_type_invariant(&*self);
        }
        match self.position(name) {
            None => false,
            Some(i) => {
                let mut names: Vec<String> = Vec::new();
                std::mem::swap(&mut names, &mut self.names);
                let ghost before = views(names@);
                let _gone = names.remove(i);
                proof {
                    assert(views(names@) =~= before.remove(i as int));
                    assert forall|a: int, b: int| 0 <= a < views(names@).len() && 0 <= b < views(names@).len() && a != b
                        implies views(names@)[a] != views(names@)[b] by {
                        let a0 = if a < i { a } else { a + 1 };
                        let b0 = if b < i { b } else { b + 1 };
                        assert(views(names@)[a] == before[a0]);
                        assert(views(names@)[b] == before[b0]);
                    }
                    if views(names@).contains(name@) {
                        let k = choose|k: int| 0 <= k < views(names@).len() && views(names@)[k] == name@;
                        let k0 = if k < i { k } else { k + 1 };
                        assert(before[k0] == name@);
                        assert(before[i as int] == name@);
                    }
                }
                self.names = names;
                true
            },
        }
    }

    /// Empties the registry at shutdown, handing back every name that had a task.
    pub fn drain(&mut self) -> (names: Vec<String>)
        ensures
            views(names@) == old(self)@,
            final(self)@.len() == 0,
    {
        let mut names: Vec<String> = Vec::new();
        std::mem::swap(&mut names, &mut self.names);
        assert(views(self.names@) =~= Seq::<Seq<char>>::empty());
        names
    }
}

/// Enrolling a name that was absent and then removing it leaves the registry as it was.
pub proof fn law_enroll_then_remove(r: Seq<Seq<char>>, name: Seq<char>, i: int)
    requires
        !r.contains(name),
        0 <= i < r.push(name).len(),
        r.push(name)[i] == name,
    ensures
        r.push(name).remove(i) == r,
{
    if i < r.len() {
        assert(r.contains(r[i]));
    }
    assert(r.push(name).remove(i) =~= r);
}

// ------------------------------------------------------------------------------------
// The control loop
// ------------------------------------------------------------------------------------

/// What reaches the running supervisor.
#[derive(Debug)]
pub enum ControlEvent {
    /// A Critical source reported a fatal failure.
    Fatal(FatalSignal),
    /// Every sender of fatal signals is gone.
    FatalChannelClosed,
    /// Ctrl-C.
    Interrupted,
    /// Discovery asks to watch a new source, by name.
    Add(String),
    /// Discovery asks to retire a source, by name.
    Remove(String),
    /// Discovery is gone.
    CommandsClosed,
}

/// What the supervisor does about an event.
#[derive(Debug)]
pub enum ControlAction {
    /// Shut down, flush, and end with this result.
    Stop(Result<(), FatalSignal>),
    /// Start a task for the source.
    Spawn(String),
    /// The name is already registered: the source is not added.
    RejectDuplicate(String),
    /// Signal the source to emit its terminal signal and stop, then join it.
    Retire(String),
    /// Nothing is registered under that name.
    NotRegistered(String),
    /// Stop listening for commands but keep collecting what is registered: losing the
    /// discoverer must not stop the watcher.
    StopListening,
}

/// The supervisor's own state: the registry, and whether discovery can still send.
pub struct ControlLoop {
    registry: Registry,
    commands_open: bool,
}

pub struct ControlModel {
    pub registered: Seq<Seq<char>>,
    pub commands_open: bool,
}

impl View for ControlLoop {
    type V = ControlModel;

    closed spec fn view(&self) -> ControlModel {
        ControlModel { registered: self.registry@, commands_open: self.commands_open }
    }
}

impl ControlLoop {
    pub fn new() -> (c: Self)
        ensures
            c@.registered.len() == 0,
            c@.commands_open,
    {
        ControlLoop { registry: Registry::new(), commands_open: true }
    }

    /// Registers a source present at boot (a duplicate name is refused as it would be
    /// at runtime).
    pub fn register_boot(&mut self, name: &str) -> (added: bool)
        ensures
            added == !old(self)@.registered.contains(name@),
            added ==> final(self)@.registered == old(self)@.registered.push(name@),
            !added ==> final(self)@.registered == old(self)@.registered,
            final(self)@.commands_open == old(self)@.commands_open,
    {
        self.registry.enroll(name)
    }

    pub fn commands_open(&self) -> (b: bool)
        ensures
            b == self@.commands_open,
    {
        self.commands_open
    }

    /// One event of the supervisor's loop.
    pub fn step(&mut self, ev: ControlEvent) -> (a: ControlAction)
        ensures
            match ev {
                ControlEvent::Fatal(f) => (a matches ControlAction::Stop(Err(g)) && g.source@ == f.source@
                    && g.reason@ == f.reason@) && final(self)@ == old(self)@,
                ControlEvent::FatalChannelClosed => (a matches ControlAction::Stop(Ok(()))) && final(self)@ == old(self)@,
                ControlEvent::Interrupted => (a matches ControlAction::Stop(Ok(()))) && final(self)@ == old(self)@,
                ControlEvent::Add(n) => final(self)@.commands_open == old(self)@.commands_open && if old(
                    self,
                )@.registered.contains(n@) {
                    (a matches ControlAction::RejectDuplicate(m) && m@ == n@) && final(self)@.registered == old(
                        self,
                    )@.registered
                } else {
                    (a matches ControlAction::Spawn(m) && m@ == n@) && final(self)@.registered == old(
                        self,
                    )@.registered.push(n@)
                },
                ControlEvent::Remove(n) => final(self)@.commands_open == old(self)@.commands_open && if old(
                    self,
                )@.registered.contains(n@) {
                    (a matches ControlAction::Retire(m) && m@ == n@) && !final(self)@.registered.contains(n@)
                        && exists|i: int| 0 <= i < old(self)@.registered.len() && old(self)@.registered[i] == n@
                        && final(self)@.registered == old(self)@.registered.remove(i)
                } else {
                    (a matches ControlAction::NotRegistered(m) && m@ == n@) && final(self)@ == old(self)@
                },
                ControlEvent::CommandsClosed => a is StopListening && !final(self)@.commands_open
                    && final(self)@.registered == old(self)@.registered,
            },
    {
        match ev {
            ControlEvent::Fatal(f) => ControlAction::Stop(Err(f)),
            ControlEvent::FatalChannelClosed => ControlAction::Stop(Ok(())),
            ControlEvent::Interrupted => ControlAction::Stop(Ok(())),
            ControlEvent::Add(n) => {
                if self.registry.enroll(n.as_str()) {
                    ControlAction::Spawn(n)
                } else {
                    ControlAction::RejectDuplicate(n)
                }
            },
            ControlEvent::Remove(n) => {
                if self.registry.remove(n.as_str()) {
                    ControlAction::Retire(n)
                } else {
                    ControlAction::NotRegistered(n)
                }
            },
            ControlEvent::CommandsClosed => {
                self.commands_open = false;
                ControlAction::StopListening
            },
        }
    }

    /// Ordered shutdown: every registered source, whose task is aborted; the registry is
    /// left empty.
    pub fn shutdown(&mut self) -> (names: Vec<String>)
        ensures
            views(names@) == old(self)@.registered,
            final(self)@.registered.len() == 0,
            final(self)@.commands_open == old(self)@.commands_open,
    {
        self.registry.drain()
    }
}

// ------------------------------------------------------------------------------------
// The drain
// ------------------------------------------------------------------------------------

/// What the buffer becomes after `item` is pushed, and the batch handed to the exporter
/// if that filled it.
pub open spec fn push_step<T>(buf: Seq<T>, size: nat, item: T) -> (Seq<T>, Option<Seq<T>>) {
    let b = buf.push(item);
    if b.len() >= size {
        (Seq::empty(), Some(b))
    } else {
        (b, None)
    }
}

/// On a flush tick a non-empty buffer is exported.
pub open spec fn tick_step<T>(buf: Seq<T>) -> (Seq<T>, Option<Seq<T>>) {
    if buf.len() > 0 {
        (Seq::empty(), Some(buf))
    } else {
        (buf, None)
    }
}

/// Batches signals for export: a batch leaves when it reaches the batch size, on each
/// flush tick when anything is waiting, and once more when the channel closes.
pub struct Batcher<T> {
    buf: Vec<T>,
    batch_size: usize,
}

impl<T> Batcher<T> {
    pub closed spec fn pending(&self) -> Seq<T> {
        self.buf@
    }

    pub closed spec fn size(&self) -> nat {
        self.batch_size as nat
    }

    pub fn new(batch_size: usize) -> (b: Self)
        ensures
            b.pending().len() == 0,
            b.size() == batch_size,
    {
        Batcher { buf: Vec::new(), batch_size }
    }

    /// A signal arrived.
    pub fn push(&mut self, item: T) -> (out: Option<Vec<T>>)
        ensures
            final(self).size() == old(self).size(),
            final(self).pending() == push_step(old(self).pending(), old(self).size(), item).0,
            match out {
                Some(b) => push_step(old(self).pending(), old(self).size(), item).1 == Some(b@),
                None => push_step(old(self).pending(), old(self).size(), item).1.is_none(),
            },
    {
        self.buf.push(item);
        if self.buf.len() >= self.batch_size {
            let mut batch: Vec<T> = Vec::new();
            std::mem::swap(&mut batch, &mut self.buf);
            Some(batch)
        } else {
            None
        }
    }

    /// The flush interval elapsed.
    pub fn tick(&mut self) -> (out: Option<Vec<T>>)
        ensures
            final(self).size() == old(self).size(),
            final(self).pending() == tick_step(old(self).pending()).0,
            match out {
                Some(b) => tick_step(old(self).pending()).1 == Some(b@),
                None => tick_step(old(self).pending()).1.is_none(),
            },
    {
        if self.buf.len() > 0 {
            let mut batch: Vec<T> = Vec::new();
            std::mem::swap(&mut batch, &mut self.buf);
            Some(batch)
        } else {
            None
        }
    }

    /// The channel closed: whatever is waiting is the final batch.
    pub fn close(&mut self) -> (batch: Vec<T>)
        ensures
            batch@ == old(self).pending(),
            final(self).pending().len() == 0,
            final(self).size() == old(self).size(),
    {
        let mut batch: Vec<T> = Vec::new();
        std::mem::swap(&mut batch, &mut self.buf);
        batch
    }
}

/// One event of the drain.
pub enum DrainEvent<T> {
    Signal(T),
    Tick,
}

/// The batches exported and the buffer left after a run of events.
pub open spec fn run_drain<T>(buf: Seq<T>, size: nat, evs: Seq<DrainEvent<T>>) -> (Seq<T>, Seq<Seq<T>>)
    decreases evs.len(),
{
    if evs.len() == 0 {
        (buf, Seq::empty())
    } else {
        let (b0, out0) = run_drain(buf, size, evs.drop_last());
        let (b1, o) = match evs.last() {
            DrainEvent::Signal(x) => push_step(b0, size, x),
            DrainEvent::Tick => tick_step(b0),
        };
        (b1, match o {
            Some(batch) => out0.push(batch),
            None => out0,
        })
    }
}

/// The signals among the events, in order.
pub open spec fn signals_of<T>(evs: Seq<DrainEvent<T>>) -> Seq<T>
    decreases evs.len(),
{
    if evs.len() == 0 {
        Seq::empty()
    } else {
        match evs.last() {
            DrainEvent::Signal(x) => signals_of(evs.drop_last()).push(x),
            DrainEvent::Tick => signals_of(evs.drop_last()),
        }
    }
}

/// Batches joined end to end.
pub open spec fn joined<T>(bs: Seq<Seq<T>>) -> Seq<T>
    decreases bs.len(),
{
    if bs.len() == 0 {
        Seq::empty()
    } else {
        joined(bs.drop_last()) + bs.last()
    }
}

/// Nothing is lost and nothing is duplicated between the sources and the exporter: the
/// batches exported so far, followed by what is still buffered, are exactly the signals
/// that arrived, in order.
pub proof fn law_drain_loses_nothing<T>(size: nat, evs: Seq<DrainEvent<T>>)
    ensures
        joined(run_drain(Seq::<T>::empty(), size, evs).1) + run_drain(Seq::<T>::empty(), size, evs).0 == signals_of(evs),
    decreases evs.len(),
{
    if evs.len() == 0 {
        assert(joined(Seq::<Seq<T>>::empty()) + Seq::<T>::empty() =~= Seq::<T>::empty());
    } else {
        let init = evs.drop_last();
        law_drain_loses_nothing(size, init);
        let (b0, out0) = run_drain(Seq::<T>::empty(), size, init);
        match evs.last() {
            DrainEvent::Signal(x) => {
                let b = b0.push(x);
                if b.len() >= size {
                    assert(joined(out0.push(b)) =~= joined(out0) + b) by {
                        assert(out0.push(b).drop_last() =~= out0);
                    }
                    assert(joined(out0) + b + Seq::<T>::empty() =~= (joined(out0) + b0).push(x));
                } else {
                    assert(joined(out0) + b =~= (joined(out0) + b0).push(x));
                }
            },
            DrainEvent::Tick => {
                if b0.len() > 0 {
                    assert(joined(out0.push(b0)) =~= joined(out0) + b0) by {
                        assert(out0.push(b0).drop_last() =~= out0);
                    }
                    assert(joined(out0) + b0 + Seq::<T>::empty() =~= joined(out0) + b0);
                }
            },
        }
    }
}

/// A batch exported because it filled up holds exactly the batch size.
pub proof fn law_full_batches_have_batch_size<T>(buf: Seq<T>, size: nat, item: T)
    requires
        buf.len() < size,
    ensures
        push_step(buf, size, item).1 matches Some(b) ==> b.len() == size,
{
}

} // verus!
