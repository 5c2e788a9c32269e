use crate::path_key::NodeDescriptor;
use vstd::prelude::*;

verus! {

/// Seconds between two probes of the sweep.
pub const PACING_INTERVAL_SECS: u64 = 2;

/// Sequence tag carried by every sweep probe.
pub const PROBE_SEQUENCE: u64 = 4;

/// Why a sweep cannot start.
#[derive(Debug, PartialEq, Eq, Clone, Copy, Structural)]
pub enum SweepError {
    /// The topology lists no relay to test.
    NoNodes,
    /// The trusted path lacks a relay before its provider.
    ReferenceTooShort,
}

/// The trusted path with its first relay replaced by `node`.
pub open spec fn path_with_node(trusted: Seq<NodeDescriptor>, node: NodeDescriptor) -> Seq<
    NodeDescriptor,
> {
    trusted.update(0, node)
}

/// A copy of the trusted path in which `node` stands in for the
/// first relay, so that a failure is down to `node` alone.
pub fn new_with_node(trusted: &Vec<NodeDescriptor>, node: &NodeDescriptor) -> (r: Vec<
    NodeDescriptor,
>)
    requires
        trusted@.len() > 0,
    ensures
        r@ == path_with_node(trusted@, *node),
{
    let mut path: Vec<NodeDescriptor> = Vec::new();
    path.push(node.duplicate());
    let mut i: usize = 1;
    while i < trusted.len()
        invariant
            1 <= i <= trusted@.len(),
            path@ == path_with_node(trusted@, *node).subrange(0, i as int),
        decreases trusted@.len() - i,
    {
        path.push(trusted[i].duplicate());
        i = i + 1;
        assert(path@ =~= path_with_node(trusted@, *node).subrange(0, i as int));
    }
    assert(path@ =~= path_with_node(trusted@, *node));
    path
}

/// The paths of one sweep: one per relay, in listing order, each the
/// trusted path with that relay substituted.
pub fn sweep_paths(relays: &Vec<NodeDescriptor>, trusted: &Vec<NodeDescriptor>) -> (r: Result<
    Vec<Vec<NodeDescriptor>>,
    SweepError,
>)
    ensures
        relays@.len() == 0 <==> r == Err::<Vec<Vec<NodeDescriptor>>, _>(SweepError::NoNodes),
        (relays@.len() > 0 && trusted@.len() < 2) <==> r == Err::<Vec<Vec<NodeDescriptor>>, _>(
            SweepError::ReferenceTooShort,
        ),
        r is Ok ==> r->Ok_0@.len() == relays@.len() && forall|i: int|
            0 <= i < relays@.len() ==> #[trigger] r->Ok_0@[i]@ == path_with_node(
                trusted@,
                relays@[i],
            ),
{
    if relays.len() == 0 {
        return Err(SweepError::NoNodes);
    }
    if trusted.len() < 2 {
        return Err(SweepError::ReferenceTooShort);
    }
    let mut paths: Vec<Vec<NodeDescriptor>> = Vec::new();
    let mut i: usize = 0;
    while i < relays.len()
        invariant
            0 <= i <= relays@.len(),
            trusted@.len() >= 2,
            paths@.len() == i,
            forall|k: int|
                0 <= k < i ==> #[trigger] paths@[k]@ == path_with_node(trusted@, relays@[k]),
        decreases relays@.len() - i,
    {
        paths.push(new_with_node(trusted, &relays[i]));
        i = i + 1;
    }
    Ok(paths)
}

/// Where the monitor stands in its run.
#[derive(Debug, PartialEq, Eq, Clone, Copy, Structural)]
pub enum MonitorPhase {
    Uninitialized,
    Authenticating,
    FetchingTopology,
    SanityChecking,
    /// Waiting for the pacing interval before probing relay `i`.
    Pacing(usize),
    /// The probe of relay `i` is under way.
    Probing(usize),
    AwaitingInterrupt,
    Interrupted,
    Aborted,
}

/// What the outside world reports to the monitor.
#[derive(Debug, PartialEq, Eq, Clone, Copy, Structural)]
pub enum MonitorEvent {
    Start,
    Authenticated(bool),
    /// The number of relays listed, or `None` when the topology could not be fetched.
    TopologyFetched(Option<usize>),
    ProbeSent,
    TickElapsed,
    InterruptReceived,
}

/// Why the monitor gives up at startup.
#[derive(Debug, PartialEq, Eq, Clone, Copy, Structural)]
pub enum FatalError {
    AuthenticationFailed,
    TopologyUnavailable,
    NoNodes,
}

/// What the monitor asks the outside world to do next.
#[derive(Debug, PartialEq, Eq, Clone, Copy, Structural)]
pub enum MonitorAction {
    Authenticate,
    FetchTopology,
    /// Start the listener task, then send the self-addressed probe.
    SpawnListenerAndSanityCheck,
    WaitForTick,
    /// Probe the relay at this place of the topology listing.
    Probe(usize),
    WaitForInterrupt,
    Terminate,
    Abort(FatalError),
    Nothing,
}

/// The monitor's run: the phase, and the number of relays to sweep.
pub struct Monitor {
    phase: MonitorPhase,
    relay_count: usize,
}

/// The monitor's transitions: from a phase, the relay count and an event, the
/// next phase and relay count, and the action to take. An interrupt ends any
/// run that has not ended; an event that does not fit the phase changes nothing.
pub open spec fn transition(phase: MonitorPhase, relays: usize, event: MonitorEvent) -> (
    MonitorPhase,
    usize,
    MonitorAction,
) {
    match (phase, event) {
        (MonitorPhase::Interrupted, _) | (MonitorPhase::Aborted, _) => (
            phase,
            relays,
            MonitorAction::Nothing,
        ),
        (_, MonitorEvent::InterruptReceived) => (
            MonitorPhase::Interrupted,
            relays,
            MonitorAction::Terminate,
        ),
        (MonitorPhase::Uninitialized, MonitorEvent::Start) => (
            MonitorPhase::Authenticating,
            relays,
            MonitorAction::Authenticate,
        ),
        (MonitorPhase::Authenticating, MonitorEvent::Authenticated(ok)) => if ok {
            (MonitorPhase::FetchingTopology, relays, MonitorAction::FetchTopology)
        } else {
            (
                MonitorPhase::Aborted,
                relays,
                MonitorAction::Abort(FatalError::AuthenticationFailed),
            )
        },
        (MonitorPhase::FetchingTopology, MonitorEvent::TopologyFetched(listed)) => match listed {
            None => (
                MonitorPhase::Aborted,
                relays,
                MonitorAction::Abort(FatalError::TopologyUnavailable),
            ),
            Some(n) => if n == 0 {
                (MonitorPhase::Aborted, relays, MonitorAction::Abort(FatalError::NoNodes))
            } else {
                (MonitorPhase::SanityChecking, n, MonitorAction::SpawnListenerAndSanityCheck)
            },
        },
        (MonitorPhase::SanityChecking, MonitorEvent::ProbeSent) => (
            MonitorPhase::Pacing(0),
            relays,
            MonitorAction::WaitForTick,
        ),
        (MonitorPhase::Pacing(i), MonitorEvent::TickElapsed) => (
            MonitorPhase::Probing(i),
            relays,
            MonitorAction::Probe(i),
        ),
        (MonitorPhase::Probing(i), MonitorEvent::ProbeSent) => if i + 1 < relays {
            (MonitorPhase::Pacing((i + 1) as usize), relays, MonitorAction::WaitForTick)
        } else {
            (MonitorPhase::AwaitingInterrupt, relays, MonitorAction::WaitForInterrupt)
        },
        _ => (phase, relays, MonitorAction::Nothing),
    }
}

/// The phase, relay count and actions after taking in each of `events` in turn.
pub open spec fn run(phase: MonitorPhase, relays: usize, events: Seq<MonitorEvent>) -> (
    MonitorPhase,
    usize,
    Seq<MonitorAction>,
)
    decreases events.len(),
{
    if events.len() == 0 {
        (phase, relays, Seq::empty())
    } else {
        let (p, n, actions) = run(phase, relays, events.drop_last());
        let (p2, n2, a) = transition(p, n, events.last());
        (p2, n2, actions.push(a))
    }
}

/// `k` rounds of the sweep: a pacing tick, then the probe going out.
pub open spec fn sweep_events(k: nat) -> Seq<MonitorEvent> {
    Seq::new(
        2 * k,
        |i: int|
            if i % 2 == 0 {
                MonitorEvent::TickElapsed
            } else {
                MonitorEvent::ProbeSent
            },
    )
}

/// The actions of `k` sweep rounds over `relays` relays: each tick probes the
/// next relay of the listing; after each probe the monitor waits for the
/// next tick, or for the interrupt once the last relay is done.
pub open spec fn sweep_actions(relays: usize, k: nat) -> Seq<MonitorAction> {
    Seq::new(
        2 * k,
        |i: int|
            if i % 2 == 0 {
                MonitorAction::Probe((i / 2) as usize)
            } else if i / 2 + 1 < relays {
                MonitorAction::WaitForTick
            } else {
                MonitorAction::WaitForInterrupt
            },
    )
}

/// From the first pacing wait, the sweep probes every relay exactly once, in
/// listing order and one at a time, each after its own tick, and then waits
/// for the interrupt.
pub proof fn lemma_sweep_in_order(relays: usize, k: nat)
    requires
        0 < relays,
        k <= relays,
    ensures
        run(MonitorPhase::Pacing(0), relays, sweep_events(k)) == (
            if k < relays {
                MonitorPhase::Pacing(k as usize)
            } else {
                MonitorPhase::AwaitingInterrupt
            },
            relays,
            sweep_actions(relays, k),
        ),
    decreases k,
{
    if k == 0 {
        assert(sweep_events(0) =~= Seq::<MonitorEvent>::empty());
        assert(sweep_actions(relays, 0) =~= Seq::<MonitorAction>::empty());
    } else {
        let j = (k - 1) as nat;
        lemma_sweep_in_order(relays, j);
        let es = sweep_events(k);
        assert(es.drop_last().drop_last() =~= sweep_events(j));
        assert(es.last() == MonitorEvent::ProbeSent);
        assert(es.drop_last().last() == MonitorEvent::TickElapsed);
        let prev = run(MonitorPhase::Pacing(0), relays, sweep_events(j));
        assert(prev.0 == MonitorPhase::Pacing(j as usize));
        let mid = run(MonitorPhase::Pacing(0), relays, es.drop_last());
        assert(mid == (MonitorPhase::Probing(j as usize), relays, prev.2.push(MonitorAction::Probe(j as usize))));
        let last = run(MonitorPhase::Pacing(0), relays, es);
        assert(last == (
            if j + 1 < relays {
                MonitorPhase::Pacing((j + 1) as usize)
            } else {
                MonitorPhase::AwaitingInterrupt
            },
            relays,
            mid.2.push(
                if j + 1 < relays {
                    MonitorAction::WaitForTick
                } else {
                    MonitorAction::WaitForInterrupt
                },
            ),
        ));
        assert(run(MonitorPhase::Pacing(0), relays, sweep_events(j)).2.push(
            MonitorAction::Probe(j as usize),
        ).push(
            if j + 1 < relays {
                MonitorAction::WaitForTick
            } else {
                MonitorAction::WaitForInterrupt
            },
        ) =~= sweep_actions(relays, k));
    }
}

impl Monitor {
    /// A sweep only ever stands at a relay of the listing, and only starts on
    /// a listing that holds one.
    pub closed spec fn wf(&self) -> bool {
        match self.phase {
            MonitorPhase::Pacing(i) | MonitorPhase::Probing(i) => i < self.relay_count,
            MonitorPhase::SanityChecking => self.relay_count > 0,
            _ => true,
        }
    }

    pub closed spec fn phase_of(&self) -> MonitorPhase {
        self.phase
    }

    pub closed spec fn relays(&self) -> usize {
        self.relay_count
    }

    /// A monitor that has not started.
    pub fn new() -> (r: Monitor)
        ensures
            r.wf(),
            r.phase_of() == MonitorPhase::Uninitialized,
            r.relays() == 0,
    {
        Monitor { phase: MonitorPhase::Uninitialized, relay_count: 0 }
    }

    /// The current phase.
    pub fn phase(&self) -> (r: MonitorPhase)
        ensures
            r == self.phase_of(),
    {
        self.phase
    }

    /// Takes in one event and says what to do next.
    pub fn step(&mut self, event: MonitorEvent) -> (r: MonitorAction)
        requires
            old(self).wf(),
        ensures
            final(self).wf(),
            (final(self).phase_of(), final(self).relays(), r) == transition(
                old(self).phase_of(),
                old(self).relays(),
                event,
            ),
    {
        let (phase, relays, action) = match (self.phase, event) {
            (MonitorPhase::Interrupted, _) | (MonitorPhase::Aborted, _) => (
                self.phase,
                self.relay_count,
                MonitorAction::Nothing,
            ),
            (_, MonitorEvent::InterruptReceived) => (
                MonitorPhase::Interrupted,
                self.relay_count,
                MonitorAction::Terminate,
            ),
            (MonitorPhase::Uninitialized, MonitorEvent::Start) => (
                MonitorPhase::Authenticating,
                self.relay_count,
                MonitorAction::Authenticate,
            ),
            (MonitorPhase::Authenticating, MonitorEvent::Authenticated(ok)) => if ok {
                (MonitorPhase::FetchingTopology, self.relay_count, MonitorAction::FetchTopology)
            } else {
                (
                    MonitorPhase::Aborted,
                    self.relay_count,
                    MonitorAction::Abort(FatalError::AuthenticationFailed),
                )
            },
            (MonitorPhase::FetchingTopology, MonitorEvent::TopologyFetched(listed)) => match listed {
                None => (
                    MonitorPhase::Aborted,
                    self.relay_count,
                    MonitorAction::Abort(FatalError::TopologyUnavailable),
                ),
                Some(n) => if n == 0 {
                    (
                        MonitorPhase::Aborted,
                        self.relay_count,
                        MonitorAction::Abort(FatalError::NoNodes),
                    )
                } else {
                    (MonitorPhase::SanityChecking, n, MonitorAction::SpawnListenerAndSanityCheck)
                },
            },
            (MonitorPhase::SanityChecking, MonitorEvent::ProbeSent) => (
                MonitorPhase::Pacing(0),
                self.relay_count,
                MonitorAction::WaitForTick,
            ),
            (MonitorPhase::Pacing(i), MonitorEvent::TickElapsed) => (
                MonitorPhase::Probing(i),
                self.relay_count,
                MonitorAction::Probe(i),
            ),
            (MonitorPhase::Probing(i), MonitorEvent::ProbeSent) => if i + 1 < self.relay_count {
                (MonitorPhase::Pacing(i + 1), self.relay_count, MonitorAction::WaitForTick)
            } else {
                (MonitorPhase::AwaitingInterrupt, self.relay_count, MonitorAction::WaitForInterrupt)
            },
            _ => (self.phase, self.relay_count, MonitorAction::Nothing),
        };
        self.phase = phase;
        self.relay_count = relays;
        action
    }
}

} // verus!
