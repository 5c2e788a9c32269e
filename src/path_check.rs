use crate::path_key::{NodeDescriptor, NodeKey};
use crate::table::KeyedTable;
use vstd::prelude::*;

verus! {

/// Health of one probed path, keyed by its path key.
#[derive(Debug, PartialEq, Eq, Clone, Copy, Structural)]
pub enum PathStatus {
    Healthy,
    Unhealthy,
    Pending,
}

/// What is known of a node's reachability.
#[derive(Debug, PartialEq, Eq, Clone, Copy, Structural)]
pub enum Connection {
    Connected,
    Unreachable,
}

/// The outcome of registering at one provider.
#[derive(Debug, PartialEq, Eq, Clone, Copy, Structural)]
pub enum Registration {
    Registered,
    Unreachable,
    /// The provider was cached already; its first entry stands.
    AlreadyRegistered,
}

/// Why a packet cannot be built for a path.
#[derive(Debug, PartialEq, Eq, Clone, Copy, Structural)]
pub enum PacketConstructionError {
    EmptyPath,
    DelayCountMismatch,
}

/// Everything the onion-packet builder needs for one probe: the route's node
/// keys in order, the destination, and one delay per hop.
pub struct PacketRequest {
    pub route: Vec<NodeKey>,
    pub destination: NodeKey,
    pub delays: Vec<u64>,
}

/// What `check_path` decided for a path.
pub enum ProbeDecision {
    /// The terminal provider is known dead: nothing is sent.
    ProviderUnreachable,
    /// The first hop is known dead: nothing is built or sent.
    FirstHopUnreachable,
    /// Build this packet and send it to the path's first hop.
    Send(PacketRequest),
}

/// The route of a packet request is the path's node keys, in order.
pub open spec fn is_route_of(route: Seq<NodeKey>, path: Seq<NodeDescriptor>) -> bool {
    route.len() == path.len() && forall|i: int| 0 <= i < path.len() ==> route[i] == path[i].pub_key
}

pub open spec fn all_zero(delays: Seq<u64>) -> bool {
    forall|i: int| 0 <= i < delays.len() ==> delays[i] == 0
}

fn route_keys(path: &Vec<NodeDescriptor>) -> (r: Vec<NodeKey>)
    ensures
        is_route_of(r@, path@),
{
    let mut route: Vec<NodeKey> = Vec::new();
    let mut i: usize = 0;
    while i < path.len()
        invariant
            0 <= i <= path@.len(),
            route@.len() == i,
            forall|k: int| 0 <= k < i ==> route@[k] == path@[k].pub_key,
        decreases path@.len() - i,
    {
        route.push(path[i].pub_key);
        i = i + 1;
    }
    route
}

fn zero_delays(n: usize) -> (r: Vec<u64>)
    ensures
        r@.len() == n,
        all_zero(r@),
{
    let mut delays: Vec<u64> = Vec::new();
    let mut i: usize = 0;
    while i < n
        invariant
            0 <= i <= n,
            delays@.len() == i,
            all_zero(delays@),
        decreases n - i,
    {
        delays.push(0);
        i = i + 1;
    }
    delays
}

/// Checks the inputs of one onion packet and gathers them: a path of at least
/// one node, with exactly one delay per hop.
pub fn build_packet_request(
    path: &Vec<NodeDescriptor>,
    destination: NodeKey,
    delays: Vec<u64>,
) -> (r: Result<PacketRequest, PacketConstructionError>)
    ensures
        path@.len() == 0 <==> r == Err::<PacketRequest, _>(PacketConstructionError::EmptyPath),
        (path@.len() > 0 && delays@.len() != path@.len()) <==> r == Err::<PacketRequest, _>(
            PacketConstructionError::DelayCountMismatch,
        ),
        r is Ok ==> is_route_of(r->Ok_0.route@, path@) && r->Ok_0.destination == destination
            && r->Ok_0.delays@ == delays@,
{
    if path.len() == 0 {
        return Err(PacketConstructionError::EmptyPath);
    }
    if delays.len() != path.len() {
        return Err(PacketConstructionError::DelayCountMismatch);
    }
    Ok(PacketRequest { route: route_keys(path), destination, delays })
}

/// Per-node reachability for providers and first hops, the prober's own
/// address, and the status of each probed path.
pub struct PathChecker {
    provider_clients: KeyedTable<Connection>,
    layer_one_clients: KeyedTable<Connection>,
    paths_status: KeyedTable<PathStatus>,
    our_destination: NodeKey,
}

/// The provider cache after registering each of `results` in turn; an
/// already-cached provider keeps its first entry.
pub open spec fn register_all(
    cache: Map<Seq<u8>, Connection>,
    results: Seq<(NodeKey, bool)>,
) -> Map<Seq<u8>, Connection>
    decreases results.len(),
{
    if results.len() == 0 {
        cache
    } else {
        let before = register_all(cache, results.drop_last());
        let (key, ok) = results.last();
        if before.contains_key(key@) {
            before
        } else {
            before.insert(key@, if ok { Connection::Connected } else { Connection::Unreachable })
        }
    }
}

impl PathChecker {
    pub closed spec fn wf(&self) -> bool {
        self.provider_clients.wf() && self.layer_one_clients.wf() && self.paths_status.wf()
    }

    /// The provider cache, by public key.
    pub closed spec fn providers(&self) -> Map<Seq<u8>, Connection> {
        self.provider_clients@
    }

    /// The first-hop cache, by public key.
    pub closed spec fn first_hops(&self) -> Map<Seq<u8>, Connection> {
        self.layer_one_clients@
    }

    /// The status of each probed path, by path key.
    pub closed spec fn statuses(&self) -> Map<Seq<u8>, PathStatus> {
        self.paths_status@
    }

    pub closed spec fn destination(&self) -> NodeKey {
        self.our_destination
    }

    /// A checker whose provider cache records each registration result in
    /// order; one outcome per result.
    pub fn new(our_destination: NodeKey, registrations: &Vec<(NodeKey, bool)>) -> (r: (
        PathChecker,
        Vec<Registration>,
    ))
        ensures
            r.0.wf(),
            r.0.providers() == register_all(Map::empty(), registrations@),
            r.0.first_hops() == Map::<Seq<u8>, Connection>::empty(),
            r.0.statuses() == Map::<Seq<u8>, PathStatus>::empty(),
            r.0.destination() == our_destination,
            r.1@.len() == registrations@.len(),
            forall|i: int|
                0 <= i < registrations@.len() ==> #[trigger] r.1@[i] == (if register_all(
                    Map::empty(),
                    registrations@.subrange(0, i),
                ).contains_key(registrations@[i].0@) {
                    Registration::AlreadyRegistered
                } else if registrations@[i].1 {
                    Registration::Registered
                } else {
                    Registration::Unreachable
                }),
    {
        let mut checker = PathChecker {
            provider_clients: KeyedTable::new(),
            layer_one_clients: KeyedTable::new(),
            paths_status: KeyedTable::new(),
            our_destination,
        };
        let mut outcomes: Vec<Registration> = Vec::new();
        let mut i: usize = 0;
        while i < registrations.len()
            invariant
                0 <= i <= registrations@.len(),
                checker.wf(),
                checker.providers() == register_all(Map::empty(), registrations@.subrange(0, i as int)),
                checker.first_hops() == Map::<Seq<u8>, Connection>::empty(),
                checker.statuses() == Map::<Seq<u8>, PathStatus>::empty(),
                checker.destination() == our_destination,
                outcomes@.len() == i,
                forall|k: int|
                    0 <= k < i ==> #[trigger] outcomes@[k] == (if register_all(
                        Map::empty(),
                        registrations@.subrange(0, k),
                    ).contains_key(registrations@[k].0@) {
                        Registration::AlreadyRegistered
                    } else if registrations@[k].1 {
                        Registration::Registered
                    } else {
                        Registration::Unreachable
                    }),
            decreases registrations@.len() - i,
        {
            let (key, ok) = registrations[i];
            let outcome = checker.register_provider(&key, ok);
            outcomes.push(outcome);
            proof {
                let next = registrations@.subrange(0, i + 1);
                assert(next.drop_last() =~= registrations@.subrange(0, i as int));
            }
            i = i + 1;
        }
        assert(registrations@.subrange(0, registrations@.len() as int) =~= registrations@);
        (checker, outcomes)
    }

    /// Records the result of registering at one provider; a provider that is
    /// cached already keeps its entry, and the clash is reported.
    pub fn register_provider(&mut self, key: &NodeKey, registered: bool) -> (r: Registration)
        requires
            old(self).wf(),
        ensures
            final(self).wf(),
            final(self).first_hops() == old(self).first_hops(),
            final(self).statuses() == old(self).statuses(),
            final(self).destination() == old(self).destination(),
            old(self).providers().contains_key(key@) ==> r == Registration::AlreadyRegistered
                && final(self).providers() == old(self).providers(),
            !old(self).providers().contains_key(key@) ==> final(self).providers() == old(
                self,
            ).providers().insert(
                key@,
                if registered {
                    Connection::Connected
                } else {
                    Connection::Unreachable
                },
            ) && r == (if registered {
                Registration::Registered
            } else {
                Registration::Unreachable
            }),
    {
        let state = if registered {
            Connection::Connected
        } else {
            Connection::Unreachable
        };
        if self.provider_clients.insert_new(key.as_slice(), state) {
            if registered {
                Registration::Registered
            } else {
                Registration::Unreachable
            }
        } else {
            Registration::AlreadyRegistered
        }
    }

    /// Records that no session could be opened to a first-hop relay, unless
    /// that relay is cached already; says whether it was recorded.
    pub fn record_first_hop_failure(&mut self, key: &NodeKey) -> (r: bool)
        requires
            old(self).wf(),
        ensures
            final(self).wf(),
            final(self).providers() == old(self).providers(),
            final(self).statuses() == old(self).statuses(),
            final(self).destination() == old(self).destination(),
            r == !old(self).first_hops().contains_key(key@),
            final(self).first_hops() == (if r {
                old(self).first_hops().insert(key@, Connection::Unreachable)
            } else {
                old(self).first_hops()
            }),
    {
        self.layer_one_clients.insert_new(key.as_slice(), Connection::Unreachable)
    }

    /// What is cached for a provider.
    pub fn provider_state(&self, key: &NodeKey) -> (r: Option<Connection>)
        requires
            self.wf(),
        ensures
            r == (if self.providers().contains_key(key@) {
                Some(self.providers()[key@])
            } else {
                None::<Connection>
            }),
    {
        self.provider_clients.get(key.as_slice())
    }

    /// What is cached for a first-hop relay.
    pub fn first_hop_state(&self, key: &NodeKey) -> (r: Option<Connection>)
        requires
            self.wf(),
        ensures
            r == (if self.first_hops().contains_key(key@) {
                Some(self.first_hops()[key@])
            } else {
                None::<Connection>
            }),
    {
        self.layer_one_clients.get(key.as_slice())
    }

    /// The recorded status of a path key.
    pub fn path_status(&self, path_key: &Vec<u8>) -> (r: Option<PathStatus>)
        requires
            self.wf(),
        ensures
            r == (if self.statuses().contains_key(path_key@) {
                Some(self.statuses()[path_key@])
            } else {
                None::<PathStatus>
            }),
    {
        self.paths_status.get(path_key.as_slice())
    }

    /// Decides what to do for one path: skip it when its provider or its
    /// first hop is known dead, or else ask for a packet with all-zero
    /// delays, addressed to this prober. A first hop seen for the first time
    /// is cached as connected.
    pub fn check_path(&mut self, path: &Vec<NodeDescriptor>) -> (r: ProbeDecision)
        requires
            old(self).wf(),
            path@.len() > 0,
            old(self).providers().contains_key(path@.last().pub_key@),
        ensures
            final(self).wf(),
            final(self).providers() == old(self).providers(),
            final(self).statuses() == old(self).statuses(),
            final(self).destination() == old(self).destination(),
            ({
                let provider = old(self).providers()[path@.last().pub_key@];
                let hop = path@[0].pub_key@;
                let hops = old(self).first_hops();
                match r {
                    ProbeDecision::ProviderUnreachable => provider == Connection::Unreachable
                        && final(self).first_hops() == hops,
                    ProbeDecision::FirstHopUnreachable => provider == Connection::Connected
                        && hops.contains_key(hop) && hops[hop] == Connection::Unreachable
                        && final(self).first_hops() == hops,
                    ProbeDecision::Send(req) => provider == Connection::Connected && (
                    !hops.contains_key(hop) || hops[hop] == Connection::Connected)
                        && final(self).first_hops() == hops.insert(hop, Connection::Connected)
                        && is_route_of(req.route@, path@) && req.destination == old(
                        self,
                    ).destination() && req.delays@.len() == path@.len() && all_zero(
                        req.delays@,
                    ),
                }
            }),
    {
        let provider_key: &NodeKey = &path[path.len() - 1].pub_key;
        match self.provider_clients.get(provider_key.as_slice()) {
            Some(Connection::Connected) => {},
            _ => {
                return ProbeDecision::ProviderUnreachable;
            },
        }
        let first_node_key: &NodeKey = &path[0].pub_key;
        let ghost hops = self.layer_one_clients@;
        self.layer_one_clients.insert_new(first_node_key.as_slice(), Connection::Connected);
        match self.layer_one_clients.get(first_node_key.as_slice()) {
            Some(Connection::Connected) => {},
            _ => {
                return ProbeDecision::FirstHopUnreachable;
            },
        }
        proof {
            assert(hops.insert(first_node_key@, Connection::Connected) =~= self.layer_one_clients@);
        }
        ProbeDecision::Send(
            PacketRequest {
                route: route_keys(path),
                destination: self.our_destination,
                delays: zero_delays(path.len()),
            },
        )
    }

    /// Records the fate of a probe's send under its path key: pending a
    /// reply when it was sent, unhealthy when sending failed. Returns whether
    /// it was sent.
    pub fn record_send_result(&mut self, path_key: &Vec<u8>, sent: bool) -> (r: bool)
        requires
            old(self).wf(),
        ensures
            final(self).wf(),
            r == sent,
            final(self).providers() == old(self).providers(),
            final(self).first_hops() == old(self).first_hops(),
            final(self).destination() == old(self).destination(),
            final(self).statuses() == old(self).statuses().insert(
                path_key@,
                if sent {
                    PathStatus::Pending
                } else {
                    PathStatus::Unhealthy
                },
            ),
    {
        let status = if sent {
            PathStatus::Pending
        } else {
            PathStatus::Unhealthy
        };
        self.paths_status.set(path_key.as_slice(), status);
        sent
    }

    /// Records that a probe through the path with this key came back.
    pub fn confirm_delivery(&mut self, path_key: &Vec<u8>)
        requires
            old(self).wf(),
        ensures
            final(self).wf(),
            final(self).providers() == old(self).providers(),
            final(self).first_hops() == old(self).first_hops(),
            final(self).destination() == old(self).destination(),
            final(self).statuses() == old(self).statuses().insert(path_key@, PathStatus::Healthy),
    {
        self.paths_status.set(path_key.as_slice(), PathStatus::Healthy);
    }
}

} // verus!
