//! The registry of a service's nodes and live ports, bounded per kind, and
//! the removal of what a dead node left behind.
use vstd::prelude::*;

use crate::monitoring::State;

verus! {

/// The kind of a port.
#[derive(Debug, Clone, Copy, PartialEq, Eq, Structural)]
pub enum PortKind {
    Publisher,
    Subscriber,
    Client,
    Server,
}

/// A registered port and the node that owns it.
#[derive(Debug, Clone, Copy, PartialEq, Eq, Structural)]
pub struct PortEntry {
    pub kind: PortKind,
    pub port_id: u128,
    pub node_id: u128,
}

/// Why a node or a port could not be registered.
#[derive(Debug, Clone, Copy, PartialEq, Eq, Structural)]
pub enum RegistrationError {
    ExceedsMaxSupportedNodes,
    ExceedsMaxPublishers,
    ExceedsMaxSubscribers,
    ExceedsMaxClients,
    ExceedsMaxServers,
}

/// Why the resources of a node were not removed.
#[derive(Debug, Clone, Copy, PartialEq, Eq, Structural)]
pub enum CleanupError {
    /// The node is alive: its entries must stay.
    NodeIsAlive,
}

/// How many ports of each kind a service admits.
#[derive(Debug, Clone, Copy, PartialEq, Eq, Structural)]
pub struct Capacities {
    pub max_nodes: usize,
    pub max_publishers: usize,
    pub max_subscribers: usize,
    pub max_clients: usize,
    pub max_servers: usize,
}

/// The abstract state of a registry.
pub struct RegistryState {
    pub nodes: Seq<u128>,
    pub ports: Seq<PortEntry>,
    pub capacities: Capacities,
}

/// The bound for ports of `kind`.
pub open spec fn max_of(c: Capacities, kind: PortKind) -> usize {
    match kind {
        PortKind::Publisher => c.max_publishers,
        PortKind::Subscriber => c.max_subscribers,
        PortKind::Client => c.max_clients,
        PortKind::Server => c.max_servers,
    }
}

/// The error for a full table of `kind`.
pub open spec fn exceeds_error(kind: PortKind) -> RegistrationError {
    match kind {
        PortKind::Publisher => RegistrationError::ExceedsMaxPublishers,
        PortKind::Subscriber => RegistrationError::ExceedsMaxSubscribers,
        PortKind::Client => RegistrationError::ExceedsMaxClients,
        PortKind::Server => RegistrationError::ExceedsMaxServers,
    }
}

/// Number of ports of `kind` in `ports`.
pub open spec fn count_kind(ports: Seq<PortEntry>, kind: PortKind) -> nat
    decreases ports.len(),
{
    if ports.len() == 0 {
        0
    } else {
        count_kind(ports.drop_last(), kind) + if ports.last().kind == kind {
            1nat
        } else {
            0nat
        }
    }
}

/// The ports not owned by `node`, in registration order.
pub open spec fn ports_without(ports: Seq<PortEntry>, node: u128) -> Seq<PortEntry>
    decreases ports.len(),
{
    if ports.len() == 0 {
        ports
    } else if ports.last().node_id == node {
        ports_without(ports.drop_last(), node)
    } else {
        ports_without(ports.drop_last(), node).push(ports.last())
    }
}

/// The nodes other than `node`, in registration order.
pub open spec fn nodes_without(nodes: Seq<u128>, node: u128) -> Seq<u128>
    decreases nodes.len(),
{
    if nodes.len() == 0 {
        nodes
    } else if nodes.last() == node {
        nodes_without(nodes.drop_last(), node)
    } else {
        nodes_without(nodes.drop_last(), node).push(nodes.last())
    }
}

proof fn lemma_nodes_without(nodes: Seq<u128>, node: u128)
    requires
        nodes.no_duplicates(),
    ensures
        nodes_without(nodes, node).no_duplicates(),
        nodes_without(nodes, node).len() <= nodes.len(),
        !nodes_without(nodes, node).contains(node),
        forall|x: u128| #[trigger] nodes_without(nodes, node).contains(x) ==> nodes.contains(x),
        !nodes.contains(node) ==> nodes_without(nodes, node) == nodes,
    decreases nodes.len(),
{
    if nodes.len() > 0 {
        let init = nodes.drop_last();
        assert(init.no_duplicates()) by {
            assert forall|i: int, j: int| 0 <= i < init.len() && 0 <= j < init.len() && i != j implies init[i] != init[j] by {
                assert(nodes[i] != nodes[j]);
            }
        }
        lemma_nodes_without(init, node);
        let rest = nodes_without(init, node);
        assert(!init.contains(nodes.last())) by {
            if init.contains(nodes.last()) {
                let k = choose|k: int| 0 <= k < init.len() && init[k] == nodes.last();
                assert(nodes[k] == nodes[nodes.len() - 1]);
            }
        }
        if nodes.last() != node {
            let r = rest.push(nodes.last());
            assert(!rest.contains(nodes.last()));
            assert forall|i: int, j: int| 0 <= i < r.len() && 0 <= j < r.len() && i != j implies r[i] != r[j] by {
                if i < rest.len() && j < rest.len() {
                } else if i < rest.len() {
                    assert(rest.contains(r[i]));
                } else {
                    assert(rest.contains(r[j]));
                }
            }
            assert forall|x: u128| #[trigger] r.contains(x) implies nodes.contains(x) by {
                let k = choose|k: int| 0 <= k < r.len() && r[k] == x;
                if k < rest.len() {
                    assert(rest.contains(x));
                    let m = choose|m: int| 0 <= m < init.len() && init[m] == x;
                    assert(nodes[m] == x);
                } else {
                    assert(nodes[nodes.len() - 1] == x);
                }
            }
            if !nodes.contains(node) {
                assert(!init.contains(node)) by {
                    if init.contains(node) {
                        let k = choose|k: int| 0 <= k < init.len() && init[k] == node;
                        assert(nodes[k] == node);
                    }
                }
                assert(init.push(nodes.last()) =~= nodes);
            }
        } else {
            assert forall|x: u128| #[trigger] rest.contains(x) implies nodes.contains(x) by {
                let m = choose|m: int| 0 <= m < init.len() && init[m] == x;
                assert(nodes[m] == x);
            }
            assert(nodes.contains(node)) by {
                assert(nodes[nodes.len() - 1] == node);
            }
        }
    }
}

/// The registry's invariant: each node once, and no table over its bound.
pub open spec fn registry_wf(v: RegistryState) -> bool {
    &&& v.nodes.no_duplicates()
    &&& v.nodes.len() <= v.capacities.max_nodes
    &&& forall|k: PortKind| count_kind(v.ports, k) <= #[trigger] max_of(v.capacities, k)
}

/// The state after removing what `node` left, and the result, given what
/// was observed of the node.
pub open spec fn cleanup_spec(v: RegistryState, node: u128, observed: State) -> (
    RegistryState,
    Result<bool, CleanupError>,
) {
    if observed == State::Alive {
        (v, Err(CleanupError::NodeIsAlive))
    } else if !v.nodes.contains(node) {
        (v, Ok(false))
    } else {
        (
            RegistryState {
                nodes: nodes_without(v.nodes, node),
                ports: ports_without(v.ports, node),
                capacities: v.capacities,
            },
            Ok(true),
        )
    }
}

proof fn lemma_ports_without_shrinks(ports: Seq<PortEntry>, node: u128)
    ensures
        forall|k: PortKind| count_kind(ports_without(ports, node), k) <= #[trigger] count_kind(ports, k),
        forall|i: int|
            0 <= i < ports_without(ports, node).len() ==> (#[trigger] ports_without(ports, node)[i]).node_id
                != node,
    decreases ports.len(),
{
    if ports.len() > 0 {
        lemma_ports_without_shrinks(ports.drop_last(), node);
        let rest = ports_without(ports.drop_last(), node);
        if ports.last().node_id != node {
            assert(rest.push(ports.last()).drop_last() =~= rest);
        }
        assert forall|k: PortKind| count_kind(ports_without(ports, node), k) <= #[trigger] count_kind(
            ports,
            k,
        ) by {
            assert(count_kind(rest, k) <= count_kind(ports.drop_last(), k));
            if ports.last().node_id != node {
                assert(rest.push(ports.last()).drop_last() =~= rest);
                assert(rest.push(ports.last()).last() == ports.last());
            }
        }
    }
}

proof fn lemma_ports_without_fixed(ports: Seq<PortEntry>, node: u128)
    requires
        forall|i: int| 0 <= i < ports.len() ==> (#[trigger] ports[i]).node_id != node,
    ensures
        ports_without(ports, node) == ports,
    decreases ports.len(),
{
    if ports.len() > 0 {
        lemma_ports_without_fixed(ports.drop_last(), node);
        assert(ports.drop_last().push(ports.last()) =~= ports);
    }
}

/// Cleanup is idempotent: once the entries of a dead node are removed, a
/// second removal finds nothing, reports `false` and changes nothing; and a
/// node that is alive is never cleaned up.
pub proof fn lemma_cleanup_idempotent(v: RegistryState, node: u128, observed: State)
    requires
        registry_wf(v),
    ensures
        observed == State::Alive ==> cleanup_spec(v, node, observed).0 == v,
        observed != State::Alive ==> ({
            let (w, _) = cleanup_spec(v, node, observed);
            &&& registry_wf(w)
            &&& cleanup_spec(w, node, observed).1 == Ok::<bool, CleanupError>(false)
            &&& cleanup_spec(w, node, observed).0 == w
        }),
{
    if observed != State::Alive && v.nodes.contains(node) {
        let w = cleanup_spec(v, node, observed).0;
        lemma_nodes_without(v.nodes, node);
        lemma_ports_without_shrinks(v.ports, node);
        lemma_nodes_without(w.nodes, node);
        lemma_ports_without_fixed(w.ports, node);
        lemma_ports_without_shrinks(w.ports, node);
    }
}

} // verus!

verus! {

/// The shared registry of a service's nodes and ports.
pub struct DynamicConfig {
    nodes: Vec<u128>,
    ports: Vec<PortEntry>,
    capacities: Capacities,
}

impl View for DynamicConfig {
    type V = RegistryState;

    closed spec fn view(&self) -> RegistryState {
        RegistryState { nodes: self.nodes@, ports: self.ports@, capacities: self.capacities }
    }
}

fn count_of_kind(ports: &Vec<PortEntry>, kind: PortKind) -> (r: usize)
    ensures
        r == count_kind(ports@, kind),
{
    let mut n: usize = 0;
    let mut i: usize = 0;
    while i < ports.len()
        invariant
            i <= ports@.len(),
            n == count_kind(ports@.subrange(0, i as int), kind),
            n <= i,
        decreases ports@.len() - i,
    {
        assert(ports@.subrange(0, i + 1 as int).drop_last() =~= ports@.subrange(0, i as int));
        if ports[i].kind == kind {
            n = n + 1;
        }
        i = i + 1;
    }
    assert(ports@.subrange(0, ports@.len() as int) =~= ports@);
    n
}

fn max_for(c: &Capacities, kind: PortKind) -> (r: usize)
    ensures
        r == max_of(*c, kind),
{
    match kind {
        PortKind::Publisher => c.max_publishers,
        PortKind::Subscriber => c.max_subscribers,
        PortKind::Client => c.max_clients,
        PortKind::Server => c.max_servers,
    }
}

impl DynamicConfig {
    /// The registry's invariant.
    pub open spec fn wf(&self) -> bool {
        registry_wf(self@)
    }

    /// An empty registry with the given bounds.
    pub fn new(capacities: Capacities) -> (r: Self)
        ensures
            r.wf(),
            r@.nodes.len() == 0,
            r@.ports.len() == 0,
            r@.capacities == capacities,
    {
        DynamicConfig { nodes: Vec::new(), ports: Vec::new(), capacities }
    }

    /// Whether `node` is registered.
    pub fn has_node(&self, node: u128) -> (r: bool)
        ensures
            r == self@.nodes.contains(node),
    {
        let mut i: usize = 0;
        while i < self.nodes.len()
            invariant
                i <= self@.nodes.len(),
                forall|k: int| 0 <= k < i ==> self@.nodes[k] != node,
            decreases self@.nodes.len() - i,
        {
            if self.nodes[i] == node {
                assert(self@.nodes[i as int] == node);
                return true;
            }
            i = i + 1;
        }
        false
    }

    /// Registers `node`; a node that is already registered stays as it is.
    pub fn register_node(&mut self, node: u128) -> (r: Result<(), RegistrationError>)
        requires
            old(self).wf(),
        ensures
            final(self).wf(),
            final(self)@.ports == old(self)@.ports,
            final(self)@.capacities == old(self)@.capacities,
            old(self)@.nodes.contains(node) ==> r is Ok && final(self)@.nodes == old(self)@.nodes,
            !old(self)@.nodes.contains(node) && old(self)@.nodes.len() < old(self)@.capacities.max_nodes
                ==> r is Ok && final(self)@.nodes == old(self)@.nodes.push(node),
            !old(self)@.nodes.contains(node) && old(self)@.nodes.len()
                >= old(self)@.capacities.max_nodes ==> r == Err::<(), RegistrationError>(
                RegistrationError::ExceedsMaxSupportedNodes,
            ) && final(self)@ == old(self)@,
    {
        if self.has_node(node) {
            return Ok(());
        }
        if self.nodes.len() >= self.capacities.max_nodes {
            return Err(RegistrationError::ExceedsMaxSupportedNodes);
        }
        let ghost before = self@.nodes;
        self.nodes.push(node);
        proof {
            let r = self@.nodes;
            assert forall|i: int, j: int| 0 <= i < r.len() && 0 <= j < r.len() && i != j implies r[i]
                != r[j] by {
                if i < before.len() && j < before.len() {
                } else if i < before.len() {
                    assert(before.contains(r[i]));
                } else {
                    assert(before.contains(r[j]));
                }
            }
        }
        Ok(())
    }

    /// Registers a port of `kind`, unless its table is full.
    pub fn add_port(&mut self, kind: PortKind, port_id: u128, node_id: u128) -> (r: Result<
        (),
        RegistrationError,
    >)
        requires
            old(self).wf(),
        ensures
            final(self).wf(),
            final(self)@.nodes == old(self)@.nodes,
            final(self)@.capacities == old(self)@.capacities,
            count_kind(old(self)@.ports, kind) < max_of(old(self)@.capacities, kind) ==> r is Ok
                && final(self)@.ports == old(self)@.ports.push(
                PortEntry { kind, port_id, node_id },
            ),
            count_kind(old(self)@.ports, kind) >= max_of(old(self)@.capacities, kind) ==> r == Err::<
                (),
                RegistrationError,
            >(exceeds_error(kind)) && final(self)@ == old(self)@,
    {
        let n = count_of_kind(&self.ports, kind);
        if n >= max_for(&self.capacities, kind) {
            return match kind {
                PortKind::Publisher => Err(RegistrationError::ExceedsMaxPublishers),
                PortKind::Subscriber => Err(RegistrationError::ExceedsMaxSubscribers),
                PortKind::Client => Err(RegistrationError::ExceedsMaxClients),
                PortKind::Server => Err(RegistrationError::ExceedsMaxServers),
            };
        }
        let ghost before = self@.ports;
        let e = PortEntry { kind, port_id, node_id };
        self.ports.push(e);
        proof {
            assert(self@.ports.drop_last() =~= before);
            assert forall|k: PortKind| count_kind(self@.ports, k) <= #[trigger] max_of(
                self@.capacities,
                k,
            ) by {
                assert(count_kind(before, k) <= max_of(self@.capacities, k));
            }
        }
        Ok(())
    }

    /// Number of registered ports of `kind`.
    pub fn number_of_ports(&self, kind: PortKind) -> (r: usize)
        ensures
            r == count_kind(self@.ports, kind),
    {
        count_of_kind(&self.ports, kind)
    }

    /// Removes the node `node` and every port it owns, given what its monitor
    /// observed. A node that is alive keeps its entries; a node that is not
    /// registered (any more) yields `false`.
    pub fn remove_stale_resources(&mut self, node: u128, observed: State) -> (r: Result<
        bool,
        CleanupError,
    >)
        requires
            old(self).wf(),
        ensures
            final(self).wf(),
            (final(self)@, r) == cleanup_spec(old(self)@, node, observed),
    {
        proof {
            lemma_cleanup_idempotent(self@, node, observed);
        }
        if observed == State::Alive {
            return Err(CleanupError::NodeIsAlive);
        }
        if !self.has_node(node) {
            return Ok(false);
        }
        let ghost v = self@;
        let mut nodes: Vec<u128> = Vec::new();
        let mut i: usize = 0;
        while i < self.nodes.len()
            invariant
                i <= self@.nodes.len(),
                self@ == v,
                nodes@ == nodes_without(v.nodes.subrange(0, i as int), node),
            decreases self@.nodes.len() - i,
        {
            assert(v.nodes.subrange(0, i + 1 as int).drop_last() =~= v.nodes.subrange(0, i as int));
            if self.nodes[i] != node {
                nodes.push(self.nodes[i]);
            }
            i = i + 1;
        }
        assert(v.nodes.subrange(0, v.nodes.len() as int) =~= v.nodes);
        let mut ports: Vec<PortEntry> = Vec::new();
        let mut j: usize = 0;
        while j < self.ports.len()
            invariant
                j <= self@.ports.len(),
                self@ == v,
                ports@ == ports_without(v.ports.subrange(0, j as int), node),
            decreases self@.ports.len() - j,
        {
            assert(v.ports.subrange(0, j + 1 as int).drop_last() =~= v.ports.subrange(0, j as int));
            if self.ports[j].node_id != node {
                ports.push(self.ports[j]);
            }
            j = j + 1;
        }
        assert(v.ports.subrange(0, v.ports.len() as int) =~= v.ports);
        self.nodes = nodes;
        self.ports = ports;
        Ok(true)
    }
}

} // verus!
