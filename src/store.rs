use vstd::prelude::*;
use crate::config::{ConfigCache, ConfigView, Direction, rule_for, names_contain};

verus! {

/// A channel port of a tracked endpoint.
pub struct Port {
    pub id: u32,
    pub node: u32,
    pub channel: String,
    pub direction: Direction,
}

pub struct PortView {
    pub id: u32,
    pub node: u32,
    pub channel: Seq<char>,
    pub direction: Direction,
}

impl View for Port {
    type V = PortView;

    open spec fn view(&self) -> PortView {
        PortView { id: self.id, node: self.node, channel: self.channel@, direction: self.direction }
    }
}

/// A tracked endpoint with the ports discovered on it, oldest first.
pub struct NodeData {
    pub name: String,
    pub id: u32,
    pub ports: Vec<Port>,
}

pub struct NodeView {
    pub id: u32,
    pub name: Seq<char>,
    pub ports: Seq<PortView>,
}

impl View for NodeData {
    type V = NodeView;

    open spec fn view(&self) -> NodeView {
        NodeView { id: self.id, name: self.name@, ports: self.ports@.map_values(|p: Port| p@) }
    }
}

/// A connection to ask the graph service for: from an output port to an
/// input port, with the endpoints that own them.
#[derive(Debug, Clone, Copy, PartialEq, Eq, Structural)]
pub struct LinkRequest {
    pub output_port: u32,
    pub input_port: u32,
    pub output_node: u32,
    pub input_node: u32,
}

/// What the deletion rules say of a newly seen connection: whether its input
/// side, its output side, or both call for its destruction.
#[derive(Debug, Clone, Copy, PartialEq, Eq, Structural)]
pub struct Teardown {
    pub inbound: bool,
    pub outbound: bool,
}

/// The engine's state: the tracked endpoints, the connection requests in
/// flight, and the connections confirmed as created by the engine.
pub struct State {
    nodes: Vec<NodeData>,
    created_links: Vec<u32>,
    pending_links: Vec<u32>,
}

pub struct StoreView {
    pub nodes: Seq<NodeView>,
    pub created: Seq<u32>,
    pub pending: Seq<u32>,
}

impl View for State {
    type V = StoreView;

    closed spec fn view(&self) -> StoreView {
        StoreView {
            nodes: self.nodes@.map_values(|n: NodeData| n@),
            created: self.created_links@,
            pending: self.pending_links@,
        }
    }
}

/// Where the endpoint with this id stands.
pub open spec fn index_of_id(nodes: Seq<NodeView>, id: u32) -> Option<int>
    decreases nodes.len(),
{
    if nodes.len() == 0 {
        None
    } else if nodes.last().id == id {
        Some(nodes.len() - 1)
    } else {
        index_of_id(nodes.drop_last(), id)
    }
}

/// Where the endpoint with this name stands: the name index.
pub open spec fn index_of_name(nodes: Seq<NodeView>, name: Seq<char>) -> Option<int>
    decreases nodes.len(),
{
    if nodes.len() == 0 {
        None
    } else if nodes.last().name == name {
        Some(nodes.len() - 1)
    } else {
        index_of_name(nodes.drop_last(), name)
    }
}

pub open spec fn index_of_value(s: Seq<u32>, x: u32) -> Option<int>
    decreases s.len(),
{
    if s.len() == 0 {
        None
    } else if s.last() == x {
        Some(s.len() - 1)
    } else {
        index_of_value(s.drop_last(), x)
    }
}

pub open spec fn remove_at<A>(s: Seq<A>, i: Option<int>) -> Seq<A> {
    match i {
        Some(i) => s.remove(i),
        None => s,
    }
}

pub open spec fn remove_value(s: Seq<u32>, x: u32) -> Seq<u32> {
    remove_at(s, index_of_value(s, x))
}

pub open spec fn insert_value(s: Seq<u32>, x: u32) -> Seq<u32> {
    if index_of_value(s, x) is Some {
        s
    } else {
        s.push(x)
    }
}

/// The first port, in discovery order, on `channel` whose direction is not
/// `dir`.
pub open spec fn first_match(ports: Seq<PortView>, channel: Seq<char>, dir: Direction) -> Option<PortView>
    decreases ports.len(),
{
    if ports.len() == 0 {
        None
    } else if ports[0].channel == channel && ports[0].direction != dir {
        Some(ports[0])
    } else {
        first_match(ports.drop_first(), channel, dir)
    }
}

pub open spec fn has_port(ports: Seq<PortView>, id: u32) -> bool {
    exists|k: int| 0 <= k < ports.len() && ports[k].id == id
}

/// The connection joining two ports of opposite directions, from the output
/// one to the input one.
pub open spec fn oriented(p: PortView, q: PortView) -> LinkRequest {
    if p.direction == Direction::IN {
        LinkRequest { output_port: q.id, input_port: p.id, output_node: q.node, input_node: p.node }
    } else {
        LinkRequest { output_port: p.id, input_port: q.id, output_node: p.node, input_node: q.node }
    }
}

/// Ids and names are each held by at most one endpoint, and every port
/// belongs to the endpoint that holds it.
pub open spec fn nodes_wf(nodes: Seq<NodeView>) -> bool {
    &&& forall|i: int, j: int|
        0 <= i < nodes.len() && 0 <= j < nodes.len() && i != j ==> nodes[i].id != nodes[j].id
            && nodes[i].name != nodes[j].name
    &&& forall|i: int, k: int|
        0 <= i < nodes.len() && 0 <= k < nodes[i].ports.len() ==> (#[trigger] nodes[i].ports[k]).node
            == nodes[i].id
}

impl StoreView {
    /// The store's invariant: ids and names are each held by at most one
    /// endpoint, so the id index and the name index agree, and every port
    /// belongs to the endpoint that holds it.
    pub open spec fn wf(self) -> bool {
        &&& nodes_wf(self.nodes)
        &&& self.created.no_duplicates()
        &&& self.pending.no_duplicates()
    }

    pub open spec fn lookup(self, id: u32) -> Option<NodeView> {
        match index_of_id(self.nodes, id) {
            Some(i) => Some(self.nodes[i]),
            None => None,
        }
    }

    pub open spec fn id_by_name(self, name: Seq<char>) -> Option<u32> {
        match index_of_name(self.nodes, name) {
            Some(i) => Some(self.nodes[i].id),
            None => None,
        }
    }

    pub open spec fn is_created(self, id: u32) -> bool {
        self.created.contains(id)
    }

    pub open spec fn is_pending(self, id: u32) -> bool {
        self.pending.contains(id)
    }

    /// After an endpoint appears: tracked with no ports when the rules name
    /// it, replacing any endpoint that held its id or its name; left alone
    /// when the same id already stands under the same name.
    pub open spec fn after_endpoint_created(self, cfg: ConfigView, id: u32, name: Seq<char>) -> StoreView {
        if !cfg.is_relevant(name) {
            self
        } else if self.lookup(id) is Some && self.lookup(id).unwrap().name == name {
            self
        } else {
            let without_id = remove_at(self.nodes, index_of_id(self.nodes, id));
            let without_name = remove_at(without_id, index_of_name(without_id, name));
            StoreView {
                nodes: without_name.push(NodeView { id, name, ports: Seq::empty() }),
                ..self
            }
        }
    }

    /// After any object is removed: every reference to its id is purged.
    pub open spec fn after_removed(self, id: u32) -> StoreView {
        StoreView {
            nodes: remove_at(self.nodes, index_of_id(self.nodes, id)),
            created: remove_value(self.created, id),
            pending: remove_value(self.pending, id),
        }
    }

    /// Whether a port is kept: its parent is tracked and holds no port of
    /// that id yet.
    pub open spec fn accepts_port(self, p: PortView) -> bool {
        self.lookup(p.node) is Some && !has_port(self.lookup(p.node).unwrap().ports, p.id)
    }

    /// After a port appears: appended to its parent's ports if accepted.
    pub open spec fn after_port(self, p: PortView) -> StoreView {
        if self.accepts_port(p) {
            let i = index_of_id(self.nodes, p.node).unwrap();
            let n = self.nodes[i];
            StoreView { nodes: self.nodes.update(i, NodeView { ports: n.ports.push(p), ..n }), ..self }
        } else {
            self
        }
    }

    /// The connection a new port completes, if any: the parent has a connect
    /// rule, the port sits on the side the rule gives the parent, the partner
    /// is tracked, and it has a port on the same channel facing the other way.
    pub open spec fn link_for(self, cfg: ConfigView, p: PortView) -> Option<LinkRequest> {
        if !self.accepts_port(p) {
            None
        } else {
            let parent = self.lookup(p.node).unwrap();
            match rule_for(cfg.connect, parent.name) {
                None => None,
                Some(rule) => if p.direction == rule.partner_dir {
                    None
                } else {
                    match index_of_name(self.nodes, rule.partner) {
                        None => None,
                        Some(o) => match first_match(self.nodes[o].ports, p.channel, p.direction) {
                            None => None,
                            Some(q) => Some(oriented(p, q)),
                        },
                    }
                },
            }
        }
    }

    /// What the deletion rules say of a connection `id` from endpoint
    /// `node_out` to endpoint `node_in`. Connections of the engine's own,
    /// confirmed or in flight, are never torn down.
    pub open spec fn teardown_for(self, cfg: ConfigView, node_in: u32, node_out: u32, id: u32) -> Teardown {
        if self.is_created(id) || self.is_pending(id) {
            Teardown { inbound: false, outbound: false }
        } else {
            Teardown {
                inbound: self.lookup(node_in) is Some && names_contain(cfg.delete_in, self.lookup(node_in).unwrap().name),
                outbound: self.lookup(node_out) is Some && names_contain(cfg.delete_out, self.lookup(node_out).unwrap().name),
            }
        }
    }

    /// After a connection request was issued under handle `handle`.
    pub open spec fn after_requested(self, handle: u32) -> StoreView {
        StoreView { pending: insert_value(self.pending, handle), ..self }
    }

    /// After the request under `handle` was confirmed as object `assigned`.
    pub open spec fn after_confirmed(self, handle: u32, assigned: u32) -> StoreView {
        StoreView {
            pending: remove_value(self.pending, handle),
            created: insert_value(self.created, assigned),
            ..self
        }
    }
}

pub proof fn lemma_index_of_id(nodes: Seq<NodeView>, id: u32)
    ensures
        match index_of_id(nodes, id) {
            Some(i) => 0 <= i < nodes.len() && nodes[i].id == id,
            None => forall|k: int| 0 <= k < nodes.len() ==> nodes[k].id != id,
        },
    decreases nodes.len(),
{
    if nodes.len() > 0 {
        lemma_index_of_id(nodes.drop_last(), id);
        if nodes.last().id != id {
            assert forall|k: int| 0 <= k < nodes.len() - 1 implies nodes.drop_last()[k] == nodes[k] by {}
        }
    }
}

pub proof fn lemma_index_of_name(nodes: Seq<NodeView>, name: Seq<char>)
    ensures
        match index_of_name(nodes, name) {
            Some(i) => 0 <= i < nodes.len() && nodes[i].name == name,
            None => forall|k: int| 0 <= k < nodes.len() ==> nodes[k].name != name,
        },
    decreases nodes.len(),
{
    if nodes.len() > 0 {
        lemma_index_of_name(nodes.drop_last(), name);
        if nodes.last().name != name {
            assert forall|k: int| 0 <= k < nodes.len() - 1 implies nodes.drop_last()[k] == nodes[k] by {}
        }
    }
}

pub proof fn lemma_index_of_value(s: Seq<u32>, x: u32)
    ensures
        match index_of_value(s, x) {
            Some(i) => 0 <= i < s.len() && s[i] == x,
            None => !s.contains(x),
        },
    decreases s.len(),
{
    if s.len() > 0 {
        lemma_index_of_value(s.drop_last(), x);
        if s.last() != x && index_of_value(s, x) is None {
            assert forall|k: int| 0 <= k < s.len() implies s[k] != x by {
                if k < s.len() - 1 {
                    assert(s.drop_last()[k] == s[k]);
                }
            }
        }
    }
}

/// In a store that keeps its invariant, an id found by the name index is
/// found back by the id index, so that each index resolves what the other
/// holds.
pub proof fn lemma_unique_index(s: StoreView, i: int)
    requires
        s.wf(),
        0 <= i < s.nodes.len(),
    ensures
        index_of_id(s.nodes, s.nodes[i].id) == Some(i),
        index_of_name(s.nodes, s.nodes[i].name) == Some(i),
{
    lemma_index_of_id(s.nodes, s.nodes[i].id);
    lemma_index_of_name(s.nodes, s.nodes[i].name);
}

pub proof fn lemma_remove_value(s: Seq<u32>, x: u32)
    requires
        s.no_duplicates(),
    ensures
        remove_value(s, x).no_duplicates(),
        !remove_value(s, x).contains(x),
        forall|y: u32| y != x ==> (remove_value(s, x).contains(y) <==> s.contains(y)),
{
    lemma_index_of_value(s, x);
    match index_of_value(s, x) {
        Some(i) => {
            let r = s.remove(i);
            assert forall|y: u32| y != x implies (r.contains(y) <==> s.contains(y)) by {
                if s.contains(y) {
                    let k = choose|k: int| 0 <= k < s.len() && s[k] == y;
                    if k < i {
                        assert(r[k] == y);
                    } else {
                        assert(r[k - 1] == y);
                    }
                }
            }
            assert forall|k: int| 0 <= k < r.len() implies r[k] != x by {
                if k < i {
                    assert(s[k] == r[k]);
                } else {
                    assert(s[k + 1] == r[k]);
                }
            }
        },
        None => {},
    }
}

pub proof fn lemma_insert_value(s: Seq<u32>, x: u32)
    requires
        s.no_duplicates(),
    ensures
        insert_value(s, x).no_duplicates(),
        insert_value(s, x).contains(x),
        forall|y: u32| y != x ==> (insert_value(s, x).contains(y) <==> s.contains(y)),
{
    lemma_index_of_value(s, x);
    if index_of_value(s, x) is None {
        let r = s.push(x);
        assert(r[s.len() as int] == x);
        assert forall|y: u32| y != x implies (r.contains(y) <==> s.contains(y)) by {
            if r.contains(y) {
                let k = choose|k: int| 0 <= k < r.len() && r[k] == y;
                assert(s[k] == y);
            }
            if s.contains(y) {
                let k = choose|k: int| 0 <= k < s.len() && s[k] == y;
                assert(r[k] == y);
            }
        }
    } else {
        let i = index_of_value(s, x).unwrap();
        assert(s[i] == x);
    }
}

pub open spec fn source_index(i: Option<int>, k: int) -> int {
    match i {
        Some(j) => if k < j {
            k
        } else {
            k + 1
        },
        None => k,
    }
}

pub proof fn lemma_remove_node(nodes: Seq<NodeView>, i: Option<int>)
    requires
        nodes_wf(nodes),
        i matches Some(j) ==> 0 <= j < nodes.len(),
    ensures
        nodes_wf(remove_at(nodes, i)),
        forall|k: int|
            0 <= k < remove_at(nodes, i).len() ==> #[trigger] remove_at(nodes, i)[k]
                == nodes[source_index(i, k)] && 0 <= source_index(i, k) < nodes.len(),
        i matches Some(j) ==> forall|k: int|
            0 <= k < remove_at(nodes, i).len() ==> source_index(i, k) != j,
{
    match i {
        Some(j) => {
            let r = nodes.remove(j);
            assert forall|k: int| 0 <= k < r.len() implies #[trigger] r[k] == nodes[source_index(i, k)] by {
                if k < j {
                    assert(r[k] == nodes[k]);
                } else {
                    assert(r[k] == nodes[k + 1]);
                }
            }
            assert forall|a: int, b: int|
                0 <= a < r.len() && 0 <= b < r.len() && a != b implies r[a].id != r[b].id
                    && r[a].name != r[b].name by {
                assert(r[a] == nodes[source_index(i, a)]);
                assert(r[b] == nodes[source_index(i, b)]);
            }
            assert forall|a: int, k: int|
                0 <= a < r.len() && 0 <= k < r[a].ports.len() implies (#[trigger] r[a].ports[k]).node
                    == r[a].id by {
                assert(r[a] == nodes[source_index(i, a)]);
            }
        },
        None => {},
    }
}

/// Tracking a new endpoint keeps the store's invariant.
pub proof fn lemma_endpoint_created_wf(s: StoreView, cfg: ConfigView, id: u32, name: Seq<char>)
    requires
        s.wf(),
    ensures
        s.after_endpoint_created(cfg, id, name).wf(),
{
    if cfg.is_relevant(name) && !(s.lookup(id) is Some && s.lookup(id).unwrap().name == name) {
        let ii = index_of_id(s.nodes, id);
        lemma_index_of_id(s.nodes, id);
        lemma_remove_node(s.nodes, ii);
        let n1 = remove_at(s.nodes, ii);
        assert forall|k: int| 0 <= k < n1.len() implies n1[k].id != id by {
            assert(n1[k] == s.nodes[source_index(ii, k)]);
        }
        let ni = index_of_name(n1, name);
        lemma_index_of_name(n1, name);
        lemma_remove_node(n1, ni);
        let n2 = remove_at(n1, ni);
        assert forall|k: int| 0 <= k < n2.len() implies n2[k].id != id && n2[k].name != name by {
            assert(n2[k] == n1[source_index(ni, k)]);
        }
        let n3 = n2.push(NodeView { id, name, ports: Seq::empty() });
        assert(n3[n2.len() as int].id == id);
        assert forall|a: int, b: int|
            0 <= a < n3.len() && 0 <= b < n3.len() && a != b implies n3[a].id != n3[b].id
                && n3[a].name != n3[b].name by {
            if a < n2.len() {
                assert(n3[a] == n2[a]);
            }
            if b < n2.len() {
                assert(n3[b] == n2[b]);
            }
        }
        assert forall|a: int, k: int|
            0 <= a < n3.len() && 0 <= k < n3[a].ports.len() implies (#[trigger] n3[a].ports[k]).node
                == n3[a].id by {
            if a < n2.len() {
                assert(n3[a] == n2[a]);
            }
        }
    }
}

/// Purging an id keeps the store's invariant.
pub proof fn lemma_removed_wf(s: StoreView, id: u32)
    requires
        s.wf(),
    ensures
        s.after_removed(id).wf(),
{
    lemma_index_of_id(s.nodes, id);
    lemma_remove_node(s.nodes, index_of_id(s.nodes, id));
    lemma_remove_value(s.created, id);
    lemma_remove_value(s.pending, id);
}

/// Recording a port keeps the store's invariant.
pub proof fn lemma_port_wf(s: StoreView, p: PortView)
    requires
        s.wf(),
    ensures
        s.after_port(p).wf(),
{
    lemma_index_of_id(s.nodes, p.node);
    if s.accepts_port(p) {
        let i = index_of_id(s.nodes, p.node).unwrap();
        let n = s.nodes[i];
        let n2 = NodeView { ports: n.ports.push(p), ..n };
        let r = s.nodes.update(i, n2);
        assert forall|a: int, k: int|
            0 <= a < r.len() && 0 <= k < r[a].ports.len() implies (#[trigger] r[a].ports[k]).node
                == r[a].id by {
            if a == i && k == n.ports.len() {
                assert(r[a].ports[k] == p);
            } else if a == i {
                assert(r[a].ports[k] == n.ports[k]);
            }
        }
    }
}

/// Recording a request in flight, or its confirmation, keeps the store's
/// invariant.
pub proof fn lemma_ledger_wf(s: StoreView, handle: u32, assigned: u32)
    requires
        s.wf(),
    ensures
        s.after_requested(handle).wf(),
        s.after_confirmed(handle, assigned).wf(),
{
    lemma_insert_value(s.pending, handle);
    lemma_remove_value(s.pending, handle);
    lemma_insert_value(s.created, assigned);
}

fn find_value(v: &Vec<u32>, x: u32) -> (r: Option<usize>)
    ensures
        match r {
            Some(i) => index_of_value(v@, x) == Some(i as int),
            None => index_of_value(v@, x) is None,
        },
{
    let mut i: usize = v.len();
    assert(v@.subrange(0, i as int) =~= v@);
    while i > 0
        invariant
            i <= v.len(),
            index_of_value(v@, x) == index_of_value(v@.subrange(0, i as int), x),
        decreases i,
    {
        assert(v@.subrange(0, i as int).drop_last() =~= v@.subrange(0, i - 1));
        if v[i - 1] == x {
            return Some(i - 1);
        }
        i -= 1;
    }
    None
}

fn remove_value_exec(v: &mut Vec<u32>, x: u32)
    ensures
        final(v)@ == remove_value(old(v)@, x),
{
    match find_value(v, x) {
        Some(i) => {
            proof {
                lemma_index_of_value(old(v)@, x);
            }
            v.remove(i);
        },
        None => {},
    }
}

fn insert_value_exec(v: &mut Vec<u32>, x: u32)
    ensures
        final(v)@ == insert_value(old(v)@, x),
{
    if find_value(v, x).is_none() {
        v.push(x);
    }
}

/// The first port on `channel` whose direction is not `dir`.
fn first_match_exec(ports: &Vec<Port>, channel: &String, dir: Direction) -> (r: Option<usize>)
    ensures
        match r {
            Some(k) => k < ports.len() && first_match(ports@.map_values(|p: Port| p@), channel@, dir)
                == Some(ports@[k as int]@),
            None => first_match(ports@.map_values(|p: Port| p@), channel@, dir) is None,
        },
{
    let ghost all = ports@.map_values(|p: Port| p@);
    let mut i: usize = 0;
    assert(all.subrange(0, all.len() as int) =~= all);
    while i < ports.len()
        invariant
            i <= ports.len(),
            all == ports@.map_values(|p: Port| p@),
            first_match(all, channel@, dir) == first_match(all.subrange(i as int, all.len() as int), channel@, dir),
        decreases ports.len() - i,
    {
        let ghost rest = all.subrange(i as int, all.len() as int);
        assert(rest.drop_first() =~= all.subrange(i + 1, all.len() as int));
        assert(rest[0] == ports@[i as int]@);
        if ports[i].channel == *channel && ports[i].direction != dir {
            return Some(i);
        }
        i += 1;
    }
    None
}

impl State {
    /// A store that tracks nothing.
    pub fn new() -> (r: State)
        ensures
            r@.wf(),
            r@.nodes.len() == 0,
            r@.created.len() == 0,
            r@.pending.len() == 0,
    {
        let r = State { nodes: Vec::new(), created_links: Vec::new(), pending_links: Vec::new() };
        assert(r@.nodes =~= Seq::<NodeView>::empty());
        r
    }

    fn find_id(&self, id: u32) -> (r: Option<usize>)
        ensures
            match r {
                Some(i) => index_of_id(self@.nodes, id) == Some(i as int) && i < self@.nodes.len(),
                None => index_of_id(self@.nodes, id) is None,
            },
    {
        let ghost all = self@.nodes;
        let mut i: usize = self.nodes.len();
        assert(all.subrange(0, i as int) =~= all);
        while i > 0
            invariant
                i <= self.nodes.len(),
                all == self@.nodes,
                index_of_id(all, id) == index_of_id(all.subrange(0, i as int), id),
            decreases i,
        {
            assert(all.subrange(0, i as int).drop_last() =~= all.subrange(0, i - 1));
            if self.nodes[i - 1].id == id {
                return Some(i - 1);
            }
            i -= 1;
        }
        None
    }

    fn find_name(&self, name: &String) -> (r: Option<usize>)
        ensures
            match r {
                Some(i) => index_of_name(self@.nodes, name@) == Some(i as int) && i < self@.nodes.len(),
                None => index_of_name(self@.nodes, name@) is None,
            },
    {
        let ghost all = self@.nodes;
        let mut i: usize = self.nodes.len();
        assert(all.subrange(0, i as int) =~= all);
        while i > 0
            invariant
                i <= self.nodes.len(),
                all == self@.nodes,
                index_of_name(all, name@) == index_of_name(all.subrange(0, i as int), name@),
            decreases i,
        {
            assert(all.subrange(0, i as int).drop_last() =~= all.subrange(0, i - 1));
            if self.nodes[i - 1].name == *name {
                return Some(i - 1);
            }
            i -= 1;
        }
        None
    }

    /// The id under which an endpoint of this name is tracked: the name index.
    pub fn node_id_by_name(&self, name: &String) -> (r: Option<u32>)
        ensures
            r == self@.id_by_name(name@),
    {
        match self.find_name(name) {
            Some(i) => Some(self.nodes[i].id),
            None => None,
        }
    }

    /// The name of the endpoint tracked under `id`: the id index.
    pub fn node_name(&self, id: u32) -> (r: Option<String>)
        ensures
            match r {
                Some(n) => self@.lookup(id) is Some && n@ == self@.lookup(id).unwrap().name,
                None => self@.lookup(id) is None,
            },
    {
        match self.find_id(id) {
            Some(i) => Some(self.nodes[i].name.clone()),
            None => None,
        }
    }

    /// How many ports are recorded on the endpoint tracked under `id`.
    pub fn port_count(&self, id: u32) -> (r: Option<usize>)
        ensures
            match r {
                Some(n) => self@.lookup(id) is Some && n == self@.lookup(id).unwrap().ports.len(),
                None => self@.lookup(id) is None,
            },
    {
        match self.find_id(id) {
            Some(i) => Some(self.nodes[i].ports.len()),
            None => None,
        }
    }

    /// How many endpoints are tracked.
    pub fn node_count(&self) -> (r: usize)
        ensures
            r == self@.nodes.len(),
    {
        self.nodes.len()
    }

    /// Whether `id` is confirmed as a connection the engine created.
    pub fn is_created(&self, id: u32) -> (r: bool)
        ensures
            r == self@.is_created(id),
    {
        proof {
            lemma_index_of_value(self@.created, id);
        }
        find_value(&self.created_links, id).is_some()
    }

    /// Whether a request under handle `id` is still in flight.
    pub fn is_pending(&self, id: u32) -> (r: bool)
        ensures
            r == self@.is_pending(id),
    {
        proof {
            lemma_index_of_value(self@.pending, id);
        }
        find_value(&self.pending_links, id).is_some()
    }

    /// The connections confirmed as created by the engine.
    pub fn created_links(&self) -> (r: Vec<u32>)
        ensures
            r@ == self@.created,
    {
        let mut r: Vec<u32> = Vec::new();
        let mut i: usize = 0;
        while i < self.created_links.len()
            invariant
                i <= self.created_links.len(),
                r@ == self.created_links@.subrange(0, i as int),
            decreases self.created_links.len() - i,
        {
            r.push(self.created_links[i]);
            i += 1;
            assert(r@ =~= self.created_links@.subrange(0, i as int));
        }
        assert(r@ =~= self.created_links@);
        r
    }

    /// An object was removed from the graph: every reference to its id goes,
    /// the tracked endpoint with its ports and its name, and the id in the
    /// ledgers of requests and created connections.
    pub fn on_delete(&mut self, id: u32)
        requires
            old(self)@.wf(),
        ensures
            final(self)@ == old(self)@.after_removed(id),
            final(self)@.wf(),
    {
        proof {
            lemma_removed_wf(old(self)@, id);
        }
        match self.find_id(id) {
            Some(i) => {
                self.nodes.remove(i);
            },
            None => {},
        }
        remove_value_exec(&mut self.created_links, id);
        remove_value_exec(&mut self.pending_links, id);
        assert(self@.nodes =~= old(self)@.after_removed(id).nodes);
    }

    /// An endpoint appeared: it is tracked, with no ports yet, when a rule
    /// names it.
    pub fn on_new_node(&mut self, name: String, id: u32, cfg: &ConfigCache)
        requires
            old(self)@.wf(),
        ensures
            final(self)@ == old(self)@.after_endpoint_created(cfg@, id, name@),
            final(self)@.wf(),
    {
        proof {
            lemma_endpoint_created_wf(old(self)@, cfg@, id, name@);
        }
        if !cfg.is_relevant(&name) {
            return;
        }
        let found = self.find_id(id);
        match found {
            Some(i) => {
                if self.nodes[i].name == name {
                    return;
                }
                self.nodes.remove(i);
            },
            None => {},
        }
        let ghost without_id = self@.nodes;
        assert(without_id =~= remove_at(old(self)@.nodes, index_of_id(old(self)@.nodes, id)));
        match self.find_name(&name) {
            Some(j) => {
                self.nodes.remove(j);
            },
            None => {},
        }
        let ghost without_name = self@.nodes;
        assert(without_name =~= remove_at(without_id, index_of_name(without_id, name@)));
        let ghost nv = name@;
        let fresh = NodeData { name, id, ports: Vec::new() };
        assert(fresh@.ports =~= Seq::<PortView>::empty());
        assert(fresh@ == NodeView { id, name: nv, ports: Seq::empty() });
        self.nodes.push(fresh);
        assert(self@.nodes =~= old(self)@.after_endpoint_created(cfg@, id, name@).nodes);
    }

    /// A port appeared. It is recorded on its parent when the parent is
    /// tracked and holds no port of that id yet; the result is the connection
    /// the port completes under the rules, to be requested by the caller.
    pub fn on_new_port(&mut self, port: Port, cfg: &ConfigCache) -> (r: Option<LinkRequest>)
        requires
            old(self)@.wf(),
        ensures
            r == old(self)@.link_for(cfg@, port@),
            final(self)@ == old(self)@.after_port(port@),
            final(self)@.wf(),
    {
        proof {
            lemma_port_wf(old(self)@, port@);
        }
        let parent = match self.find_id(port.node) {
            Some(i) => i,
            None => return None,
        };
        let ghost pv = self@.nodes[parent as int];
        assert(self.nodes@[parent as int]@ == pv);
        let mut k: usize = 0;
        while k < self.nodes[parent].ports.len()
            invariant
                parent < self.nodes.len(),
                self@ == old(self)@,
                pv == self@.nodes[parent as int],
                index_of_id(old(self)@.nodes, port.node) == Some(parent as int),
                old(self)@.wf(),
                k <= pv.ports.len(),
                forall|m: int| 0 <= m < k ==> pv.ports[m].id != port.id,
            decreases pv.ports.len() - k,
        {
            assert(pv.ports[k as int] == self.nodes[parent as int].ports@[k as int]@);
            if self.nodes[parent].ports[k].id == port.id {
                assert(pv.ports[k as int].id == port.id);
                assert(has_port(pv.ports, port.id));
                assert(!old(self)@.accepts_port(port@));
                assert(self@.wf());
                return None;
            }
            k += 1;
        }
        let link = match cfg.connect_rule(&self.nodes[parent].name) {
            None => None,
            Some(rule) => {
                if port.direction == rule.partner_dir {
                    None
                } else {
                    match self.find_name(&rule.partner) {
                        None => None,
                        Some(o) => {
                            assert(self.nodes@[o as int]@ == self@.nodes[o as int]);
                            match first_match_exec(&self.nodes[o].ports, &port.channel, port.direction) {
                                None => None,
                                Some(q) => {
                                    let other = &self.nodes[o].ports[q];
                                    assert(other@ == self.nodes@[o as int].ports@[q as int]@);
                                    if port.direction == Direction::IN {
                                        Some(LinkRequest {
                                            output_port: other.id,
                                            input_port: port.id,
                                            output_node: other.node,
                                            input_node: port.node,
                                        })
                                    } else {
                                        Some(LinkRequest {
                                            output_port: port.id,
                                            input_port: other.id,
                                            output_node: port.node,
                                            input_node: other.node,
                                        })
                                    }
                                },
                            }
                        },
                    }
                }
            },
        };
        let ghost portv = port@;
        let ghost before = self.nodes@;
        let mut node = self.nodes.remove(parent);
        node.ports.push(port);
        assert(node@.ports =~= pv.ports.push(portv));
        assert(node@ == NodeView { ports: pv.ports.push(portv), ..pv });
        self.nodes.insert(parent, node);
        assert(self.nodes@ =~= before.update(parent as int, node));
        assert(self@.nodes =~= old(self)@.after_port(port@).nodes);
        link
    }

    /// A connection appeared: which of the deletion rules call for its
    /// destruction. Those the engine created itself are left alone.
    pub fn on_new_link(&self, node_in: u32, node_out: u32, id: u32, cfg: &ConfigCache) -> (r: Teardown)
        ensures
            r == self@.teardown_for(cfg@, node_in, node_out, id),
    {
        if self.is_created(id) || self.is_pending(id) {
            return Teardown { inbound: false, outbound: false };
        }
        let inbound = match self.find_id(node_in) {
            Some(i) => cfg.deletes_inbound(&self.nodes[i].name),
            None => false,
        };
        let outbound = match self.find_id(node_out) {
            Some(i) => cfg.deletes_outbound(&self.nodes[i].name),
            None => false,
        };
        Teardown { inbound, outbound }
    }

    /// A connection request went out under `handle` and awaits confirmation.
    pub fn record_pending(&mut self, handle: u32)
        requires
            old(self)@.wf(),
        ensures
            final(self)@ == old(self)@.after_requested(handle),
            final(self)@.wf(),
    {
        proof {
            lemma_ledger_wf(old(self)@, handle, handle);
        }
        insert_value_exec(&mut self.pending_links, handle);
    }

    /// The request under `handle` was confirmed as object `assigned`: it
    /// leaves the requests in flight and joins the created connections.
    pub fn on_link_confirmed(&mut self, handle: u32, assigned: u32)
        requires
            old(self)@.wf(),
        ensures
            final(self)@ == old(self)@.after_confirmed(handle, assigned),
            final(self)@.wf(),
    {
        proof {
            lemma_ledger_wf(old(self)@, handle, assigned);
        }
        remove_value_exec(&mut self.pending_links, handle);
        insert_value_exec(&mut self.created_links, assigned);
    }
}

} // verus!
