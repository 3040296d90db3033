use vstd::prelude::*;
use crate::config::{ConfigView, RuleView, rule_for};
use crate::engine::{Action, EventView, step, step_actions};
use crate::store::{
    PortView, StoreView, Teardown, has_port, index_of_id, index_of_name, lemma_endpoint_created_wf,
    lemma_index_of_id, lemma_index_of_name, lemma_ledger_wf, lemma_port_wf, lemma_remove_node,
    lemma_removed_wf, lemma_unique_index, source_index,
};

verus! {

/// The name index and the id index agree: a name resolves to an id exactly
/// when that id resolves to an endpoint of that name.
pub proof fn lemma_indexes_agree(s: StoreView, name: Seq<char>, id: u32)
    requires
        s.wf(),
    ensures
        s.id_by_name(name) == Some(id) <==> (s.lookup(id) is Some && s.lookup(id).unwrap().name == name),
{
    lemma_index_of_name(s.nodes, name);
    lemma_index_of_id(s.nodes, id);
    if let Some(i) = index_of_name(s.nodes, name) {
        lemma_unique_index(s, i);
    }
    if let Some(j) = index_of_id(s.nodes, id) {
        lemma_unique_index(s, j);
    }
}

/// Every event keeps the store's invariant.
pub proof fn lemma_step_keeps_invariant(s: StoreView, cfg: ConfigView, ev: EventView)
    requires
        s.wf(),
    ensures
        step(s, cfg, ev).wf(),
{
    match ev {
        EventView::EndpointCreated { id, name } => lemma_endpoint_created_wf(s, cfg, id, name),
        EventView::EndpointRemoved { id } => lemma_removed_wf(s, id),
        EventView::PortCreated { port } => lemma_port_wf(s, port),
        EventView::ConnectionCreated { .. } => {},
        EventView::ConnectionRemoved { id } => lemma_removed_wf(s, id),
        EventView::ConnectionConfirmed { handle, assigned } => lemma_ledger_wf(s, handle, assigned),
    }
}

/// Replaying a discovery notification (an endpoint or a port appearing) with
/// the same ids changes nothing and asks for nothing: each connection is
/// requested once, however often its discovery is delivered.
pub proof fn lemma_discovery_replay(s: StoreView, cfg: ConfigView, ev: EventView)
    requires
        s.wf(),
        ev is EndpointCreated || ev is PortCreated,
    ensures
        step(step(s, cfg, ev), cfg, ev) == step(s, cfg, ev),
        step_actions(step(s, cfg, ev), cfg, ev) == Seq::<Action>::empty(),
{
    let s1 = step(s, cfg, ev);
    match ev {
        EventView::EndpointCreated { id, name } => {
            assert(step_actions(s1, cfg, ev) =~= Seq::<Action>::empty());
        },
        EventView::PortCreated { port } => {
            lemma_port_wf(s, port);
            if s.accepts_port(port) {
                let i = index_of_id(s.nodes, port.node).unwrap();
                lemma_index_of_id(s.nodes, port.node);
                lemma_unique_index(s1, i);
                let ports = s1.nodes[i].ports;
                assert(ports[ports.len() - 1] == port);
                assert(has_port(ports, port.id));
            }
            assert(!s1.accepts_port(port));
            assert(step_actions(s1, cfg, ev) =~= Seq::<Action>::empty());
        },
        _ => {},
    }
}

/// A port on the side that contradicts the role its endpoint plays under its
/// connect rule never produces a connection request.
pub proof fn lemma_direction_guard(s: StoreView, cfg: ConfigView, p: PortView, rule: RuleView)
    requires
        s.lookup(p.node) is Some,
        rule_for(cfg.connect, s.lookup(p.node).unwrap().name) == Some(rule),
        p.direction == rule.partner_dir,
    ensures
        s.link_for(cfg, p) is None,
{
}

/// A port whose endpoint is not tracked is dropped without a trace, and the
/// endpoint, once tracked later, starts with no ports: the dropped port never
/// matches afterwards.
pub proof fn lemma_orphan_port(s: StoreView, cfg: ConfigView, p: PortView, name: Seq<char>)
    requires
        s.lookup(p.node) is None,
    ensures
        s.after_port(p) == s,
        s.link_for(cfg, p) is None,
        s.after_endpoint_created(cfg, p.node, name).lookup(p.node) matches Some(n) ==> n.ports.len()
            == 0,
{
}

/// After an endpoint is removed, neither its id nor its name resolves, and a
/// port that names it as parent is dropped as an orphan.
pub proof fn lemma_cleanup_on_removal(s: StoreView, cfg: ConfigView, id: u32, p: PortView)
    requires
        s.wf(),
        p.node == id,
    ensures
        s.after_removed(id).lookup(id) is None,
        s.lookup(id) matches Some(n) ==> s.after_removed(id).id_by_name(n.name) is None,
        s.after_removed(id).after_port(p) == s.after_removed(id),
        s.after_removed(id).link_for(cfg, p) is None,
{
    let s1 = s.after_removed(id);
    let ii = index_of_id(s.nodes, id);
    lemma_index_of_id(s.nodes, id);
    lemma_remove_node(s.nodes, ii);
    assert forall|k: int| 0 <= k < s1.nodes.len() implies s1.nodes[k].id != id by {
        assert(s1.nodes[k] == s.nodes[source_index(ii, k)]);
    }
    lemma_index_of_id(s1.nodes, id);
    if let Some(i) = ii {
        let n = s.nodes[i];
        assert forall|k: int| 0 <= k < s1.nodes.len() implies s1.nodes[k].name != n.name by {
            assert(s1.nodes[k] == s.nodes[source_index(ii, k)]);
        }
        lemma_index_of_name(s1.nodes, n.name);
    }
}

/// A connection the engine created itself is never destroyed by the deletion
/// rules.
pub proof fn lemma_own_links_kept(
    s: StoreView,
    cfg: ConfigView,
    id: u32,
    output_port: u32,
    input_port: u32,
    output_node: u32,
    input_node: u32,
)
    requires
        s.is_created(id),
    ensures
        s.teardown_for(cfg, input_node, output_node, id) == (Teardown { inbound: false, outbound: false }),
        step_actions(
            s,
            cfg,
            EventView::ConnectionCreated { id, output_port, input_port, output_node, input_node },
        ) == Seq::<Action>::empty(),
{
    assert(step_actions(
        s,
        cfg,
        EventView::ConnectionCreated { id, output_port, input_port, output_node, input_node },
    ) =~= Seq::<Action>::empty());
}

} // verus!
