use vstd::prelude::*;
use crate::config::{ConfigCache, ConfigView};
use crate::store::{LinkRequest, Port, PortView, State, StoreView};

verus! {

/// A lifecycle notification from the graph service.
pub enum Event {
    EndpointCreated { id: u32, name: String },
    EndpointRemoved { id: u32 },
    PortCreated { port: Port },
    ConnectionCreated { id: u32, output_port: u32, input_port: u32, output_node: u32, input_node: u32 },
    ConnectionRemoved { id: u32 },
    /// The request issued under `handle` now stands as object `assigned`.
    ConnectionConfirmed { handle: u32, assigned: u32 },
}

pub enum EventView {
    EndpointCreated { id: u32, name: Seq<char> },
    EndpointRemoved { id: u32 },
    PortCreated { port: PortView },
    ConnectionCreated { id: u32, output_port: u32, input_port: u32, output_node: u32, input_node: u32 },
    ConnectionRemoved { id: u32 },
    ConnectionConfirmed { handle: u32, assigned: u32 },
}

impl View for Event {
    type V = EventView;

    open spec fn view(&self) -> EventView {
        match self {
            Event::EndpointCreated { id, name } => EventView::EndpointCreated { id: *id, name: name@ },
            Event::EndpointRemoved { id } => EventView::EndpointRemoved { id: *id },
            Event::PortCreated { port } => EventView::PortCreated { port: port@ },
            Event::ConnectionCreated { id, output_port, input_port, output_node, input_node } =>
                EventView::ConnectionCreated {
                id: *id,
                output_port: *output_port,
                input_port: *input_port,
                output_node: *output_node,
                input_node: *input_node,
            },
            Event::ConnectionRemoved { id } => EventView::ConnectionRemoved { id: *id },
            Event::ConnectionConfirmed { handle, assigned } => EventView::ConnectionConfirmed {
                handle: *handle,
                assigned: *assigned,
            },
        }
    }
}

/// What the caller is to do on the graph service.
#[derive(Debug, Clone, Copy, PartialEq, Eq, Structural)]
pub enum Action {
    /// Request this connection, then report its handle with `record_pending`.
    Connect(LinkRequest),
    /// Request the destruction of this object.
    Destroy(u32),
}

/// The store after an event.
pub open spec fn step(s: StoreView, cfg: ConfigView, ev: EventView) -> StoreView {
    match ev {
        EventView::EndpointCreated { id, name } => s.after_endpoint_created(cfg, id, name),
        EventView::EndpointRemoved { id } => s.after_removed(id),
        EventView::PortCreated { port } => s.after_port(port),
        EventView::ConnectionCreated { .. } => s,
        EventView::ConnectionRemoved { id } => s.after_removed(id),
        EventView::ConnectionConfirmed { handle, assigned } => s.after_confirmed(handle, assigned),
    }
}

/// The actions an event calls for: a connection request when a port
/// completes a rule, and one destruction for each side of a foreign
/// connection that a deletion rule flags, input side first.
pub open spec fn step_actions(s: StoreView, cfg: ConfigView, ev: EventView) -> Seq<Action> {
    match ev {
        EventView::PortCreated { port } => match s.link_for(cfg, port) {
            Some(l) => seq![Action::Connect(l)],
            None => seq![],
        },
        EventView::ConnectionCreated { id, output_node, input_node, .. } => {
            let t = s.teardown_for(cfg, input_node, output_node, id);
            (if t.inbound {
                seq![Action::Destroy(id)]
            } else {
                seq![]
            }) + (if t.outbound {
                seq![Action::Destroy(id)]
            } else {
                seq![]
            })
        },
        _ => seq![],
    }
}

/// Routes one notification: updates the store and returns what to do.
pub fn dispatch(state: &mut State, cfg: &ConfigCache, ev: Event) -> (r: Vec<Action>)
    requires
        old(state)@.wf(),
    ensures
        final(state)@ == step(old(state)@, cfg@, ev@),
        r@ == step_actions(old(state)@, cfg@, ev@),
        final(state)@.wf(),
{
    let mut r: Vec<Action> = Vec::new();
    match ev {
        Event::EndpointCreated { id, name } => {
            state.on_new_node(name, id, cfg);
        },
        Event::EndpointRemoved { id } => {
            state.on_delete(id);
        },
        Event::PortCreated { port } => {
            if let Some(l) = state.on_new_port(port, cfg) {
                r.push(Action::Connect(l));
            }
        },
        Event::ConnectionCreated { id, output_node, input_node, .. } => {
            let t = state.on_new_link(input_node, output_node, id, cfg);
            if t.inbound {
                r.push(Action::Destroy(id));
            }
            if t.outbound {
                r.push(Action::Destroy(id));
            }
        },
        Event::ConnectionRemoved { id } => {
            state.on_delete(id);
        },
        Event::ConnectionConfirmed { handle, assigned } => {
            state.on_link_confirmed(handle, assigned);
        },
    }
    assert(r@ =~= step_actions(old(state)@, cfg@, ev@));
    r
}

} // verus!
