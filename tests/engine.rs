use autolink::config::{build_config, ConfigCache, Direction};
use autolink::engine::{dispatch, Action, Event};
use autolink::store::{LinkRequest, Port, State, Teardown};

fn s(x: &str) -> String {
    x.to_string()
}

fn connect_config(output: &str, input: &str) -> ConfigCache {
    build_config(vec![(s(output), s(input))], vec![], vec![])
}

fn port(id: u32, node: u32, channel: &str, direction: Direction) -> Event {
    Event::PortCreated { port: Port { id, node, channel: s(channel), direction } }
}

fn endpoint(id: u32, name: &str) -> Event {
    Event::EndpointCreated { id, name: s(name) }
}

fn link(id: u32, output_node: u32, input_node: u32) -> Event {
    Event::ConnectionCreated { id, output_port: 0, input_port: 0, output_node, input_node }
}

#[test]
fn scenario_connect_one_channel() {
    let cfg = connect_config("A", "B");
    let mut st = State::new();
    assert!(dispatch(&mut st, &cfg, endpoint(1, "A")).is_empty());
    assert!(dispatch(&mut st, &cfg, endpoint(2, "B")).is_empty());
    assert!(dispatch(&mut st, &cfg, port(10, 1, "FL", Direction::OUT)).is_empty());
    let r = dispatch(&mut st, &cfg, port(20, 2, "FL", Direction::IN));
    assert_eq!(
        r,
        vec![Action::Connect(LinkRequest { output_port: 10, input_port: 20, output_node: 1, input_node: 2 })]
    );
    st.record_pending(30);
    assert!(st.is_pending(30));
    // the service announces the new connection before the engine hears it confirmed
    assert!(dispatch(&mut st, &cfg, link(30, 1, 2)).is_empty());
    assert!(dispatch(&mut st, &cfg, Event::ConnectionConfirmed { handle: 30, assigned: 30 }).is_empty());
    assert_eq!(st.created_links(), vec![30]);
    assert!(!st.is_pending(30));
}

#[test]
fn scenario_delete_inbound() {
    let cfg = build_config(vec![], vec![s("X")], vec![]);
    let mut st = State::new();
    dispatch(&mut st, &cfg, endpoint(5, "X"));
    let r = dispatch(&mut st, &cfg, link(40, 7, 5));
    assert_eq!(r, vec![Action::Destroy(40)]);
}

#[test]
fn scenario_port_after_endpoint_removed() {
    let cfg = connect_config("A", "B");
    let mut st = State::new();
    dispatch(&mut st, &cfg, endpoint(2, "B"));
    dispatch(&mut st, &cfg, Event::EndpointRemoved { id: 2 });
    assert_eq!(st.node_count(), 0);
    assert!(dispatch(&mut st, &cfg, port(21, 2, "FR", Direction::IN)).is_empty());
    assert_eq!(st.node_count(), 0);
    assert_eq!(st.port_count(2), None);
    assert_eq!(st.node_id_by_name(&s("B")), None);
}

#[test]
fn replayed_discovery_requests_once() {
    let cfg = connect_config("A", "B");
    let mut st = State::new();
    let mut requests = 0;
    for _ in 0..3 {
        for ev in [
            endpoint(1, "A"),
            endpoint(2, "B"),
            port(10, 1, "FL", Direction::OUT),
            port(20, 2, "FL", Direction::IN),
        ] {
            requests += dispatch(&mut st, &cfg, ev).len();
        }
    }
    assert_eq!(requests, 1);
    assert_eq!(st.port_count(1), Some(1));
    assert_eq!(st.port_count(2), Some(1));
}

#[test]
fn wrong_direction_port_is_not_linked() {
    let cfg = connect_config("A", "B");
    let mut st = State::new();
    dispatch(&mut st, &cfg, endpoint(1, "A"));
    dispatch(&mut st, &cfg, endpoint(2, "B"));
    dispatch(&mut st, &cfg, port(20, 2, "FL", Direction::OUT));
    // an input on the output endpoint contradicts its role
    assert!(dispatch(&mut st, &cfg, port(10, 1, "FL", Direction::IN)).is_empty());
    assert_eq!(st.port_count(1), Some(1));
}

#[test]
fn orphan_port_never_matches_later() {
    let cfg = connect_config("A", "B");
    let mut st = State::new();
    dispatch(&mut st, &cfg, endpoint(2, "B"));
    assert!(dispatch(&mut st, &cfg, port(10, 1, "FL", Direction::OUT)).is_empty());
    dispatch(&mut st, &cfg, endpoint(1, "A"));
    assert_eq!(st.port_count(1), Some(0));
    assert!(dispatch(&mut st, &cfg, port(20, 2, "FL", Direction::IN)).is_empty());
}

#[test]
fn removal_clears_name_index() {
    let cfg = connect_config("A", "B");
    let mut st = State::new();
    dispatch(&mut st, &cfg, endpoint(1, "A"));
    assert_eq!(st.node_id_by_name(&s("A")), Some(1));
    assert_eq!(st.node_name(1), Some(s("A")));
    dispatch(&mut st, &cfg, Event::EndpointRemoved { id: 1 });
    assert_eq!(st.node_id_by_name(&s("A")), None);
    assert_eq!(st.node_name(1), None);
}

#[test]
fn own_connections_are_not_destroyed() {
    let cfg = build_config(vec![(s("A"), s("B"))], vec![s("B")], vec![s("A")]);
    let mut st = State::new();
    dispatch(&mut st, &cfg, endpoint(1, "A"));
    dispatch(&mut st, &cfg, endpoint(2, "B"));
    st.record_pending(50);
    dispatch(&mut st, &cfg, Event::ConnectionConfirmed { handle: 50, assigned: 50 });
    assert!(st.is_created(50));
    assert!(dispatch(&mut st, &cfg, link(50, 1, 2)).is_empty());
    assert_eq!(st.on_new_link(2, 1, 50, &cfg), Teardown { inbound: false, outbound: false });
    // a foreign connection between the same endpoints is flagged on both sides
    assert_eq!(dispatch(&mut st, &cfg, link(51, 1, 2)), vec![Action::Destroy(51), Action::Destroy(51)]);
}

#[test]
fn delete_outbound_flags_output_side() {
    let cfg = build_config(vec![], vec![], vec![s("Y")]);
    let mut st = State::new();
    dispatch(&mut st, &cfg, endpoint(3, "Y"));
    assert_eq!(st.on_new_link(9, 3, 60, &cfg), Teardown { inbound: false, outbound: true });
    assert_eq!(st.on_new_link(3, 9, 61, &cfg), Teardown { inbound: false, outbound: false });
    assert!(dispatch(&mut st, &cfg, link(62, 9, 3)).is_empty());
}

#[test]
fn unrelated_endpoint_is_ignored() {
    let cfg = connect_config("A", "B");
    let mut st = State::new();
    dispatch(&mut st, &cfg, endpoint(7, "Z"));
    assert_eq!(st.node_count(), 0);
    assert_eq!(st.node_id_by_name(&s("Z")), None);
}

#[test]
fn first_port_by_insertion_wins() {
    let cfg = connect_config("A", "B");
    let mut st = State::new();
    dispatch(&mut st, &cfg, endpoint(1, "A"));
    dispatch(&mut st, &cfg, endpoint(2, "B"));
    dispatch(&mut st, &cfg, port(20, 2, "FL", Direction::IN));
    dispatch(&mut st, &cfg, port(21, 2, "FL", Direction::IN));
    dispatch(&mut st, &cfg, port(22, 2, "FR", Direction::IN));
    let r = dispatch(&mut st, &cfg, port(10, 1, "FL", Direction::OUT));
    assert_eq!(
        r,
        vec![Action::Connect(LinkRequest { output_port: 10, input_port: 20, output_node: 1, input_node: 2 })]
    );
    let r = dispatch(&mut st, &cfg, port(11, 1, "FR", Direction::OUT));
    assert_eq!(
        r,
        vec![Action::Connect(LinkRequest { output_port: 11, input_port: 22, output_node: 1, input_node: 2 })]
    );
    assert!(dispatch(&mut st, &cfg, port(12, 1, "RL", Direction::OUT)).is_empty());
}

#[test]
fn partner_not_yet_tracked_waits() {
    let cfg = connect_config("A", "B");
    let mut st = State::new();
    dispatch(&mut st, &cfg, endpoint(1, "A"));
    assert!(dispatch(&mut st, &cfg, port(10, 1, "FL", Direction::OUT)).is_empty());
    dispatch(&mut st, &cfg, endpoint(2, "B"));
    let r = dispatch(&mut st, &cfg, port(20, 2, "FL", Direction::IN));
    assert_eq!(
        r,
        vec![Action::Connect(LinkRequest { output_port: 10, input_port: 20, output_node: 1, input_node: 2 })]
    );
}

#[test]
fn same_name_new_id_replaces_endpoint() {
    let cfg = connect_config("A", "B");
    let mut st = State::new();
    dispatch(&mut st, &cfg, endpoint(1, "A"));
    dispatch(&mut st, &cfg, port(10, 1, "FL", Direction::OUT));
    dispatch(&mut st, &cfg, endpoint(4, "A"));
    assert_eq!(st.node_id_by_name(&s("A")), Some(4));
    assert_eq!(st.node_name(1), None);
    assert_eq!(st.node_count(), 1);
}

#[test]
fn connection_removed_purges_created() {
    let cfg = connect_config("A", "B");
    let mut st = State::new();
    st.record_pending(30);
    dispatch(&mut st, &cfg, Event::ConnectionConfirmed { handle: 30, assigned: 30 });
    assert!(st.is_created(30));
    dispatch(&mut st, &cfg, Event::ConnectionRemoved { id: 30 });
    assert!(!st.is_created(30));
    assert!(st.created_links().is_empty());
}

#[test]
fn config_building() {
    let cfg = build_config(vec![(s("A"), s("B"))], vec![s("X")], vec![s("Y")]);
    assert!(!cfg.is_empty());
    let a = cfg.connect_rule(&s("A")).unwrap();
    assert_eq!(a.partner, s("B"));
    assert_eq!(a.partner_dir, Direction::IN);
    let b = cfg.connect_rule(&s("B")).unwrap();
    assert_eq!(b.partner, s("A"));
    assert_eq!(b.partner_dir, Direction::OUT);
    assert!(cfg.is_relevant(&s("X")));
    assert!(cfg.is_relevant(&s("Y")));
    assert!(!cfg.is_relevant(&s("Z")));
    assert!(cfg.deletes_inbound(&s("X")));
    assert!(!cfg.deletes_inbound(&s("Y")));
    assert!(cfg.deletes_outbound(&s("Y")));
    assert!(build_config(vec![], vec![], vec![]).is_empty());
    assert!(ConfigCache::new().is_empty());
}

#[test]
fn later_connect_pair_overrides() {
    let mut cfg = ConfigCache::new();
    cfg.add_connect(s("A"), s("B"));
    cfg.add_connect(s("A"), s("C"));
    assert_eq!(cfg.connect_rule(&s("A")).unwrap().partner, s("C"));
    assert_eq!(cfg.connect_rule(&s("B")).unwrap().partner, s("A"));
    cfg.add_delete_in(s("D"));
    cfg.add_delete_out(s("E"));
    assert!(cfg.deletes_inbound(&s("D")));
    assert!(cfg.deletes_outbound(&s("E")));
}

#[test]
fn port_direction_property() {
    assert_eq!(Direction::from_port_direction("in"), Direction::IN);
    assert_eq!(Direction::from_port_direction("out"), Direction::OUT);
    assert_eq!(Direction::from_port_direction(""), Direction::OUT);
    assert_eq!(Direction::from_port_direction("input"), Direction::OUT);
}
