use sim_controller::controller::log_default;
use sim_controller::controller::set_logger;
use sim_controller::controller::DroneEndpoint;
use sim_controller::controller::DroneCmd;
use sim_controller::controller::SimulationController;
use sim_controller::bridge::bridge_step;
use sim_controller::bridge::handle_drone_event;
use sim_controller::bridge::handle_node_event;
use sim_controller::bridge::handle_registered_clients;
use sim_controller::bridge::BridgeInput;
use sim_controller::bridge::BridgeStep;
use sim_controller::bridge::ChatEvent;
use sim_controller::bridge::DroneEvent;
use sim_controller::bridge::MediaFileData;
use sim_controller::bridge::NodeEventAction;
use sim_controller::bridge::NodeSourceEvent;
use sim_controller::bridge::WebEvent;
use sim_controller::channels::SendOutcome;
use sim_controller::controller::CommsEndpoint;
use sim_controller::controller::NodeCmd;
use sim_controller::controller::NodeEndpoint;
use sim_controller::controller::NodeRole;
use sim_controller::controller::Packet;
use sim_controller::dispatch::add_link;
use sim_controller::dispatch::crash;
use sim_controller::dispatch::deliver_shortcut;
use sim_controller::dispatch::remove_link;
use sim_controller::dispatch::send_command;
use sim_controller::dispatch::set_drop_rate;
use sim_controller::dispatch::shutdown;
use sim_controller::text::drone_rate_text;
use sim_controller::ControllerError;
use sim_controller::graph::generate_generic_network_view;
use sim_controller::graph::NodeKind;
use sim_controller::graph::RawNode;
use sim_controller::graph::TopologyGraph;
use sim_controller::layout::compute_layout;
use sim_controller::logging::format_log_line;
use sim_controller::logging::Logger;
use sim_controller::logging::Rgb;
use sim_controller::logging::TimeParts;
use sim_controller::text::fmt_u64;
use sim_controller::text::parse_node_id;
use sim_controller::text::parse_percent;
use sim_controller::validation::can_remove_drone;
use sim_controller::validation::can_remove_sender_drone;

fn raw(id: u8, kind: NodeKind, adj: Vec<u8>) -> RawNode {
    RawNode { id, kind, adj }
}

fn ring_graph() -> TopologyGraph {
    let nodes = vec![
        raw(0, NodeKind::Drone, vec![1, 3]),
        raw(1, NodeKind::Drone, vec![2]),
        raw(2, NodeKind::Drone, vec![3]),
        raw(3, NodeKind::Drone, vec![]),
    ];
    generate_generic_network_view(&nodes, &vec![0, 1, 2, 3], &vec![], &vec![])
}

fn empty_controller(graph: TopologyGraph) -> SimulationController {
    SimulationController {
        running: false,
        graph,
        clients: Vec::new(),
        servers: Vec::new(),
        drones: Vec::new(),
        comms: Vec::new(),
        logger: None,
    }
}

#[test]
fn layout_of_empty_graph_is_empty() {
    let g = TopologyGraph::new();
    let l = compute_layout(&g);
    assert_eq!(l.slots.len(), 0);
    assert_eq!(l.edges.len(), 0);
}

#[test]
fn layout_is_deterministic() {
    let g = ring_graph();
    let l1 = compute_layout(&g);
    let l2 = compute_layout(&g);
    assert_eq!(l1.slots, l2.slots);
    assert_eq!(l1.edges, l2.edges);
}

#[test]
fn layout_four_nodes_on_circle() {
    let g = ring_graph();
    let l = compute_layout(&g);
    assert_eq!(l.slots.len(), 4);
    for (i, slot) in l.slots.iter().enumerate() {
        assert_eq!(slot.id as usize, i);
        assert_eq!(slot.index, i);
    }
    let n = l.slots.len() as f64;
    let d = ((624.0 * std::f64::consts::PI) / (n + 2.0 * std::f64::consts::PI)) / 1.5;
    let r = 324.0 - d;
    assert!((d - 127.1).abs() < 0.1);
    assert!((r - 196.9).abs() < 0.1);
    let theta0 = 2.0 * std::f64::consts::PI * (l.slots[0].index as f64) / n;
    let x0 = 324.0 + r * theta0.cos();
    let y0 = 324.0 + r * theta0.sin();
    assert!((x0 - (324.0 + 196.9)).abs() < 0.1);
    assert!((y0 - 324.0).abs() < 0.1);
    let theta2 = 2.0 * std::f64::consts::PI * (l.slots[2].index as f64) / n;
    let x2 = 324.0 + r * theta2.cos();
    assert!((x2 - (324.0 - 196.9)).abs() < 0.1);
}

#[test]
fn generated_adjacency_is_symmetric() {
    let g = ring_graph();
    assert!(g.adjacent(0, 1));
    assert!(g.adjacent(1, 0));
    assert!(g.adjacent(2, 3));
    assert!(g.adjacent(3, 2));
    assert!(!g.adjacent(0, 2));
}

#[test]
fn unknown_neighbor_gets_unknown_kind() {
    let nodes = vec![raw(1, NodeKind::Client, vec![9])];
    let g = generate_generic_network_view(&nodes, &vec![], &vec![1], &vec![]);
    assert_eq!(g.kind_lookup(9), Some(NodeKind::Unknown));
    assert_eq!(g.kind_lookup(1), Some(NodeKind::Client));
    assert!(g.adjacent(9, 1));
}

struct DroneHarness {
    cmd_rx: crossbeam::channel::Receiver<DroneCmd>,
    pkt_rx: crossbeam::channel::Receiver<Packet>,
}

/// Registers a drone endpoint and a transport endpoint for `id`, keeping
/// the receiving sides for assertions.
fn install_drone(sc: &mut SimulationController, id: u8, rate: u16) -> DroneHarness {
    let (cmd_tx, cmd_rx) = crossbeam::channel::unbounded::<DroneCmd>();
    let (pkt_tx, pkt_rx) = crossbeam::channel::unbounded::<Packet>();
    sc.drones.push(DroneEndpoint { id, rate_hundredths: rate, sender: cmd_tx });
    sc.comms.push(CommsEndpoint { id, sender: pkt_tx });
    DroneHarness { cmd_rx, pkt_rx }
}

struct NodeHarness {
    cmd_rx: crossbeam::channel::Receiver<NodeCmd>,
    pkt_rx: crossbeam::channel::Receiver<Packet>,
}

/// Registers a client or server endpoint and a transport endpoint.
fn install_node(sc: &mut SimulationController, id: u8, role: NodeRole, server: bool) -> NodeHarness {
    let (cmd_tx, cmd_rx) = crossbeam::channel::unbounded::<NodeCmd>();
    let (pkt_tx, pkt_rx) = crossbeam::channel::unbounded::<Packet>();
    let ep = NodeEndpoint { id, role, sender: cmd_tx };
    if server {
        sc.servers.push(ep);
    } else {
        sc.clients.push(ep);
    }
    sc.comms.push(CommsEndpoint { id, sender: pkt_tx });
    NodeHarness { cmd_rx, pkt_rx }
}

#[test]
fn add_then_remove_link_restores_adjacency() {
    let nodes = vec![
        raw(1, NodeKind::Drone, vec![]),
        raw(2, NodeKind::Drone, vec![]),
    ];
    let g = generate_generic_network_view(&nodes, &vec![1, 2], &vec![], &vec![]);
    let mut sc = empty_controller(g);
    let h1 = install_drone(&mut sc, 1, 0);
    let h2 = install_drone(&mut sc, 2, 0);
    assert_eq!(add_link(&mut sc, 1, 2), Ok(()));
    assert!(sc.graph.adjacent(1, 2));
    assert!(sc.graph.adjacent(2, 1));
    match h1.cmd_rx.try_recv().expect("drone 1 command") {
        DroneCmd::AddSender(other, _) => assert_eq!(other, 2),
        _ => panic!("expected an add-sender command"),
    }
    match h2.cmd_rx.try_recv().expect("drone 2 command") {
        DroneCmd::AddSender(other, _) => assert_eq!(other, 1),
        _ => panic!("expected an add-sender command"),
    }
    assert_eq!(remove_link(&mut sc, 1, 2), Ok(()));
    assert!(!sc.graph.adjacent(1, 2));
    assert!(!sc.graph.adjacent(2, 1));
    for node in &sc.graph.nodes {
        assert!(node.adj.is_empty());
    }
    match h1.cmd_rx.try_recv().expect("drone 1 command") {
        DroneCmd::RemoveSender(other) => assert_eq!(other, 2),
        _ => panic!("expected a remove-sender command"),
    }
    match h2.cmd_rx.try_recv().expect("drone 2 command") {
        DroneCmd::RemoveSender(other) => assert_eq!(other, 1),
        _ => panic!("expected a remove-sender command"),
    }
    let _ = (h1.pkt_rx, h2.pkt_rx);
}

#[test]
fn add_link_without_endpoint_aborts() {
    let nodes = vec![
        raw(1, NodeKind::Drone, vec![]),
        raw(2, NodeKind::Drone, vec![]),
    ];
    let g = generate_generic_network_view(&nodes, &vec![1, 2], &vec![], &vec![]);
    let mut sc = empty_controller(g);
    let _h2 = install_drone(&mut sc, 2, 0);
    assert_eq!(add_link(&mut sc, 1, 2), Err(ControllerError::NodeNotFound(1)));
    assert!(!sc.graph.adjacent(1, 2));
    assert!(!sc.graph.adjacent(2, 1));
}

#[test]
fn add_link_on_closed_channel_aborts() {
    let nodes = vec![
        raw(1, NodeKind::Drone, vec![]),
        raw(2, NodeKind::Drone, vec![]),
    ];
    let g = generate_generic_network_view(&nodes, &vec![1, 2], &vec![], &vec![]);
    let mut sc = empty_controller(g);
    let h1 = install_drone(&mut sc, 1, 0);
    let h2 = install_drone(&mut sc, 2, 0);
    drop(h1.cmd_rx);
    assert_eq!(add_link(&mut sc, 1, 2), Err(ControllerError::ChannelClosed(1)));
    assert!(!sc.graph.adjacent(1, 2));
    let _ = (h1.pkt_rx, h2);
}

fn coverage_controller(third_drone: bool) -> (SimulationController, Vec<DroneHarness>, NodeHarness) {
    let mut nodes = vec![
        raw(10, NodeKind::Server, vec![1, 2]),
        raw(1, NodeKind::Drone, vec![]),
        raw(2, NodeKind::Drone, vec![]),
    ];
    let mut drone_ids = vec![1, 2];
    if third_drone {
        nodes[0].adj.push(3);
        nodes.push(raw(3, NodeKind::Drone, vec![]));
        drone_ids.push(3);
    }
    let g = generate_generic_network_view(&nodes, &drone_ids, &vec![], &vec![10]);
    let mut sc = empty_controller(g);
    let mut harnesses = Vec::new();
    for id in drone_ids {
        harnesses.push(install_drone(&mut sc, id, 0));
    }
    let server = install_node(&mut sc, 10, NodeRole::ChatServer, true);
    (sc, harnesses, server)
}

#[test]
fn remove_link_guarded_by_validator() {
    let (mut sc, harnesses, server) = coverage_controller(false);
    assert_eq!(
        remove_link(&mut sc, 1, 10),
        Err(ControllerError::InvariantViolation(10))
    );
    assert!(sc.graph.adjacent(1, 10));
    assert!(sc.graph.adjacent(10, 1));
    let (mut sc3, harnesses3, server3) = coverage_controller(true);
    assert_eq!(remove_link(&mut sc3, 1, 10), Ok(()));
    assert!(!sc3.graph.adjacent(1, 10));
    assert!(!sc3.graph.adjacent(10, 1));
    let _ = (harnesses, server, harnesses3, server3);
}

#[test]
fn crash_guarded_by_validator() {
    let (mut sc, harnesses, server) = coverage_controller(false);
    assert_eq!(crash(&mut sc, 1), Err(ControllerError::InvariantViolation(10)));
    assert!(sc.graph.has_node(1));
    assert_eq!(crash(&mut sc, 77), Err(ControllerError::NodeNotFound(77)));
    let (mut sc3, harnesses3, server3) = coverage_controller(true);
    assert_eq!(crash(&mut sc3, 1), Ok(()));
    assert!(!sc3.graph.has_node(1));
    assert!(!sc3.graph.adjacent(10, 1));
    assert!(matches!(
        harnesses3[0].cmd_rx.try_recv(),
        Ok(DroneCmd::Crash)
    ));
    let _ = (harnesses, server, server3);
}

#[test]
fn shutdown_removes_node_everywhere() {
    let nodes = vec![
        raw(7, NodeKind::Client, vec![1]),
        raw(1, NodeKind::Drone, vec![]),
    ];
    let g = generate_generic_network_view(&nodes, &vec![1], &vec![7], &vec![]);
    let mut sc = empty_controller(g);
    let _d = install_drone(&mut sc, 1, 0);
    let client = install_node(&mut sc, 7, NodeRole::ChatClient, false);
    assert_eq!(shutdown(&mut sc, 99), Err(ControllerError::NodeNotFound(99)));
    assert_eq!(shutdown(&mut sc, 7), Ok(()));
    assert!(matches!(client.cmd_rx.try_recv(), Ok(NodeCmd::Shutdown)));
    assert!(!sc.graph.has_node(7));
    assert!(!sc.graph.adjacent(1, 7));
    assert!(sc.clients.is_empty());
    assert!(sc.comms.iter().all(|c| c.id != 7));
}

#[test]
fn set_drop_rate_sends_and_stores() {
    let nodes = vec![raw(1, NodeKind::Drone, vec![])];
    let g = generate_generic_network_view(&nodes, &vec![1], &vec![], &vec![]);
    let mut sc = empty_controller(g);
    let h = install_drone(&mut sc, 1, 0);
    assert_eq!(
        set_drop_rate(&mut sc, 9, 100),
        Err(ControllerError::NodeNotFound(9))
    );
    assert_eq!(set_drop_rate(&mut sc, 1, 1250), Ok(()));
    assert!(matches!(
        h.cmd_rx.try_recv(),
        Ok(DroneCmd::SetPacketDropRate(1250))
    ));
    assert_eq!(sc.get_drones_pdr(), vec![(1, 1250)]);
}

#[test]
fn send_command_needs_an_endpoint() {
    let sc = empty_controller(TopologyGraph::new());
    assert!(matches!(
        send_command(&sc, 5, NodeCmd::Shutdown),
        Err(ControllerError::NodeNotFound(5))
    ));
}

#[test]
fn shortcut_redelivery_reaches_the_destination() {
    let mut sc = empty_controller(TopologyGraph::new());
    let h = install_drone(&mut sc, 9, 0);
    let p = Packet { session_id: 42, hops: vec![1, 5, 9], hop_index: 1 };
    match deliver_shortcut(&sc, p) {
        Ok(SendOutcome::Sent) => {},
        other => panic!("unexpected outcome: {:?}", other),
    }
    let got = h.pkt_rx.try_recv().expect("redelivered packet");
    assert_eq!(got.session_id, 42);
    assert_eq!(got.hops, vec![1, 5, 9]);
    let empty = Packet { session_id: 1, hops: vec![], hop_index: 0 };
    assert!(matches!(
        deliver_shortcut(&sc, empty),
        Err(ControllerError::ParseError)
    ));
}

#[test]
fn drone_events_log_and_redeliver() {
    let mut sc = empty_controller(TopologyGraph::new());
    let h = install_drone(&mut sc, 9, 0);
    set_logger(&mut sc, Logger::new());
    let sent = DroneEvent::PacketSent(Packet { session_id: 7, hops: vec![3, 9], hop_index: 1 });
    assert!(handle_drone_event(&mut sc, sent).is_none());
    let dropped = DroneEvent::PacketDropped(Packet { session_id: 8, hops: vec![3, 9], hop_index: 0 });
    assert!(handle_drone_event(&mut sc, dropped).is_none());
    let shortcut =
        DroneEvent::ControllerShortcut(Packet { session_id: 9, hops: vec![3, 9], hop_index: 0 });
    match handle_drone_event(&mut sc, shortcut) {
        Some((dest, SendOutcome::Sent)) => assert_eq!(dest, 9),
        other => panic!("unexpected result: {:?}", other),
    }
    assert_eq!(h.pkt_rx.try_recv().expect("packet").session_id, 9);
    let lg = sc.logger.as_ref().unwrap();
    assert_eq!(lg.entries.len(), 3);
    assert!(lg.entries[0].text.ends_with("] PACKET SENT: session 7 at hop 9"));
    assert_eq!(lg.entries[0].color, Rgb { red: 123, green: 132, blue: 150 });
    assert!(lg.entries[1].text.ends_with("] PACKET DROPPED BY 3: session 8"));
    assert_eq!(lg.entries[1].color, Rgb { red: 255, green: 0, blue: 0 });
    assert!(lg.entries[2].text.ends_with("] CONTROLLER SHORTCUT TO 9"));
}

#[test]
fn node_events_log_and_yield_actions() {
    let mut sc = empty_controller(TopologyGraph::new());
    set_logger(&mut sc, Logger::new());
    let file = MediaFileData {
        id: "abc".to_string(),
        title: "pic".to_string(),
        content: vec![vec![1, 2, 3]],
    };
    let ev = NodeSourceEvent::Web(WebEvent::MediaFile { notification_from: 2, file });
    match handle_node_event(&mut sc, ev) {
        NodeEventAction::SaveMediaFile { owner, file } => {
            assert_eq!(owner, 2);
            assert_eq!(file.id, "abc");
            assert_eq!(file.content, vec![vec![1, 2, 3]]);
        },
        _ => panic!("expected a save action"),
    }
    let refresh = NodeSourceEvent::Chat(ChatEvent::RegisteredClients {
        notification_from: 10,
        list: vec![1, 2],
    });
    match handle_node_event(&mut sc, refresh) {
        NodeEventAction::RefreshLists { owner, list } => {
            assert_eq!(owner, 10);
            assert_eq!(list, vec![1, 2]);
        },
        _ => panic!("expected a refresh action"),
    }
    let flood = NodeSourceEvent::Node(sim_controller::bridge::NodeNotice::FloodStarted {
        flood_counter: 4,
        node_id: 6,
    });
    assert!(matches!(
        handle_node_event(&mut sc, flood),
        NodeEventAction::Nothing
    ));
    let lg = sc.logger.as_ref().unwrap();
    // the registered-clients reply refreshes the lists without logging
    assert_eq!(lg.entries.len(), 2);
    assert!(lg.entries[0]
        .text
        .ends_with("] NOTIFICATION FROM: 2, MEDIA FILE RECEIVED: abc"));
    assert!(lg.entries[1]
        .text
        .ends_with("] NOTIFICATION FROM: 6, FLOOD STARTED 4 FLOOD"));
}

#[test]
fn bridge_step_decides_continuation() {
    let mut sc = empty_controller(TopologyGraph::new());
    set_logger(&mut sc, Logger::new());
    assert!(matches!(
        bridge_step(&mut sc, false, BridgeInput::NodeSourceClosed),
        BridgeStep::Stop
    ));
    assert!(matches!(
        bridge_step(&mut sc, true, BridgeInput::NodeSourceClosed),
        BridgeStep::Stop
    ));
    assert!(matches!(
        bridge_step(&mut sc, true, BridgeInput::DroneSourceClosed),
        BridgeStep::Stop
    ));
    let ev = BridgeInput::Node(NodeSourceEvent::Chat(ChatEvent::MessageSent {
        notification_from: 1,
        to: 2,
    }));
    assert!(matches!(bridge_step(&mut sc, true, ev), BridgeStep::HandledNode(_)));
    let lg = sc.logger.as_ref().unwrap();
    assert_eq!(lg.entries.len(), 2);
    assert!(lg.entries[0].text.ends_with("] DRONE EVENT SOURCE CLOSED"));
    assert!(lg.entries[1]
        .text
        .ends_with("] NOTIFICATION FROM: 1, MESSAGE SENT TO: 2"));
}

#[test]
fn run_lifecycle_installs_and_clears() {
    let mut sc = SimulationController::new();
    let nodes = vec![raw(1, NodeKind::Drone, vec![])];
    let g = generate_generic_network_view(&nodes, &vec![1], &vec![], &vec![]);
    let (cmd_tx, _cmd_rx) = crossbeam::channel::unbounded::<DroneCmd>();
    sc.start_simulation(
        g,
        vec![],
        vec![],
        vec![DroneEndpoint { id: 1, rate_hundredths: 0, sender: cmd_tx }],
        vec![],
    );
    assert!(sc.running);
    assert_eq!(sc.drones.len(), 1);
    assert!(sc.graph.has_node(1));
    // starting again while running changes nothing
    let g2 = TopologyGraph::new();
    sc.start_simulation(g2, vec![], vec![], vec![], vec![]);
    assert!(sc.running);
    assert_eq!(sc.drones.len(), 1);
    sc.stop_simulation();
    assert!(!sc.running);
    assert!(sc.drones.is_empty());
    assert!(sc.graph.nodes.is_empty());
}

#[test]
fn registered_clients_rows() {
    let clients = vec![(3, NodeRole::ChatClient)];
    let servers = vec![(10, NodeRole::ChatServer), (11, NodeRole::WebServer)];
    let (cl, sv) = handle_registered_clients(10, &vec![1, 2], &clients, &servers);
    assert_eq!(cl.len(), 1);
    assert_eq!(cl[0].title, "Client 3");
    assert_eq!(cl[0].subtitle, "Chat Client");
    assert_eq!(sv.len(), 2);
    assert_eq!(sv[0].title, "Server 10");
    assert_eq!(sv[0].subtitle, "Chat Server | [1, 2]");
    assert_eq!(sv[1].subtitle, "Web Server");
}

#[test]
fn drop_rate_display_text() {
    assert_eq!(drone_rate_text(0).as_str(), "0");
    assert_eq!(drone_rate_text(10000).as_str(), "100");
    assert_eq!(drone_rate_text(2550).as_str(), "25.5");
    assert_eq!(drone_rate_text(1234).as_str(), "12.34");
    assert_eq!(drone_rate_text(105).as_str(), "1.05");
}

#[test]
fn server_with_two_drones_blocks_removal() {
    let nodes = vec![
        raw(10, NodeKind::Server, vec![1, 2]),
        raw(1, NodeKind::Drone, vec![]),
        raw(2, NodeKind::Drone, vec![]),
    ];
    let g = generate_generic_network_view(&nodes, &vec![1, 2], &vec![], &vec![10]);
    assert!(!can_remove_drone(&g, 1));
    let nodes3 = vec![
        raw(10, NodeKind::Server, vec![1, 2, 3]),
        raw(1, NodeKind::Drone, vec![]),
        raw(2, NodeKind::Drone, vec![]),
        raw(3, NodeKind::Drone, vec![]),
    ];
    let g3 = generate_generic_network_view(&nodes3, &vec![1, 2, 3], &vec![], &vec![10]);
    assert!(can_remove_drone(&g3, 1));
}

#[test]
fn sender_link_rules() {
    let nodes = vec![
        raw(10, NodeKind::Server, vec![1, 2]),
        raw(1, NodeKind::Drone, vec![]),
        raw(2, NodeKind::Drone, vec![]),
        raw(7, NodeKind::Client, vec![1]),
    ];
    let g = generate_generic_network_view(&nodes, &vec![1, 2], &vec![7], &vec![10]);
    // target is not a server: always allowed
    assert!(can_remove_sender_drone(&g, 1, 7));
    // unknown target: allowed
    assert!(can_remove_sender_drone(&g, 1, 99));
    // server would fall below two adjacent drones
    assert!(!can_remove_sender_drone(&g, 1, 10));
}

#[test]
fn node_id_parsing() {
    assert_eq!(parse_node_id("42"), Ok(42));
    assert_eq!(parse_node_id("0"), Ok(0));
    assert_eq!(parse_node_id("255"), Ok(255));
    assert!(parse_node_id("256").is_err());
    assert!(parse_node_id("").is_err());
    assert!(parse_node_id("4x").is_err());
    assert!(parse_node_id("-1").is_err());
}

#[test]
fn percent_parsing() {
    assert_eq!(parse_percent("50"), Ok(5000));
    assert_eq!(parse_percent("100"), Ok(10000));
    assert_eq!(parse_percent("12.5"), Ok(1250));
    assert_eq!(parse_percent("12.34"), Ok(1234));
    assert_eq!(parse_percent("0"), Ok(0));
    assert!(parse_percent("100.5").is_err());
    assert!(parse_percent("101").is_err());
    assert!(parse_percent("12.345").is_err());
    assert!(parse_percent(".5").is_err());
    assert!(parse_percent("abc").is_err());
    assert!(parse_percent("").is_err());
}

#[test]
fn decimal_formatting() {
    assert_eq!(fmt_u64(0).as_str(), "0");
    assert_eq!(fmt_u64(7).as_str(), "7");
    assert_eq!(fmt_u64(3040).as_str(), "3040");
}

#[test]
fn log_line_formatting() {
    let t = TimeParts { year: 2025, month: 3, day: 7, hour: 9, minute: 5, second: 30 };
    let line = format_log_line(t, "simulation started");
    assert_eq!(line.as_str(), "[7/3/2025 09:05:30] simulation started");
}

#[test]
fn logger_is_installed_once() {
    let mut sc = empty_controller(TopologyGraph::new());
    set_logger(&mut sc, Logger::new());
    log_default(&mut sc, "first");
    // a second installation must not replace the sink
    set_logger(&mut sc, Logger::new());
    log_default(&mut sc, "second");
    let lg = sc.logger.as_ref().unwrap();
    assert_eq!(lg.entries.len(), 2);
    assert!(lg.entries[0].text.ends_with("] first"));
    assert!(lg.entries[1].text.ends_with("] second"));
    assert_eq!(lg.entries[0].color, Rgb { red: 255, green: 255, blue: 255 });
}

#[test]
fn drone_rates_come_out_sorted() {
    let (s1, _r1) = crossbeam::channel::unbounded::<DroneCmd>();
    let (s2, _r2) = crossbeam::channel::unbounded::<DroneCmd>();
    let nodes = vec![
        raw(5, NodeKind::Drone, vec![]),
        raw(3, NodeKind::Drone, vec![]),
    ];
    let g = generate_generic_network_view(&nodes, &vec![3, 5], &vec![], &vec![]);
    let mut sc = empty_controller(g);
    sc.drones.push(DroneEndpoint { id: 5, rate_hundredths: 2500, sender: s1 });
    sc.drones.push(DroneEndpoint { id: 3, rate_hundredths: 100, sender: s2 });
    let listed = sc.get_drones_pdr();
    assert_eq!(listed, vec![(3, 100), (5, 2500)]);
}
