//! Connectivity-controller tests: the derived thresholds, discovery
//! admission under the capacity and priority rules, discovery-loop
//! suppression, timer bookkeeping over a connection's life, and the
//! handshake engine's event discipline.

use anchor_network::config::Config;
use anchor_network::enr::enr_fields;
use anchor_network::enr::EnrConfig;
use anchor_network::enr::ListenPorts;
use anchor_network::handshake;
use anchor_network::peer_manager::Candidate;
use anchor_network::peer_manager::PeerManager;
use anchor_network::peer_manager::PollAction;
use anchor_network::peer_store::Direction;
use anchor_network::NodeInfo;
use anchor_network::PeerManagerEvent;
use libp2p_identity::Keypair;

fn plain_candidate(peer: u64) -> Candidate {
    Candidate {
        peer,
        quic_address: Some(vec![1, peer as u8]),
        tcp_address: Some(vec![2, peer as u8]),
        min_ttl_ms: None,
    }
}

fn priority_candidate(peer: u64) -> Candidate {
    Candidate {
        peer,
        quic_address: None,
        tcp_address: Some(vec![2, peer as u8]),
        min_ttl_ms: Some(60_000),
    }
}

/// Pop every buffered event.
fn drain_events(m: &mut PeerManager) -> Vec<PeerManagerEvent> {
    let mut out = Vec::new();
    loop {
        match m.poll(0) {
            PollAction::Event(e) => out.push(e),
            _ => return out,
        }
    }
}

#[test]
fn thresholds_at_target_fifty() {
    let m = PeerManager::new(Config::new(50, true));
    assert_eq!(m.max_peers(), 55);
    assert_eq!(m.max_priority_peers(), 65);
    assert_eq!(m.max_outbound_dialing_peers(), 60);
    assert_eq!(m.min_outbound_only_peers(), 10);
    assert_eq!(m.target_outbound_peers(), 15);
}

#[test]
fn discovery_admission_respects_caps_and_priority() {
    // discovery disabled so admission is observed without discovery events
    let mut m = PeerManager::new(Config::new(50, false));
    for p in 0..55u64 {
        m.on_connection_established(p, Direction::Inbound, vec![9]);
    }
    drain_events(&mut m);
    assert_eq!(m.connected_or_dialing_peers(), 55);

    // at the connection cap a candidate without a deadline is rejected
    m.peers_discovered(vec![plain_candidate(100)]);
    assert!(matches!(m.poll(0), PollAction::Idle));

    // the same candidate with a deadline is a priority peer and is admitted
    m.peers_discovered(vec![priority_candidate(100)]);
    match m.poll(0) {
        PollAction::Dial { peer, addresses } => {
            assert_eq!(peer, 100);
            assert_eq!(addresses, vec![vec![2, 100]]);
        }
        other => panic!("expected a dial, got {:?}", other),
    }

    // fill up to the priority cap of 65 and the deadline no longer helps
    for p in 55..65u64 {
        m.on_connection_established(p, Direction::Inbound, vec![9]);
    }
    drain_events(&mut m);
    // 65 connected plus the one dialing: above max_priority_peers
    m.peers_discovered(vec![priority_candidate(101)]);
    assert!(matches!(m.poll(0), PollAction::Idle));
}

#[test]
fn useless_discovery_round_requests_no_more_discovery() {
    let mut m = PeerManager::new(Config::new(50, true));
    m.on_connection_established(1, Direction::Inbound, vec![9]);
    drain_events(&mut m);

    // far below target: an admitting round would ask for more peers, but a
    // non-empty round that admits nobody must not
    m.peers_discovered(vec![plain_candidate(1)]);
    assert!(matches!(m.poll(0), PollAction::Idle));
}

#[test]
fn admitting_discovery_round_requests_the_shortfall() {
    let mut m = PeerManager::new(Config::new(50, true));
    m.peers_discovered(vec![plain_candidate(7)]);
    // one admitted: the controller asks for max_peers - 1 more
    let evs = drain_events(&mut m);
    assert!(evs.contains(&PeerManagerEvent::DiscoverPeers(54)), "{evs:?}");
}

#[test]
fn heartbeat_requests_discovery_when_short() {
    let mut m = PeerManager::new(Config::new(50, true));
    m.on_heartbeat(0);
    let evs = drain_events(&mut m);
    assert_eq!(evs, vec![PeerManagerEvent::DiscoverPeers(55)]);
}

#[test]
fn heartbeat_reverts_stale_dials() {
    let mut m = PeerManager::new(Config::new(50, false));
    assert!(m.dial_peer(plain_candidate(3)));
    match m.poll(1_000) {
        PollAction::Dial { peer, .. } => assert_eq!(peer, 3),
        other => panic!("expected a dial, got {:?}", other),
    }
    assert_eq!(m.connected_or_dialing_peers(), 1);
    // before the dial timeout nothing changes
    m.on_heartbeat(10_000);
    assert_eq!(m.connected_or_dialing_peers(), 1);
    // past it the dial is reverted
    m.on_heartbeat(31_000);
    assert_eq!(m.connected_or_dialing_peers(), 0);
}

#[test]
fn dial_prefers_the_faster_transport() {
    let mut m = PeerManager::new(Config::new(50, false));
    assert!(m.dial_peer(plain_candidate(4)));
    match m.poll(0) {
        PollAction::Dial { peer, addresses } => {
            assert_eq!(peer, 4);
            assert_eq!(addresses, vec![vec![1, 4], vec![2, 4]]);
        }
        other => panic!("expected a dial, got {:?}", other),
    }
    // a queued peer that is no longer dialable is discarded, not dialed
    assert!(!m.dial_peer(plain_candidate(4)));
}

#[test]
fn inbound_admission_denies_at_cap_unless_future_duty() {
    let mut m = PeerManager::new(Config::new(50, false));
    for p in 0..55u64 {
        m.on_connection_established(p, Direction::Inbound, vec![9]);
    }
    drain_events(&mut m);
    assert!(!m.admit_inbound(200));
    m.peers.set_future_duty(200, true);
    assert!(m.admit_inbound(200));
}

#[test]
fn outbound_admission_denies_at_dialing_cap_unless_future_duty() {
    let mut m = PeerManager::new(Config::new(50, false));
    for p in 0..60u64 {
        m.on_connection_established(p, Direction::Outbound, vec![9]);
    }
    drain_events(&mut m);
    assert!(!m.admit_outbound(300));
    m.peers.set_future_duty(300, true);
    assert!(m.admit_outbound(300));
}

#[test]
fn connect_cycle_clears_all_per_peer_timers() {
    let mut m = PeerManager::new(Config::new(50, false));
    m.on_connection_established(9, Direction::Inbound, vec![9]);
    drain_events(&mut m);

    // while connected, the armed timers fire into events
    m.on_ping_due(9, Direction::Inbound);
    assert!(matches!(
        m.poll(0),
        PollAction::Event(PeerManagerEvent::Ping(9))
    ));
    m.on_status_due(9);
    assert!(matches!(
        m.poll(0),
        PollAction::Event(PeerManagerEvent::Status(9))
    ));

    // the last connection closes: the disconnect event comes, and every
    // per-peer timer is cleared
    m.on_connection_closed(9, 0);
    assert!(matches!(
        m.poll(0),
        PollAction::Event(PeerManagerEvent::PeerDisconnected(9))
    ));
    m.on_ping_due(9, Direction::Inbound);
    m.on_ping_due(9, Direction::Outbound);
    m.on_status_due(9);
    assert!(matches!(m.poll(0), PollAction::Idle));
}

#[test]
fn dial_failure_applies_disconnect_bookkeeping_only_when_not_connected() {
    let mut m = PeerManager::new(Config::new(50, false));
    assert!(m.dial_peer(plain_candidate(5)));
    match m.poll(0) {
        PollAction::Dial { .. } => {}
        other => panic!("expected a dial, got {:?}", other),
    }
    assert_eq!(m.connected_or_dialing_peers(), 1);
    m.on_dial_failure(Some(5));
    assert_eq!(m.connected_or_dialing_peers(), 0);

    // a failure racing a successful connection leaves the peer connected
    m.on_connection_established(6, Direction::Outbound, vec![9]);
    drain_events(&mut m);
    m.on_dial_failure(Some(6));
    assert_eq!(m.connected_peers(), 1);
}

#[test]
fn handshake_completes_between_matching_networks() {
    let a_info = NodeInfo::new("testnet".to_string(), None);
    let b_info = NodeInfo::new("testnet".to_string(), None);
    let mut a = handshake::Behaviour::new(Keypair::generate_ed25519(), a_info);
    let mut b = handshake::Behaviour::new(Keypair::generate_ed25519(), b_info);

    // we dialed: the request carries our sealed record
    let request = a
        .on_connection_established(1, true)
        .expect("the dialer sends first");
    // the peer answers and checks our record
    let response = b
        .handle_handshake_request(0, &request)
        .expect("sealing the response succeeds");
    match b.poll_event().expect("one event per verification") {
        handshake::Event::Completed { peer_id, their_info } => {
            assert_eq!(peer_id, 0);
            assert_eq!(their_info.network_id, "testnet");
        }
        other => panic!("expected completion, got {:?}", other),
    }
    assert!(b.poll_event().is_none());

    // and we check theirs
    a.handle_handshake_response(1, &response);
    match a.poll_event().expect("one event per verification") {
        handshake::Event::Completed { peer_id, .. } => assert_eq!(peer_id, 1),
        other => panic!("expected completion, got {:?}", other),
    }
}

#[test]
fn handshake_reports_network_mismatch() {
    let a_info = NodeInfo::new("mainnet".to_string(), None);
    let b_info = NodeInfo::new("testnet".to_string(), None);
    let a = handshake::Behaviour::new(Keypair::generate_ed25519(), a_info);
    let mut b = handshake::Behaviour::new(Keypair::generate_ed25519(), b_info);

    let request = a.sealed_node_record().expect("seal succeeds");
    b.handle_handshake_request(3, &request);
    match b.poll_event().expect("one event per verification") {
        handshake::Event::Failed { peer_id, error } => {
            assert_eq!(peer_id, 3);
            match error {
                handshake::Error::NetworkMismatch { ours, theirs } => {
                    assert_eq!(ours, "testnet");
                    assert_eq!(theirs, "mainnet");
                }
                other => panic!("expected a mismatch, got {:?}", other),
            }
        }
        other => panic!("expected a failure, got {:?}", other),
    }
}

#[test]
fn handshake_reports_decode_failure() {
    let info = NodeInfo::new("testnet".to_string(), None);
    let mut b = handshake::Behaviour::new(Keypair::generate_ed25519(), info);
    let bogus = anchor_network::Envelope {
        public_key: Vec::new(),
        payload_type: Vec::new(),
        payload: b"junk".to_vec(),
        signature: Vec::new(),
    };
    b.handle_handshake_response(4, &bogus);
    match b.poll_event().expect("one event per verification") {
        handshake::Event::Failed { peer_id, error } => {
            assert_eq!(peer_id, 4);
            assert!(matches!(error, handshake::Error::NodeInfoErr(_)));
        }
        other => panic!("expected a failure, got {:?}", other),
    }
}

#[test]
fn each_transport_failure_yields_exactly_one_failed_event() {
    let info = NodeInfo::new("testnet".to_string(), None);
    let mut b = handshake::Behaviour::new(Keypair::generate_ed25519(), info);
    b.on_outbound_failure(11, handshake::TransportFailure::Timeout);
    b.on_inbound_failure(12, handshake::TransportFailure::ConnectionClosed);

    match b.poll_event().expect("first failure") {
        handshake::Event::Failed { peer_id, error } => {
            assert_eq!(peer_id, 11);
            assert!(matches!(
                error,
                handshake::Error::Outbound(handshake::TransportFailure::Timeout)
            ));
        }
        other => panic!("expected a failure, got {:?}", other),
    }
    match b.poll_event().expect("second failure") {
        handshake::Event::Failed { peer_id, error } => {
            assert_eq!(peer_id, 12);
            assert!(matches!(
                error,
                handshake::Error::Inbound(handshake::TransportFailure::ConnectionClosed)
            ));
        }
        other => panic!("expected a failure, got {:?}", other),
    }
    assert!(b.poll_event().is_none());
}

#[test]
fn enr_fields_fall_back_to_listening_ports() {
    let config = EnrConfig {
        enr_address_v4: Some(0x7F000001),
        enr_address_v6: None,
        enr_udp4_port: Some(9000),
        enr_udp6_port: None,
        enr_tcp4_port: None,
        enr_tcp6_port: None,
        enr_quic4_port: None,
        enr_quic6_port: None,
        disable_quic_support: false,
        listen_v4: Some(ListenPorts { tcp_port: 9001, quic_port: 9002 }),
        listen_v6: Some(ListenPorts { tcp_port: 0, quic_port: 0 }),
    };
    let fields = enr_fields(&config);
    assert_eq!(fields.ip4, Some(0x7F000001));
    assert_eq!(fields.udp4, Some(9000));
    assert_eq!(fields.tcp4, Some(9001));
    assert_eq!(fields.quic4, Some(9002));
    // a zero listening port is no port
    assert_eq!(fields.tcp6, None);
    assert_eq!(fields.quic6, None);

    // with the faster transport off, no quic fields at all
    let no_quic = EnrConfig { disable_quic_support: true, ..config };
    let fields2 = enr_fields(&no_quic);
    assert_eq!(fields2.quic4, None);
    assert_eq!(fields2.tcp4, Some(9001));
}
