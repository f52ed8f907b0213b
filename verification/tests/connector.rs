use nsproxy::config::{Config, ProxyConfig, ProxyMethod, ProxyProtocol};
use nsproxy::connector::{AbortKind, Action, Connection, Event, HopFailure, State};
use nsproxy::dns_server::{DnsServer, FIRST_IPV4_ADDR};

fn hop(address: &str, port: u16) -> ProxyConfig {
    ProxyConfig {
        protocol: ProxyProtocol::Socks5,
        address: String::from(address),
        port,
        auth: None,
    }
}

fn config(method: ProxyMethod, hops: usize) -> Config {
    Config {
        method,
        proxies: (0..hops).map(|i| hop(&format!("hop{}.example", i), 1080 + i as u16)).collect(),
    }
}

fn resolver() -> DnsServer {
    let mut server = DnsServer::new();
    assert_eq!(server.create_ipv4_addr_for_domain("www.example.com."), Some(FIRST_IPV4_ADDR));
    server
}

/// Runs a connection to its end; `outcomes[i]` says how trying hop `i` goes.
fn drive(
    method: ProxyMethod,
    outcomes: &[Option<HopFailure>],
    destination: Option<HopFailure>,
) -> (Vec<Action>, State) {
    let server = resolver();
    let config = config(method, outcomes.len());
    let (mut connection, mut action) =
        Connection::accept(&config, server.ipv4_mapping(), FIRST_IPV4_ADDR, 443);
    let mut actions = vec![action];
    loop {
        let outcome = match action {
            Action::Dial { hop } | Action::Extend { hop, .. } => outcomes[hop],
            Action::Reach { .. } => destination,
            _ => break,
        };
        let event = match outcome {
            None => Event::Succeeded,
            Some(failure) => Event::Failed(failure),
        };
        action = connection.step(event);
        actions.push(action);
    }
    (actions, connection.current_state())
}

#[test]
fn unknown_destination_aborts_before_any_dial() {
    let server = resolver();
    let config = config(ProxyMethod::StrictChain, 2);
    let (mut connection, action) =
        Connection::accept(&config, server.ipv4_mapping(), FIRST_IPV4_ADDR + 1, 443);
    assert_eq!(action, Action::Abort { kind: AbortKind::DestinationNotFound });
    assert_eq!(
        connection.current_state(),
        State::Aborted { kind: AbortKind::DestinationNotFound }
    );
    // Nothing that is reported afterwards brings it back.
    assert_eq!(
        connection.step(Event::Succeeded),
        Action::Abort { kind: AbortKind::DestinationNotFound }
    );
    assert_eq!(
        connection.current_state(),
        State::Aborted { kind: AbortKind::DestinationNotFound }
    );
}

#[test]
fn known_destination_is_recovered() {
    let server = resolver();
    let config = config(ProxyMethod::StrictChain, 1);
    let (connection, action) =
        Connection::accept(&config, server.ipv4_mapping(), FIRST_IPV4_ADDR, 8443);
    assert_eq!(action, Action::Dial { hop: 0 });
    assert_eq!(connection.destination(), ("www.example.com.", 8443));
    assert_eq!(connection.current_state(), State::Connecting { hop: 0, tunnel: None });
}

#[test]
fn strict_chain_through_every_hop() {
    let (actions, state) = drive(ProxyMethod::StrictChain, &[None, None, None], None);
    assert_eq!(
        actions,
        [
            Action::Dial { hop: 0 },
            Action::Extend { via: 0, hop: 1 },
            Action::Extend { via: 1, hop: 2 },
            Action::Reach { via: 2 },
            Action::Relay { via: 2 },
        ]
    );
    assert_eq!(state, State::Relaying { via: 2 });
}

#[test]
fn strict_chain_aborts_at_the_first_failure() {
    let (actions, state) = drive(
        ProxyMethod::StrictChain,
        &[None, Some(HopFailure::Rejected), None, None],
        None,
    );
    assert_eq!(
        actions,
        [
            Action::Dial { hop: 0 },
            Action::Extend { via: 0, hop: 1 },
            Action::Abort { kind: AbortKind::HandshakeRejected },
        ]
    );
    assert_eq!(state, State::Aborted { kind: AbortKind::HandshakeRejected });
}

#[test]
fn strict_chain_aborts_when_the_first_hop_is_unreachable() {
    let (actions, state) =
        drive(ProxyMethod::StrictChain, &[Some(HopFailure::Unreachable), None], None);
    assert_eq!(
        actions,
        [Action::Dial { hop: 0 }, Action::Abort { kind: AbortKind::HopUnreachable }]
    );
    assert_eq!(state, State::Aborted { kind: AbortKind::HopUnreachable });
}

#[test]
fn dynamic_chain_skips_failed_hops() {
    let (actions, state) = drive(
        ProxyMethod::DynamicChain,
        &[Some(HopFailure::Unreachable), Some(HopFailure::Unreachable), None],
        None,
    );
    assert_eq!(
        actions,
        [
            Action::Dial { hop: 0 },
            Action::Dial { hop: 1 },
            Action::Dial { hop: 2 },
            Action::Reach { via: 2 },
            Action::Relay { via: 2 },
        ]
    );
    assert_eq!(state, State::Relaying { via: 2 });
}

#[test]
fn dynamic_chain_ends_at_the_last_hop_that_was_reached() {
    let (actions, state) = drive(
        ProxyMethod::DynamicChain,
        &[Some(HopFailure::Unreachable), None, Some(HopFailure::Rejected), Some(HopFailure::Rejected)],
        None,
    );
    assert_eq!(
        actions,
        [
            Action::Dial { hop: 0 },
            Action::Dial { hop: 1 },
            Action::Extend { via: 1, hop: 2 },
            Action::Extend { via: 1, hop: 3 },
            Action::Reach { via: 1 },
            Action::Relay { via: 1 },
        ]
    );
    assert_eq!(state, State::Relaying { via: 1 });
}

#[test]
fn dynamic_chain_leaves_a_failed_hop_out_in_the_middle() {
    let (actions, state) = drive(
        ProxyMethod::DynamicChain,
        &[None, Some(HopFailure::Rejected), None],
        None,
    );
    assert_eq!(
        actions,
        [
            Action::Dial { hop: 0 },
            Action::Extend { via: 0, hop: 1 },
            Action::Extend { via: 0, hop: 2 },
            Action::Reach { via: 2 },
            Action::Relay { via: 2 },
        ]
    );
    assert_eq!(state, State::Relaying { via: 2 });
}

#[test]
fn dynamic_chain_is_exhausted_when_every_hop_fails() {
    let (actions, state) = drive(
        ProxyMethod::DynamicChain,
        &[Some(HopFailure::Unreachable), Some(HopFailure::Rejected)],
        None,
    );
    assert_eq!(
        actions,
        [
            Action::Dial { hop: 0 },
            Action::Dial { hop: 1 },
            Action::Abort { kind: AbortKind::ChainExhausted },
        ]
    );
    assert_eq!(state, State::Aborted { kind: AbortKind::ChainExhausted });
}

#[test]
fn refused_destination_aborts() {
    let (actions, state) =
        drive(ProxyMethod::DynamicChain, &[None], Some(HopFailure::Rejected));
    assert_eq!(
        actions,
        [
            Action::Dial { hop: 0 },
            Action::Reach { via: 0 },
            Action::Abort { kind: AbortKind::HandshakeRejected },
        ]
    );
    assert_eq!(state, State::Aborted { kind: AbortKind::HandshakeRejected });
    let (actions, _) = drive(ProxyMethod::StrictChain, &[None], Some(HopFailure::Unreachable));
    assert_eq!(actions[2], Action::Abort { kind: AbortKind::HopUnreachable });
}

#[test]
fn chain_without_hops_is_exhausted_at_once() {
    for method in [ProxyMethod::StrictChain, ProxyMethod::DynamicChain] {
        let (actions, state) = drive(method, &[], None);
        assert_eq!(actions, [Action::Abort { kind: AbortKind::ChainExhausted }]);
        assert_eq!(state, State::Aborted { kind: AbortKind::ChainExhausted });
    }
}

#[test]
fn relay_ends_in_closed() {
    let server = resolver();
    let config = config(ProxyMethod::StrictChain, 1);
    let (mut connection, _) =
        Connection::accept(&config, server.ipv4_mapping(), FIRST_IPV4_ADDR, 443);
    assert_eq!(connection.step(Event::Succeeded), Action::Reach { via: 0 });
    assert_eq!(connection.step(Event::Succeeded), Action::Relay { via: 0 });
    assert_eq!(connection.step(Event::Failed(HopFailure::Unreachable)), Action::Close);
    assert_eq!(connection.current_state(), State::Closed);
    assert_eq!(connection.step(Event::Succeeded), Action::Close);
    assert_eq!(connection.current_state(), State::Closed);
}

#[test]
fn handshake_targets() {
    let server = resolver();
    let config = config(ProxyMethod::StrictChain, 3);
    let (connection, action) =
        Connection::accept(&config, server.ipv4_mapping(), FIRST_IPV4_ADDR, 443);
    assert_eq!(connection.handshake_target(&config, action), None);
    assert_eq!(
        connection.handshake_target(&config, Action::Extend { via: 0, hop: 1 }),
        Some((0, "hop1.example", 1081))
    );
    assert_eq!(
        connection.handshake_target(&config, Action::Extend { via: 1, hop: 2 }),
        Some((1, "hop2.example", 1082))
    );
    assert_eq!(
        connection.handshake_target(&config, Action::Reach { via: 2 }),
        Some((2, "www.example.com.", 443))
    );
    assert_eq!(connection.handshake_target(&config, Action::Reach { via: 3 }), None);
    assert_eq!(connection.handshake_target(&config, Action::Extend { via: 2, hop: 3 }), None);
    assert_eq!(connection.handshake_target(&config, Action::Relay { via: 2 }), None);
    assert_eq!(connection.handshake_target(&config, Action::Close), None);
}

#[test]
fn config_needs_a_hop() {
    assert!(!config(ProxyMethod::StrictChain, 0).is_valid());
    assert!(config(ProxyMethod::StrictChain, 1).is_valid());
    assert!(config(ProxyMethod::DynamicChain, 5).is_valid());
}
