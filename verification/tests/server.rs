use p2pssh::client::cmd_connect;
use p2pssh::config::ALPN;
use p2pssh::key::{
    load_authorized_keys, AuthorizedKeys, HandshakeOutcome, KeyFileError, PeerIdError, SecretKey,
};
use p2pssh::server::{
    build_endpoint, cmd_serve, Handler, HandlerStep, RelayPlan, ServePlan, ServerAction,
    ServerEvent, ServerLoop, MAX_CONNECTIONS, ONLINE_TIMEOUT_SECS,
};

const PATH: &str = "/etc/p2pssh/authorized_keys";
const ID: &str = "tkrq8zmwb8a3m9k15csu3q17qmfgqnp9dskbrg9uq1rydpyxp7qy";

fn serve(relay: Option<&str>, mdns: bool, file: Option<&str>) -> Result<ServePlan, KeyFileError> {
    let key = SecretKey::from_bytes([1; 32]);
    cmd_serve(&key, relay.map(|s| s.to_string()), mdns, PATH, file)
}

#[test]
fn an_endpoint_uses_only_what_it_is_given() {
    let plan = build_endpoint(None, false, None, vec![]);
    assert!(matches!(plan.relay, RelayPlan::Disabled));
    assert!(plan.alpns.is_none());
    assert!(!plan.mdns);
    assert!(plan.hook.is_none());

    let plan = build_endpoint(Some("u".to_string()), true, None, vec![vec![1], vec![]]);
    assert!(matches!(plan.relay, RelayPlan::Custom { url } if url == "u"));
    assert_eq!(plan.alpns, Some(vec![vec![1], vec![]]));
    assert!(plan.mdns);

    let plan = build_endpoint(None, false, Some(AuthorizedKeys::new()), vec![]);
    assert!(plan.hook.is_none());
    let keys = load_authorized_keys(PATH, Some(ID)).unwrap();
    let plan = build_endpoint(None, false, Some(keys), vec![]);
    assert_eq!(plan.hook.unwrap().allowed.len(), 1);
}

#[test]
fn a_server_without_a_file_is_open() {
    let plan = serve(Some("u"), false, None).unwrap();
    assert_eq!(plan.peer_id, ID);
    assert!(plan.endpoint.hook.is_none());
    assert_eq!(plan.endpoint.alpns, Some(vec![b"p2pssh/1".to_vec()]));
    assert!(matches!(plan.endpoint.relay, RelayPlan::Custom { url } if url == "u"));
}

#[test]
fn a_server_lets_in_listed_peers_only() {
    let friend = SecretKey::from_bytes([2; 32]).public();
    let stranger = SecretKey::from_bytes([3; 32]).public();
    let plan = serve(None, true, Some(&friend.to_z32())).unwrap();
    assert!(plan.endpoint.mdns);
    let hook = plan.endpoint.hook.unwrap();
    assert!(matches!(hook.after_handshake(&friend), HandshakeOutcome::Accept));
    assert!(matches!(
        hook.after_handshake(&stranger),
        HandshakeOutcome::Reject { error_code: 403, .. }
    ));
}

#[test]
fn a_server_does_not_start_without_a_listed_peer() {
    match serve(None, false, Some("# nobody\n")) {
        Err(KeyFileError::NoValidKeys { path }) => assert_eq!(path, PATH),
        other => panic!("expected an error, got {:?}", other),
    }
}

#[test]
fn a_server_announces_itself() {
    assert_eq!(
        serve(Some("u"), true, None).unwrap().ready_text(Some("box")),
        format!(
            "\n=== p2pssh Server Ready ===\n\
             Peer ID: {ID}\n\
             Relay: custom\n\
             \n\
             Clients can configure ~/.ssh/config:\n\
             \x20 Host box\n\
             \x20   ProxyCommand p2pssh connect {ID}\n\
             \x20   User <username>\n\
             \n\
             With custom relay:\n\
             \x20   ProxyCommand p2pssh connect {ID} --relay-url <URL> --mdns\n"
        )
    );
    assert_eq!(
        serve(None, true, None).unwrap().ready_text(None),
        format!(
            "\n=== p2pssh Server Ready ===\n\
             Peer ID: {ID}\n\
             Relay: disabled (direct only)\n\
             \n\
             Clients can configure ~/.ssh/config:\n\
             \x20 Host my-server\n\
             \x20   ProxyCommand p2pssh connect {ID}\n\
             \x20   User <username>\n"
        )
    );
    assert!(serve(Some("u"), false, None)
        .unwrap()
        .ready_text(None)
        .ends_with(&format!("connect {ID} --relay-url <URL>\n")));
    assert_eq!(ONLINE_TIMEOUT_SECS, 30);
}

#[test]
fn a_client_connects_to_the_announced_peer() {
    let server = serve(None, false, None).unwrap();
    let plan = cmd_connect(&server.peer_id, Some("u".to_string()), true).unwrap();
    assert_eq!(plan.peer, SecretKey::from_bytes([1; 32]).public());
    assert_eq!(plan.peer_relay, Some("u".to_string()));
    assert!(matches!(plan.endpoint.relay, RelayPlan::Custom { url } if url == "u"));
    assert!(plan.endpoint.mdns);
    assert!(plan.endpoint.alpns.is_none());
    assert!(plan.endpoint.hook.is_none());
    assert_eq!(plan.alpn, ALPN.to_vec());
    assert!(server.endpoint.alpns.unwrap().contains(&plan.alpn));
    assert_eq!(cmd_connect(ID, None, false).unwrap().peer_relay, None);
}

#[test]
fn a_client_needs_a_peer_id() {
    assert_eq!(
        cmd_connect("nobody!", None, false).unwrap_err(),
        PeerIdError::NotBase32
    );
    assert_eq!(
        cmd_connect("yy", None, false).unwrap_err(),
        PeerIdError::NotPublicKey
    );
}

#[test]
fn connections_are_limited() {
    let mut server = ServerLoop::new(2);
    assert_eq!(server.step(ServerEvent::Incoming), ServerAction::Handle);
    assert_eq!(server.step(ServerEvent::Incoming), ServerAction::Handle);
    assert_eq!(server.step(ServerEvent::Incoming), ServerAction::Refuse);
    assert_eq!(server.step(ServerEvent::HandlerDone), ServerAction::Wait);
    assert_eq!(server.active, 1);
    assert_eq!(server.step(ServerEvent::Incoming), ServerAction::Handle);
    assert_eq!(server.step(ServerEvent::Incoming), ServerAction::Refuse);
    assert_eq!(server.step(ServerEvent::CtrlC), ServerAction::Shutdown);
    assert!(!server.running);

    let mut closed = ServerLoop::new(0);
    assert_eq!(closed.step(ServerEvent::Incoming), ServerAction::Refuse);
    assert_eq!(closed.step(ServerEvent::Terminate), ServerAction::Shutdown);
    assert!(ServerLoop::new(MAX_CONNECTIONS).running);
}

#[test]
fn the_ssh_server_is_contacted_after_the_handshake() {
    let steps = [
        HandlerStep::Handshake,
        HandlerStep::AcceptStream,
        HandlerStep::ConnectTcp,
        HandlerStep::Forward,
    ];
    let mut handler = Handler::new();
    for step in steps {
        assert_eq!(handler.step, step);
        handler.advance(true);
    }
    assert_eq!(handler.step, HandlerStep::Ended { ok: true });

    for failing in 0..steps.len() {
        let mut handler = Handler::new();
        for _ in 0..failing {
            handler.advance(true);
        }
        assert_eq!(handler.step, steps[failing]);
        handler.advance(false);
        assert_eq!(handler.step, HandlerStep::Ended { ok: false });
    }
}

#[test]
fn the_limit_is_that_of_the_semaphore_type() {
    assert_eq!(MAX_CONNECTIONS, tokio::sync::Semaphore::MAX_PERMITS);
}
