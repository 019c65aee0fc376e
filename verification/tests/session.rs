use orderbook::{heartbeat_action, HeartbeatAction, Server, CLIENT_TIMEOUT_NANOS};

#[test]
fn heartbeat_pings_within_timeout() {
    assert_eq!(heartbeat_action(0), HeartbeatAction::Ping);
    assert_eq!(heartbeat_action(CLIENT_TIMEOUT_NANOS), HeartbeatAction::Ping);
}

#[test]
fn heartbeat_disconnects_after_timeout() {
    assert_eq!(heartbeat_action(CLIENT_TIMEOUT_NANOS + 1), HeartbeatAction::Disconnect);
    assert_eq!(heartbeat_action(u128::MAX), HeartbeatAction::Disconnect);
    assert_eq!(CLIENT_TIMEOUT_NANOS, 10_000_000_000);
}

#[test]
fn server_connects_and_disconnects() {
    let mut server: Server<&'static str> = Server::new();
    let a = server.connect("first");
    let b = server.connect("second");
    server.disconnect(a);
    server.disconnect(b);
    server.disconnect(a);
}
