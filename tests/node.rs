use padlock::node::{
    Client, Configuration, State, STATUS_BAD_REQUEST, STATUS_INTERNAL_SERVER_ERROR, STATUS_OK,
};

#[test]
fn create_default_node() {
    let state = State::new(Configuration::default());
    assert!(!state.active);
    assert_eq!(state.configuration.port, 4444);
    assert_eq!(state.configuration.max_node_connections, 50);
    assert_eq!(state.configuration.max_wallet_connections, 5000);
}

#[test]
fn create_custom_node() {
    let state = State::new(Configuration {
        port: 5555,

        node_timeout: 10000,
        wallet_timeout: 10000,

        max_node_size: 50,
        max_wallet_size: 500,

        max_node_connections: 1,
        max_wallet_connections: 100,
    });
    assert_eq!(state.configuration.port, 5555);
    assert_eq!(state.node_connections, 0);
}

#[test]
fn create_default_node_and_swap() {
    let mut configuration = Configuration::default();
    let state = State::new(Configuration::default());

    configuration.port = 5555;
    let state = state.swap(configuration);
    assert_eq!(state.configuration.port, 5555);
}

fn small() -> State {
    let mut c = Configuration::default();
    c.max_node_connections = 1;
    c.max_wallet_connections = 2;
    State::new(c)
}

#[test]
fn node_connections_stop_at_the_cap() {
    let s = small();
    let a = s.accept_request(Some(&b"node"[..]));
    assert_eq!(a.status, STATUS_OK);
    assert_eq!(a.client, Some(Client::Node));
    assert_eq!(a.state.node_connections, 1);
    let b = a.state.accept_request(Some(&b"node"[..]));
    assert_eq!(b.status, STATUS_INTERNAL_SERVER_ERROR);
    assert_eq!(b.client, None);
    assert_eq!(b.state.node_connections, 1);
    let c = b.state.release(Client::Node);
    assert_eq!(c.node_connections, 0);
    assert_eq!(c.release(Client::Node).node_connections, 0);
}

#[test]
fn wallets_are_counted_apart() {
    let s = small();
    let a = s.accept_request(Some(&b"wallet"[..]));
    let b = a.state.accept_request(Some(&b"wallet"[..]));
    let c = b.state.accept_request(Some(&b"wallet"[..]));
    assert_eq!(b.state.wallet_connections, 2);
    assert_eq!(c.status, STATUS_INTERNAL_SERVER_ERROR);
    assert_eq!(c.state.node_connections, 0);
    assert_eq!(c.state.max_size(Client::Wallet), 1000);
    assert_eq!(c.state.max_size(Client::Node), 15000);
}

#[test]
fn unknown_or_missing_client_is_a_bad_request() {
    let s = small();
    let a = s.accept_request(Some(&b"miner"[..]));
    assert_eq!(a.status, STATUS_BAD_REQUEST);
    assert!(a.state == s);
    let b = s.accept_request(None);
    assert_eq!(b.status, STATUS_BAD_REQUEST);
    assert_eq!(b.client, None);
}

#[test]
fn activation_sets_only_the_flag() {
    let s = small();
    let t = s.activate();
    assert!(t.active);
    assert!(t.configuration == s.configuration);
}
