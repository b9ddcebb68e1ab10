//! The connection-admission rules of the network front end: which client
//! class a request belongs to, and whether a connection of that class fits
//! under the configured cap.
use vstd::prelude::*;

verus! {

/// Limits of the network front end. Timeouts are in milliseconds, message
/// sizes in kilobytes.
#[derive(Clone, Copy, Debug, PartialEq, Eq, Structural)]
pub struct Configuration {
    pub port: u16,
    pub node_timeout: u32,
    pub wallet_timeout: u32,
    pub max_node_size: usize,
    pub max_wallet_size: usize,
    pub max_node_connections: usize,
    pub max_wallet_connections: usize,
}

impl Default for Configuration {
    fn default() -> (r: Configuration)
        ensures
            r == (Configuration {
                port: 4444,
                node_timeout: 300000,
                wallet_timeout: 300000,
                max_node_size: 15000,
                max_wallet_size: 1000,
                max_node_connections: 50,
                max_wallet_connections: 5000,
            }),
    {
        Configuration {
            port: 4444,
            node_timeout: 300000,
            wallet_timeout: 300000,
            max_node_size: 15000,
            max_wallet_size: 1000,
            max_node_connections: 50,
            max_wallet_connections: 5000,
        }
    }
}

/// The front end's shared state: its configuration, whether it listens, and
/// the open connections of each client class.
#[derive(Clone, Copy, Debug, PartialEq, Eq, Structural)]
pub struct State {
    pub configuration: Configuration,
    pub active: bool,
    pub node_connections: usize,
    pub wallet_connections: usize,
}

/// The two classes of clients.
#[derive(Clone, Copy, Debug, PartialEq, Eq, Structural)]
pub enum Client {
    Wallet,
    Node,
}

/// Response status of an accepted request.
pub const STATUS_OK: u16 = 200;

/// Response status of a request without a known client class.
pub const STATUS_BAD_REQUEST: u16 = 400;

/// Response status of a request whose class is at its connection cap.
pub const STATUS_INTERNAL_SERVER_ERROR: u16 = 500;

/// The client class named by a `client` header value.
pub open spec fn client_of(value: Seq<u8>) -> Option<Client> {
    if value == seq![110u8, 111u8, 100u8, 101u8] {
        Some(Client::Node)
    } else if value == seq![119u8, 97u8, 108u8, 108u8, 101u8, 116u8] {
        Some(Client::Wallet)
    } else {
        None
    }
}

/// The outcome of one request: the state after it, the response status, and
/// the class of the connection that was opened, if one was.
pub struct Admission {
    pub state: State,
    pub status: u16,
    pub client: Option<Client>,
}

impl State {
    /// Every connection count is within its cap.
    pub open spec fn within_caps(&self) -> bool {
        &&& self.node_connections <= self.configuration.max_node_connections
        &&& self.wallet_connections <= self.configuration.max_wallet_connections
    }

    /// A front end that does not listen yet and has no connections.
    pub fn new(configuration: Configuration) -> (r: State)
        ensures
            r == (State { configuration, active: false, node_connections: 0, wallet_connections: 0 }),
    {
        State { configuration, active: false, node_connections: 0, wallet_connections: 0 }
    }

    /// This state under another configuration.
    pub fn swap(&self, configuration: Configuration) -> (r: State)
        ensures
            r == (State { configuration, ..*self }),
    {
        State { configuration, ..*self }
    }

    /// This state, listening.
    pub fn activate(&self) -> (r: State)
        ensures
            r == (State { active: true, ..*self }),
    {
        State { active: true, ..*self }
    }

    /// Decides one request from its `client` header value (absent when the
    /// request has none, or when it is not text): a known class below its cap
    /// is accepted and counted, a known class at its cap is refused with a
    /// server error, and anything else is a bad request.
    pub fn accept_request(&self, client_header: Option<&[u8]>) -> (r: Admission)
        ensures
            match client_header {
                None => r.state == *self && r.status == STATUS_BAD_REQUEST && r.client.is_none(),
                Some(v) => match client_of(v@) {
                    None => r.state == *self && r.status == STATUS_BAD_REQUEST && r.client.is_none(),
                    Some(Client::Node) => if self.node_connections < self.configuration.max_node_connections {
                        r.state == (State { node_connections: (self.node_connections + 1) as usize, ..*self })
                            && r.status == STATUS_OK && r.client == Some(Client::Node)
                    } else {
                        r.state == *self && r.status == STATUS_INTERNAL_SERVER_ERROR && r.client.is_none()
                    },
                    Some(Client::Wallet) => if self.wallet_connections < self.configuration.max_wallet_connections {
                        r.state == (State { wallet_connections: (self.wallet_connections + 1) as usize, ..*self })
                            && r.status == STATUS_OK && r.client == Some(Client::Wallet)
                    } else {
                        r.state == *self && r.status == STATUS_INTERNAL_SERVER_ERROR && r.client.is_none()
                    },
                },
            },
            self.within_caps() ==> r.state.within_caps(),
    {
        let refused = Admission { state: *self, status: STATUS_BAD_REQUEST, client: None };
        let v = match client_header {
            None => return refused,
            Some(v) => v,
        };
        let client = if v.len() == 4 && v[0] == 110 && v[1] == 111 && v[2] == 100 && v[3] == 101 {
            assert(v@ =~= seq![110u8, 111u8, 100u8, 101u8]);
            Client::Node
        } else if v.len() == 6 && v[0] == 119 && v[1] == 97 && v[2] == 108 && v[3] == 108 && v[4] == 101 && v[5] == 116 {
            assert(v@ =~= seq![119u8, 97u8, 108u8, 108u8, 101u8, 116u8]);
            Client::Wallet
        } else {
            assert(v@ != seq![110u8, 111u8, 100u8, 101u8]) by {
                if v@ == seq![110u8, 111u8, 100u8, 101u8] {
                    assert(v@.len() == 4 && v@[0] == 110 && v@[1] == 111 && v@[2] == 100 && v@[3] == 101);
                }
            }
            assert(v@ != seq![119u8, 97u8, 108u8, 108u8, 101u8, 116u8]) by {
                if v@ == seq![119u8, 97u8, 108u8, 108u8, 101u8, 116u8] {
                    assert(v@.len() == 6 && v@[0] == 119 && v@[1] == 97 && v@[2] == 108 && v@[3] == 108 && v@[4] == 101
                        && v@[5] == 116);
                }
            }
            return refused;
        };
        match client {
            Client::Node => if self.node_connections < self.configuration.max_node_connections {
                Admission {
                    state: State { node_connections: self.node_connections + 1, ..*self },
                    status: STATUS_OK,
                    client: Some(Client::Node),
                }
            } else {
                Admission { state: *self, status: STATUS_INTERNAL_SERVER_ERROR, client: None }
            },
            Client::Wallet => if self.wallet_connections < self.configuration.max_wallet_connections {
                Admission {
                    state: State { wallet_connections: self.wallet_connections + 1, ..*self },
                    status: STATUS_OK,
                    client: Some(Client::Wallet),
                }
            } else {
                Admission { state: *self, status: STATUS_INTERNAL_SERVER_ERROR, client: None }
            },
        }
    }

    /// Closes one connection of class `client`; a count already at zero stays there.
    pub fn release(&self, client: Client) -> (r: State)
        ensures
            client == Client::Node ==> r == (State {
                node_connections: if self.node_connections > 0 { (self.node_connections - 1) as usize } else { 0 },
                ..*self
            }),
            client == Client::Wallet ==> r == (State {
                wallet_connections: if self.wallet_connections > 0 { (self.wallet_connections - 1) as usize } else { 0 },
                ..*self
            }),
            self.within_caps() ==> r.within_caps(),
    {
        match client {
            Client::Node => State {
                node_connections: if self.node_connections > 0 { self.node_connections - 1 } else { 0 },
                ..*self
            },
            Client::Wallet => State {
                wallet_connections: if self.wallet_connections > 0 { self.wallet_connections - 1 } else { 0 },
                ..*self
            },
        }
    }

    /// The message size cap, in kilobytes, of a connection of class `client`.
    pub fn max_size(&self, client: Client) -> (r: usize)
        ensures
            r == match client {
                Client::Node => self.configuration.max_node_size,
                Client::Wallet => self.configuration.max_wallet_size,
            },
    {
        match client {
            Client::Node => self.configuration.max_node_size,
            Client::Wallet => self.configuration.max_wallet_size,
        }
    }
}

} // verus!
