use vstd::prelude::*;

verus! {

/// An IP address, as the integer its octets spell in network order. An IPv6
/// host also keeps its flow label and scope.
#[derive(Debug, Clone, Copy, PartialEq, Eq, Structural, Hash)]
pub enum Host {
    V4(u32),
    V6 { addr: u128, flowinfo: u32, scope_id: u32 },
}

/// A network address that can take either connections or datagrams.
#[derive(Debug, Clone, Copy, PartialEq, Eq, Structural, Hash)]
pub struct Endpoint {
    pub host: Host,
    pub port: u16,
}

/// What a client asks the distributor.
#[derive(Debug, Clone, Copy, PartialEq, Eq, Structural)]
pub enum DistributorClientMessages {
    AskForLobbies,
    OpenLobby,
}

/// What the distributor answers.
#[derive(Debug, Clone)]
pub enum DistributorServerMessages {
    Lobbies(Vec<Endpoint>),
    LobbyOpened(Endpoint),
}

/// Tells whether two lists hold the same endpoints in the same order.
pub fn same_endpoints(a: &Vec<Endpoint>, b: &Vec<Endpoint>) -> (r: bool)
    ensures
        r == (a@ == b@),
{
    if a.len() != b.len() {
        return false;
    }
    let mut i: usize = 0;
    while i < a.len()
        invariant
            0 <= i <= a.len(),
            a.len() == b.len(),
            forall|j: int| 0 <= j < i ==> a@[j] == b@[j],
        decreases a.len() - i,
    {
        if a[i] != b[i] {
            return false;
        }
        i = i + 1;
    }
    assert(a@ =~= b@);
    true
}

impl PartialEq for DistributorServerMessages {
    fn eq(&self, other: &DistributorServerMessages) -> (r: bool) {
        match (self, other) {
            (DistributorServerMessages::Lobbies(a), DistributorServerMessages::Lobbies(b)) => {
                same_endpoints(a, b)
            },
            (
                DistributorServerMessages::LobbyOpened(a),
                DistributorServerMessages::LobbyOpened(b),
            ) => *a == *b,
            _ => false,
        }
    }
}

impl vstd::std_specs::cmp::PartialEqSpecImpl for DistributorServerMessages {
    open spec fn obeys_eq_spec() -> bool {
        true
    }

    open spec fn eq_spec(&self, other: &DistributorServerMessages) -> bool {
        match (self, other) {
            (DistributorServerMessages::Lobbies(a), DistributorServerMessages::Lobbies(b)) => a@
                == b@,
            (
                DistributorServerMessages::LobbyOpened(a),
                DistributorServerMessages::LobbyOpened(b),
            ) => a == b,
            _ => false,
        }
    }
}

} // verus!
