//! The Bitcoin networks the server and the watcher serve.

use vstd::prelude::*;

verus! {

/// A Bitcoin network, named as Bitcoin Core and the database name it.
#[derive(Clone, Copy, Debug, PartialEq, Eq, Structural)]
pub enum Network {
    Bitcoin,
    Testnet,
    Testnet4,
    Signet,
    Regtest,
}

/// The lowercase name of a network (what `bitcoin::Network` displays as).
pub open spec fn network_name(n: Network) -> Seq<char> {
    match n {
        Network::Bitcoin => "bitcoin"@,
        Network::Testnet => "testnet"@,
        Network::Testnet4 => "testnet4"@,
        Network::Signet => "signet"@,
        Network::Regtest => "regtest"@,
    }
}

/// The network that a chain name selects; any unknown name selects mainnet.
pub open spec fn network_from_name(s: Seq<char>) -> Network {
    if s == "regtest"@ {
        Network::Regtest
    } else if s == "testnet"@ {
        Network::Testnet
    } else if s == "testnet4"@ {
        Network::Testnet4
    } else if s == "signet"@ {
        Network::Signet
    } else {
        Network::Bitcoin
    }
}

/// The five chain names that the HTTP endpoints accept.
pub open spec fn is_known_network(s: Seq<char>) -> bool {
    s == "bitcoin"@ || s == "testnet"@ || s == "testnet4"@ || s == "signet"@ || s == "regtest"@
}

impl Network {
    /// The lowercase name of the network.
    pub fn to_name(&self) -> (r: String)
        ensures
            r@ == network_name(*self),
    {
        match self {
            Network::Bitcoin => "bitcoin".to_string(),
            Network::Testnet => "testnet".to_string(),
            Network::Testnet4 => "testnet4".to_string(),
            Network::Signet => "signet".to_string(),
            Network::Regtest => "regtest".to_string(),
        }
    }
}

/// Selects the network for a chain name; unknown names select mainnet.
pub fn net_from_str(s: &str) -> (n: Network)
    ensures
        n == network_from_name(s@),
{
    if crate::text::str_eq(s, "regtest") {
        Network::Regtest
    } else if crate::text::str_eq(s, "testnet") {
        Network::Testnet
    } else if crate::text::str_eq(s, "testnet4") {
        Network::Testnet4
    } else if crate::text::str_eq(s, "signet") {
        Network::Signet
    } else {
        Network::Bitcoin
    }
}

/// Whether a chain name is one of the five the endpoints serve.
pub fn is_known_network_name(s: &str) -> (r: bool)
    ensures
        r == is_known_network(s@),
{
    crate::text::str_eq(s, "bitcoin") || crate::text::str_eq(s, "testnet")
        || crate::text::str_eq(s, "testnet4") || crate::text::str_eq(s, "signet")
        || crate::text::str_eq(s, "regtest")
}

/// Every network is selected again by its own name, and that name is one of
/// the five the endpoints accept.
pub proof fn lemma_network_name_roundtrip(n: Network)
    ensures
        network_from_name(network_name(n)) == n,
        is_known_network(network_name(n)),
{
    reveal_strlit("bitcoin");
    reveal_strlit("testnet");
    reveal_strlit("testnet4");
    reveal_strlit("signet");
    reveal_strlit("regtest");
    let b = "bitcoin"@;
    let t = "testnet"@;
    let t4 = "testnet4"@;
    let si = "signet"@;
    let r = "regtest"@;
    assert(b[0] != r[0] && b[0] != t[0] && b.len() != t4.len() && b[0] != si[0]);
    assert(t[0] != r[0] && t.len() != t4.len() && t[0] != si[0]);
    assert(t4[0] != r[0] && t4[0] != si[0]);
    assert(si[0] != r[0]);
}

} // verus!
