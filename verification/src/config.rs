//! Configuration of one node.

use vstd::prelude::*;
use vstd::string::StringExecFns;
use crate::chance::is_drawn_id;
use crate::text::{numeral_value, numerals, push_decimal};

verus! {

/// Configuration for a single engine node.
#[derive(Clone, Debug)]
pub struct Config {
    /// IP address to bind both the RPC and gossip listeners on.
    pub host: String,
    /// TCP port for the JSON-RPC 2.0 server.
    pub rpc_port: u16,
    /// TCP port for the gossip protocol listener.
    pub gossip_port: u16,
    /// Human-readable node identifier; a UUID v4 is made up when it is absent.
    pub node_id: Option<String>,
    /// Gossip addresses (host:port) of the seed peers.
    pub seed_peers: Vec<String>,
    /// How often, in milliseconds, to run a gossip round.
    pub gossip_interval_ms: u64,
    /// How many peers to push deltas to per gossip round.
    pub gossip_fanout: usize,
    /// Capacity of the channel that carries state-change events.
    pub event_channel_capacity: usize,
}

/// `host:port`, the port in decimal.
pub open spec fn address(host: Seq<char>, port: u16) -> Seq<char> {
    host + seq![':'] + crate::text::decimal(port as nat)
}

/// The text of a random (version 4) UUID: thirty-two lower-case hexadecimal digits in
/// groups of 8, 4, 4, 4 and 12, with the version digit and the variant bits set.
pub open spec fn is_uuid_v4_text(s: Seq<char>) -> bool {
    &&& s.len() == 36
    &&& forall|i: int|
        0 <= i < 36 ==> if i == 8 || i == 13 || i == 18 || i == 23 {
            #[trigger] s[i] == '-'
        } else {
            ('0' <= s[i] <= '9') || ('a' <= s[i] <= 'f')
        }
    &&& s[14] == '4'
    &&& s[19] == '8' || s[19] == '9' || s[19] == 'a' || s[19] == 'b'
}

/// `uuid::Uuid::new_v4` draws a random version 4 UUID, and its `Display` writes the
/// lower-case hyphenated text. Which one is drawn is left to chance; a system without a
/// source of randomness is left unsaid.
#[verifier::external_body]
fn fresh_uuid() -> (r: String)
    ensures
        is_uuid_v4_text(r@),
        is_drawn_id(r@),
{
    uuid::Uuid::new_v4().to_string()
}

impl Config {
    /// The configured node identifier, or a fresh UUID v4 where there is none.
    pub fn resolved_node_id(&self) -> (r: String)
        ensures
            self.node_id matches Some(id) ==> r == id,
            self.node_id is None ==> is_uuid_v4_text(r@) && is_drawn_id(r@),
    {
        match &self.node_id {
            Some(id) => id.clone(),
            None => fresh_uuid(),
        }
    }

    fn address_of(&self, port: u16) -> (r: String)
        ensures
            r@ == address(self.host@, port),
    {
        let mut r: String = self.host.clone();
        r.append(":");
        proof {
            reveal_strlit(":");
            assert(self.host@ + ":"@ =~= self.host@ + seq![':']);
        }
        push_decimal(&mut r, port as u64);
        r
    }

    /// The address that the JSON-RPC server binds.
    pub fn rpc_addr(&self) -> (r: String)
        ensures
            r@ == address(self.host@, self.rpc_port),
    {
        self.address_of(self.rpc_port)
    }

    /// The address that the gossip listener binds, and that peers learn.
    pub fn gossip_addr(&self) -> (r: String)
        ensures
            r@ == address(self.host@, self.gossip_port),
    {
        self.address_of(self.gossip_port)
    }
}

/// An address reads as its host, a colon and the port: what stands behind the host is a colon,
/// and what stands behind that is the decimal numeral of the port.
pub proof fn addresses_name_host_and_port(host: Seq<char>, port: u16)
    ensures
        host.is_prefix_of(address(host, port)),
        address(host, port)[host.len() as int] == ':',
        forall|i: int|
            host.len() < i < address(host, port).len() ==> '0' <= #[trigger] address(
                host,
                port,
            )[i] <= '9',
        address(host, port).len() > host.len() + 1,
        port > 0 ==> address(host, port)[host.len() as int + 1] != '0',
        numeral_value(address(host, port).skip(host.len() as int + 1)) == port,
{
    let a = address(host, port);
    let numeral = a.skip(host.len() as int + 1);
    numerals(port as nat);
    assert(numeral =~= crate::text::decimal(port as nat));
    assert(host =~= a.subrange(0, host.len() as int));
    assert forall|i: int| host.len() < i < a.len() implies '0' <= #[trigger] a[i] <= '9' by {
        assert(a[i] == numeral[i - host.len() - 1]);
    }
    assert(a[host.len() as int + 1] == numeral[0]);
}

/// A node goes by the identifier that it is configured with, and by one drawn for it only where
/// it has none; that one is the text of a version 4 UUID.
pub proof fn nodes_go_by_their_identifier(config: &Config, r: String)
    requires
        call_ensures(Config::resolved_node_id, (config,), r),
    ensures
        config.node_id matches Some(id) ==> r@ == id@,
        config.node_id is None ==> {
            &&& is_drawn_id(r@)
            &&& r@.len() == 36
            &&& forall|i: int|
                0 <= i < 36 ==> (#[trigger] r@[i] == '-' <==> i == 8 || i == 13 || i == 18 || i
                    == 23)
            &&& forall|i: int|
                0 <= i < 36 && i != 8 && i != 13 && i != 18 && i != 23 ==> '0' <= #[trigger] r@[i]
                    <= '9' || 'a' <= r@[i] <= 'f'
            &&& r@[14] == '4'
            &&& r@[19] == '8' || r@[19] == '9' || r@[19] == 'a' || r@[19] == 'b'
        },
{
}

/// Both listeners bind the configured host, each at its own port.
pub proof fn listeners_bind_their_ports(config: &Config, rpc: String, gossip: String)
    requires
        call_ensures(Config::rpc_addr, (config,), rpc),
        call_ensures(Config::gossip_addr, (config,), gossip),
    ensures
        config.host@.is_prefix_of(rpc@),
        config.host@.is_prefix_of(gossip@),
        rpc@[config.host@.len() as int] == ':',
        gossip@[config.host@.len() as int] == ':',
        numeral_value(rpc@.skip(config.host@.len() as int + 1)) == config.rpc_port,
        numeral_value(gossip@.skip(config.host@.len() as int + 1)) == config.gossip_port,
        rpc@ == gossip@ ==> config.rpc_port == config.gossip_port,
{
    addresses_name_host_and_port(config.host@, config.rpc_port);
    addresses_name_host_and_port(config.host@, config.gossip_port);
}

} // verus!
