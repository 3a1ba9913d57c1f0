//! The fixed settings of the node's network behaviours: the Kademlia DHT it
//! serves, identify, ping, the circuit relay it offers to NAT-bound peers,
//! and how long idle connections are kept.

use vstd::prelude::*;

verus! {

/// The settings the node's behaviours are built with. Durations are in
/// seconds.
pub struct BootSettings {
    /// The Kademlia protocol name of the DHT.
    pub kad_protocol: String,
    /// How often the routing table is bootstrapped again.
    pub kad_bootstrap_interval_secs: u64,
    /// Whether the node answers DHT queries (server mode) rather than only
    /// asking them.
    pub kad_server_mode: bool,
    /// The identify protocol version announced.
    pub identify_protocol: String,
    /// The agent version announced: the program's name and version.
    pub identify_agent: String,
    /// How often identify information is sent again.
    pub identify_interval_secs: u64,
    /// Whether changes of the listen addresses are pushed to peers at once.
    pub identify_push_listen_addr_updates: bool,
    pub ping_interval_secs: u64,
    pub ping_timeout_secs: u64,
    pub relay_max_reservations: usize,
    pub relay_max_circuits: usize,
    pub relay_max_circuits_per_peer: usize,
    pub relay_reservation_duration_secs: u64,
    pub relay_max_circuit_duration_secs: u64,
    /// The byte limit of a relayed circuit; 0 sets no limit.
    pub relay_max_circuit_bytes: u64,
    pub idle_connection_timeout_secs: u64,
}

/// The settings of a node of version `version`: a DHT server on
/// `/y7ke/kad/1.0.0` bootstrapping every 5 minutes, identify `/y7ke/0.1.0`
/// every 5 minutes with pushed listen-address updates, a ping every 30 s
/// with a 10 s timeout, a generous public relay (1024 reservations and
/// circuits, 16 circuits per peer, one hour each, no byte limit), and idle
/// connections kept for 10 minutes.
pub fn boot_settings(version: &str) -> (s: BootSettings)
    ensures
        s.kad_protocol@ == "/y7ke/kad/1.0.0"@,
        s.kad_bootstrap_interval_secs == 300,
        s.kad_server_mode,
        s.identify_protocol@ == "/y7ke/0.1.0"@,
        s.identify_agent@ == "y7ke-bootstrap/"@ + version@,
        s.identify_interval_secs == 300,
        s.identify_push_listen_addr_updates,
        s.ping_interval_secs == 30,
        s.ping_timeout_secs == 10,
        s.relay_max_reservations == 1024,
        s.relay_max_circuits == 1024,
        s.relay_max_circuits_per_peer == 16,
        s.relay_reservation_duration_secs == 3600,
        s.relay_max_circuit_duration_secs == 3600,
        s.relay_max_circuit_bytes == 0,
        s.idle_connection_timeout_secs == 600,
{
    let mut agent = String::from_str("y7ke-bootstrap/");
    agent.append(version);
    BootSettings {
        kad_protocol: String::from_str("/y7ke/kad/1.0.0"),
        kad_bootstrap_interval_secs: 300,
        kad_server_mode: true,
        identify_protocol: String::from_str("/y7ke/0.1.0"),
        identify_agent: agent,
        identify_interval_secs: 300,
        identify_push_listen_addr_updates: true,
        ping_interval_secs: 30,
        ping_timeout_secs: 10,
        relay_max_reservations: 1024,
        relay_max_circuits: 1024,
        relay_max_circuits_per_peer: 16,
        relay_reservation_duration_secs: 3600,
        relay_max_circuit_duration_secs: 3600,
        relay_max_circuit_bytes: 0,
        idle_connection_timeout_secs: 600,
    }
}

} // verus!
