# y7ke_bootstrap

The decision logic of a stateless Kademlia bootstrap node for Y7KE, written
in Verus and verified against its contracts:

- `src/descriptor.rs`: the transport-agnostic client descriptors
  `/{net}/{host}/{port}/p2p/{peer}`, one per distinct endpoint among the
  external addresses, with the laws that they are distinct, complete,
  prefix-stable and independent of TCP versus UDP.
- `src/addr.rs`: multiaddrs as the node reads them (parsed by libp2p), the
  external addresses from the command line and from a comma-separated list,
  and the four listen addresses.
- `src/text.rs`: decimal rendering, trimming and splitting of text.
- `src/identity.rs`: loading the stored ed25519 secret or generating a new
  identity and the secret to store.
- `src/settings.rs`: the fixed settings of the network behaviours.
- `src/events.rs`: the event loop's reaction to each event.

`app/main.rs` is the daemon: argument handling, the identity file, the
libp2p swarm and the event loop, all driven by the library.
