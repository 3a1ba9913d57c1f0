//! Decision logic of a Kademlia bootstrap node: the client descriptors it
//! advertises, the external and listen addresses it configures, the handling
//! of its persistent ed25519 identity, its fixed behaviour settings and the
//! reaction of its event loop.

pub mod text;
pub mod addr;
pub mod descriptor;
pub mod identity;
pub mod settings;
pub mod events;
