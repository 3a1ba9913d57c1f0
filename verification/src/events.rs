//! What the node's event loop does with each event it is handed.

use vstd::prelude::*;

verus! {

/// The events of the node's loop, as far as they decide anything.
#[derive(Debug, PartialEq, Eq, Structural)]
pub enum LoopEvent {
    /// A peer's identify information arrived, with its listen addresses.
    IdentifyReceived,
    /// A termination signal.
    Terminate,
    /// An interrupt signal.
    Interrupt,
    /// Any other network event: logged only.
    Other,
}

/// What the loop does next.
#[derive(Debug, PartialEq, Eq, Structural)]
pub enum LoopAction {
    /// Add each listen address the peer announced to the DHT routing table.
    AddAddressesToRoutingTable,
    /// Leave the loop and shut down.
    Stop,
    /// Go on waiting for events.
    Continue,
}

/// The loop's reaction to an event: identify information feeds the DHT
/// routing table, either signal stops the node, anything else is only logged.
pub fn next_action(event: &LoopEvent) -> (a: LoopAction)
    ensures
        a == match *event {
            LoopEvent::IdentifyReceived => LoopAction::AddAddressesToRoutingTable,
            LoopEvent::Terminate => LoopAction::Stop,
            LoopEvent::Interrupt => LoopAction::Stop,
            LoopEvent::Other => LoopAction::Continue,
        },
{
    match event {
        LoopEvent::IdentifyReceived => LoopAction::AddAddressesToRoutingTable,
        LoopEvent::Terminate => LoopAction::Stop,
        LoopEvent::Interrupt => LoopAction::Stop,
        LoopEvent::Other => LoopAction::Continue,
    }
}

} // verus!
