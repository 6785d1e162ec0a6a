//! A verified client-side runtime for a desktop message-bus protocol:
//! a dynamically typed value model, the little-endian wire codec with its
//! proved encode/decode round trip, append- and read-mode cursors over
//! message bodies, and the connection engine that allocates serials,
//! queues traffic, correlates replies, and runs the filter chain. The
//! byte transport and the authentication handshake live outside the
//! library and exchange plain frame bytes with the engine.

pub mod connection;
pub mod error;
pub mod framing;
pub mod iter;
pub mod marshal;
pub mod message;
pub mod roundtrip;
pub mod sig;
pub mod slots;
pub mod unmarshal;
pub mod value;
pub mod wire;

use vstd::prelude::*;

verus! {

/// Which well-known bus a connection is opened to.
#[derive(Clone, Copy, Debug, PartialEq, Eq, Structural)]
pub enum DBusBusType {
    Session,
    System,
    Starter,
}

/// The C-style boolean of the libdbus-shaped API: 1 for true,
/// 0 for false.
pub type DbusBool = u32;

pub fn dbus_bool(b: bool) -> (r: DbusBool)
    ensures
        r == if b { 1u32 } else { 0u32 },
{
    if b {
        1
    } else {
        0
    }
}

} // verus!
