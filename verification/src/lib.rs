//! Verified core of a SIP/SDP protocol stack: SDP session descriptions
//! (parsing, building, serialisation, GB28181 extensions), SIP URI
//! parsing and writing, header helpers, transaction state machines, the
//! GB28181 device registry and device trees.
use vstd::prelude::*;

pub mod clock;
pub mod text;
pub mod sdp;
pub mod message;
pub mod transaction;
pub mod ua;
pub mod registration;
pub mod transport;

verus! {

} // verus!
