//! Decoder for the fragmented telegram wire format of a networked
//! safety-laser-scanner sensor.
//!
//! A telegram arrives as one or more transport datagrams.  Each datagram
//! carries a fixed transport header ([`udp::UDPDatagramHeader`]) naming the
//! telegram it belongs to and the offset of its payload slice; the
//! [`reassembly::Reassembler`] collects those slices into the complete
//! payload.  The payload opens with a fixed header
//! ([`data_output::DataOutputHeader`]) whose block table locates the variable
//! sub-blocks, among them the output configuration
//! ([`data_output::OutputConfigurationBlock`]) with its fixed-point angles
//! ([`angle::Angle`]).

use vstd::prelude::*;

pub mod angle;
pub mod data_output;
pub mod reassembly;
pub mod udp;
pub mod wire;

verus! {

/// Why a decoder refused its input.
#[derive(Clone, Copy, Debug, PartialEq, Eq, Structural)]
pub enum DecodeError {
    /// The buffer is smaller than the structure's fixed minimum length.
    TooShort,
    /// A literal tag field holds bytes that are not valid UTF-8.
    MalformedText,
    /// A block descriptor names a byte range that reaches past the end of
    /// the payload.
    BlockOutOfRange,
    /// A partly reassembled telegram was dropped because no new fragment
    /// arrived for longer than the configured idle limit.
    ReassemblyTimedOut,
}

} // verus!
