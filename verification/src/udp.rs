//! The transport-level datagram header.
//!
//! Every datagram of the sensor opens with a fixed 20-byte header: two
//! ASCII literal tags, a protocol version, and the three numbers that drive
//! reassembly — the complete telegram's total payload length, the
//! identification number grouping the telegram's fragments, and the offset
//! of this fragment's payload slice within the complete telegram.

use crate::wire::{string_from_utf8, u32_le, u32_le_bytes, read_u8, read_u32_le};
use crate::wire::lemma_u32_le_bytes_round_trip;
use crate::DecodeError;
use vstd::prelude::*;
use vstd::utf8::{decode_utf8, valid_utf8};

verus! {

/// Number of bytes the transport header decoder consumes.  The full
/// transport frame is at least 24 bytes; the trailing reserved bytes are
/// not read here.
pub const TRANSPORT_HEADER_LEN: usize = 20;

/// The decoded transport header of one datagram.
#[derive(Debug)]
pub struct UDPDatagramHeader {
    /// Literal tag opening every datagram; callers that care check it
    /// against `"data"` themselves, the decoder does not.
    pub datagram_marker: String,
    /// Literal tag naming the carried protocol.
    pub protocol: String,
    pub version_maj: u8,
    pub version_min: u8,
    /// Byte length of the complete reassembled telegram payload this
    /// fragment belongs to.
    pub total_length: u32,
    /// Groups the fragments of one telegram.
    pub identification: u32,
    /// Byte offset of this fragment's payload slice within the complete
    /// telegram; `0` marks the first (or only) fragment.
    pub fragment_offset: u32,
}

/// A buffer holds a structurally decodable transport header exactly when it
/// is long enough and both literal tags are valid UTF-8.
pub open spec fn transport_decodable(b: Seq<u8>) -> bool {
    &&& b.len() >= 20
    &&& valid_utf8(b.subrange(0, 4))
    &&& valid_utf8(b.subrange(4, 6))
}

/// The header `h` is the decoding of the first 20 bytes of `b`.
pub open spec fn is_transport_decode(b: Seq<u8>, h: UDPDatagramHeader) -> bool {
    &&& h.datagram_marker@ == decode_utf8(b.subrange(0, 4))
    &&& h.protocol@ == decode_utf8(b.subrange(4, 6))
    &&& h.version_maj == b[6]
    &&& h.version_min == b[7]
    &&& h.total_length == u32_le(b.subrange(8, 12))
    &&& h.identification == u32_le(b.subrange(12, 16))
    &&& h.fragment_offset == u32_le(b.subrange(16, 20))
}

impl UDPDatagramHeader {
    /// Decodes the fixed transport header at the front of `buffer`.
    ///
    /// Fails with `TooShort` when fewer than 20 bytes are supplied and with
    /// `MalformedText` when a literal tag is not valid UTF-8; any other
    /// buffer decodes.  No semantic validation is performed: an unexpected
    /// marker or protocol value is the caller's concern.
    pub fn from_bytes(buffer: &[u8]) -> (r: Result<UDPDatagramHeader, DecodeError>)
        ensures
            r is Ok <==> transport_decodable(buffer@),
            r matches Ok(h) ==> is_transport_decode(buffer@, h),
            buffer@.len() < 20 ==> r == Err::<UDPDatagramHeader, DecodeError>(
                DecodeError::TooShort,
            ),
            buffer@.len() >= 20 && !transport_decodable(buffer@) ==> r == Err::<
                UDPDatagramHeader,
                DecodeError,
            >(DecodeError::MalformedText),
    {
        if buffer.len() < TRANSPORT_HEADER_LEN {
            return Err(DecodeError::TooShort);
        }
        let marker_bytes = vstd::slice::slice_to_vec(vstd::slice::slice_subrange(buffer, 0, 4));
        let protocol_bytes = vstd::slice::slice_to_vec(vstd::slice::slice_subrange(buffer, 4, 6));
        let datagram_marker = match string_from_utf8(marker_bytes) {
            Some(s) => s,
            None => {
                return Err(DecodeError::MalformedText);
            },
        };
        let protocol = match string_from_utf8(protocol_bytes) {
            Some(s) => s,
            None => {
                return Err(DecodeError::MalformedText);
            },
        };
        Ok(
            UDPDatagramHeader {
                datagram_marker,
                protocol,
                version_maj: read_u8(buffer, 6),
                version_min: read_u8(buffer, 7),
                total_length: read_u32_le(buffer, 8),
                identification: read_u32_le(buffer, 12),
                fragment_offset: read_u32_le(buffer, 16),
            },
        )
    }
}

/// Decodes the fixed transport header at the front of `buffer`; the
/// free-function form of [`UDPDatagramHeader::from_bytes`].
pub fn parse_udp_datagram_header(buffer: &[u8]) -> (r: Result<UDPDatagramHeader, DecodeError>)
    ensures
        r is Ok <==> transport_decodable(buffer@),
        r matches Ok(h) ==> is_transport_decode(buffer@, h),
        buffer@.len() < 20 ==> r == Err::<UDPDatagramHeader, DecodeError>(DecodeError::TooShort),
        buffer@.len() >= 20 && !transport_decodable(buffer@) ==> r == Err::<
            UDPDatagramHeader,
            DecodeError,
        >(DecodeError::MalformedText),
{
    UDPDatagramHeader::from_bytes(buffer)
}

/// Decoding a transport header and then re-encoding its numeric fields
/// reproduces exactly the bytes they were decoded from: the header's
/// little-endian layout is self-consistent.
pub proof fn lemma_transport_numeric_round_trip(b: Seq<u8>, h: UDPDatagramHeader)
    requires
        b.len() >= 20,
        is_transport_decode(b, h),
    ensures
        seq![h.version_maj, h.version_min] == b.subrange(6, 8),
        u32_le_bytes(h.total_length as int) == b.subrange(8, 12),
        u32_le_bytes(h.identification as int) == b.subrange(12, 16),
        u32_le_bytes(h.fragment_offset as int) == b.subrange(16, 20),
{
    assert(seq![h.version_maj, h.version_min] =~= b.subrange(6, 8));
    lemma_u32_le_bytes_round_trip(b.subrange(8, 12));
    lemma_u32_le_bytes_round_trip(b.subrange(12, 16));
    lemma_u32_le_bytes_round_trip(b.subrange(16, 20));
}

} // verus!
