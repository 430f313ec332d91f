//! The payload header of a reassembled telegram and the sub-blocks its
//! block table names.
//!
//! The payload opens with a fixed 56-byte preamble that ends in a table of
//! six block descriptors.  Each descriptor names a byte range of the
//! payload holding one category of sensor data; a descriptor with size
//! zero marks the block as absent.  Only the output-configuration block has
//! a decoder here — the other blocks are handed out as opaque byte ranges
//! through [`Block::slice_of`] until their layouts are fixed.

use crate::angle::{decode_angle, Angle};
use crate::wire::{i32_le, read_i32_le, read_u16_le, read_u32_le, read_u8, u16_le, u32_le};
use crate::DecodeError;
use vstd::prelude::*;

verus! {

/// Minimum byte length of the payload header: the fixed preamble through
/// the last block descriptor.  A full payload-header frame is at least 64
/// bytes; the trailing reserved bytes are not read here.
pub const DATA_OUTPUT_HEADER_LEN: usize = 56;

/// Minimum byte length of the output-configuration block.
pub const OUTPUT_CONFIGURATION_BLOCK_LEN: usize = 20;

/// One entry of the payload header's block table: the byte range of a
/// sub-block, relative to the start of the payload.
#[derive(Clone, Copy, Debug, PartialEq, Eq, Structural)]
pub struct Block {
    pub offset: u16,
    pub size: u16,
}

impl Block {
    /// The end of the byte range the descriptor names.
    pub open spec fn spec_end(self) -> int {
        self.offset + self.size
    }

    /// The descriptor's range lies inside a payload of `n` bytes.
    pub open spec fn spec_in_range(self, n: int) -> bool {
        self.offset + self.size <= n
    }

    /// A descriptor of size zero marks the block as absent.
    pub fn is_absent(&self) -> (r: bool)
        ensures
            r == (self.size == 0),
    {
        self.size == 0
    }

    /// Hands out the payload slice the descriptor names, or
    /// `BlockOutOfRange` when the range reaches past the payload's end —
    /// the descriptor is never trusted to be in bounds.
    pub fn slice_of<'a>(&self, payload: &'a [u8]) -> (r: Result<&'a [u8], DecodeError>)
        ensures
            r is Ok <==> self.spec_in_range(payload@.len() as int),
            !self.spec_in_range(payload@.len() as int) ==> r == Err::<&'a [u8], DecodeError>(
                DecodeError::BlockOutOfRange,
            ),
            r matches Ok(s) ==> s@ == payload@.subrange(self.offset as int, self.spec_end()),
    {
        let start = self.offset as usize;
        let end = self.offset as usize + self.size as usize;
        if end <= payload.len() {
            Ok(vstd::slice::slice_subrange(payload, start, end))
        } else {
            Err(DecodeError::BlockOutOfRange)
        }
    }
}

/// The decoded fixed preamble of a telegram payload, with the block table
/// locating the six variable sub-blocks.
#[derive(Clone, Copy, Debug, PartialEq, Eq, Structural)]
pub struct DataOutputHeader {
    pub version: u8,
    pub version_major: u8,
    pub version_minor: u8,
    pub release: u8,
    pub device_serial_number: u32,
    pub system_plug_serial_number: u32,
    pub channel_number: u8,
    pub sequence_number: u32,
    pub scan_number: u32,
    pub time_stamp_date: u16,
    pub time_stamp_time: u32,
    pub device_status_block: Block,
    pub output_configuration_block: Block,
    pub measurement_data_block: Block,
    pub field_interruption_block: Block,
    pub application_data_block: Block,
    pub local_ios_block: Block,
}

/// The header `h` is the decoding of the first 56 bytes of `b`.
pub open spec fn is_data_output_decode(b: Seq<u8>, h: DataOutputHeader) -> bool {
    &&& h.version == b[0]
    &&& h.version_major == b[1]
    &&& h.version_minor == b[2]
    &&& h.release == b[3]
    &&& h.device_serial_number == u32_le(b.subrange(4, 8))
    &&& h.system_plug_serial_number == u32_le(b.subrange(8, 12))
    &&& h.channel_number == b[12]
    &&& h.sequence_number == u32_le(b.subrange(16, 20))
    &&& h.scan_number == u32_le(b.subrange(20, 24))
    &&& h.time_stamp_date == u16_le(b.subrange(24, 26))
    &&& h.time_stamp_time == u32_le(b.subrange(28, 32))
    &&& is_block_decode(b, 32, h.device_status_block)
    &&& is_block_decode(b, 36, h.output_configuration_block)
    &&& is_block_decode(b, 40, h.measurement_data_block)
    &&& is_block_decode(b, 44, h.field_interruption_block)
    &&& is_block_decode(b, 48, h.application_data_block)
    &&& is_block_decode(b, 52, h.local_ios_block)
}

/// The descriptor `blk` is the decoding of the 4-byte table entry at `i`.
pub open spec fn is_block_decode(b: Seq<u8>, i: int, blk: Block) -> bool {
    &&& blk.offset == u16_le(b.subrange(i, i + 2))
    &&& blk.size == u16_le(b.subrange(i + 2, i + 4))
}

impl DataOutputHeader {
    /// Decodes the payload header at the front of a reassembled telegram
    /// payload.
    ///
    /// Fails with `TooShort` when fewer than 56 bytes are supplied; any
    /// longer buffer decodes.  The block table is not validated against the
    /// payload length here — a block decoder checks its own range and
    /// fails with `BlockOutOfRange` instead of reading out of bounds.
    pub fn from_bytes(bytes: &[u8]) -> (r: Result<DataOutputHeader, DecodeError>)
        ensures
            r is Ok <==> bytes@.len() >= 56,
            bytes@.len() < 56 ==> r == Err::<DataOutputHeader, DecodeError>(DecodeError::TooShort),
            r matches Ok(h) ==> is_data_output_decode(bytes@, h),
    {
        if bytes.len() < DATA_OUTPUT_HEADER_LEN {
            return Err(DecodeError::TooShort);
        }
        Ok(
            DataOutputHeader {
                version: read_u8(bytes, 0),
                version_major: read_u8(bytes, 1),
                version_minor: read_u8(bytes, 2),
                release: read_u8(bytes, 3),
                device_serial_number: read_u32_le(bytes, 4),
                system_plug_serial_number: read_u32_le(bytes, 8),
                channel_number: read_u8(bytes, 12),
                sequence_number: read_u32_le(bytes, 16),
                scan_number: read_u32_le(bytes, 20),
                time_stamp_date: read_u16_le(bytes, 24),
                time_stamp_time: read_u32_le(bytes, 28),
                device_status_block: read_block(bytes, 32),
                output_configuration_block: read_block(bytes, 36),
                measurement_data_block: read_block(bytes, 40),
                field_interruption_block: read_block(bytes, 44),
                application_data_block: read_block(bytes, 48),
                local_ios_block: read_block(bytes, 52),
            },
        )
    }
}

/// Reads the 4-byte block descriptor at `i`.
fn read_block(bytes: &[u8], i: usize) -> (r: Block)
    requires
        i + 4 <= bytes@.len(),
    ensures
        is_block_decode(bytes@, i as int, r),
{
    let _n = bytes.len();
    Block { offset: read_u16_le(bytes, i), size: read_u16_le(bytes, i + 2) }
}

/// The decoded output-configuration block of a telegram.
#[derive(Clone, Copy, Debug, PartialEq, Eq, Structural)]
pub struct OutputConfigurationBlock {
    /// Scaling factor for measurement values; carried through undecoded
    /// beyond its numeric value.
    pub factor: u16,
    pub number_of_beams: u16,
    /// Milliseconds per scan cycle.
    pub scan_cycle_time: u16,
    pub start_angle: Angle,
    pub angular_resolution: Angle,
    /// Nanoseconds between two beams.
    pub beam_interval: u32,
}

/// The block `c` is the decoding of the first 20 bytes of `b`.
pub open spec fn is_output_configuration_decode(b: Seq<u8>, c: OutputConfigurationBlock) -> bool {
    &&& c.factor == u16_le(b.subrange(0, 2))
    &&& c.number_of_beams == u16_le(b.subrange(2, 4))
    &&& c.scan_cycle_time == u16_le(b.subrange(4, 6))
    &&& c.start_angle.wf()
    &&& c.start_angle.subunits() == i32_le(b.subrange(8, 12))
    &&& c.angular_resolution.wf()
    &&& c.angular_resolution.subunits() == i32_le(b.subrange(12, 16))
    &&& c.beam_interval == u32_le(b.subrange(16, 20))
}

impl OutputConfigurationBlock {
    /// Decodes an output-configuration block from exactly the payload
    /// slice its descriptor names.
    ///
    /// Fails with `TooShort` when fewer than 20 bytes are supplied; any
    /// longer buffer decodes.  Both angles arrive as raw fixed-point
    /// values and are decoded exactly by [`decode_angle`].
    pub fn from_bytes(bytes: &[u8]) -> (r: Result<OutputConfigurationBlock, DecodeError>)
        ensures
            r is Ok <==> bytes@.len() >= 20,
            bytes@.len() < 20 ==> r == Err::<OutputConfigurationBlock, DecodeError>(
                DecodeError::TooShort,
            ),
            r matches Ok(c) ==> is_output_configuration_decode(bytes@, c),
    {
        if bytes.len() < OUTPUT_CONFIGURATION_BLOCK_LEN {
            return Err(DecodeError::TooShort);
        }
        Ok(
            OutputConfigurationBlock {
                factor: read_u16_le(bytes, 0),
                number_of_beams: read_u16_le(bytes, 2),
                scan_cycle_time: read_u16_le(bytes, 4),
                start_angle: decode_angle(read_i32_le(bytes, 8)),
                angular_resolution: decode_angle(read_i32_le(bytes, 12)),
                beam_interval: read_u32_le(bytes, 16),
            },
        )
    }

    /// Decodes the output-configuration block that `block` names inside
    /// `payload`.
    ///
    /// Fails with `BlockOutOfRange` when the descriptor's range reaches
    /// past the payload's end — the descriptor is never trusted, so no
    /// out-of-bounds read can happen — and with `TooShort` when the range
    /// is in bounds but smaller than the block's 20-byte minimum.
    pub fn from_payload(payload: &[u8], block: &Block) -> (r: Result<
        OutputConfigurationBlock,
        DecodeError,
    >)
        ensures
            r is Ok <==> block.spec_in_range(payload@.len() as int) && block.size >= 20,
            !block.spec_in_range(payload@.len() as int) ==> r == Err::<
                OutputConfigurationBlock,
                DecodeError,
            >(DecodeError::BlockOutOfRange),
            block.spec_in_range(payload@.len() as int) && block.size < 20 ==> r == Err::<
                OutputConfigurationBlock,
                DecodeError,
            >(DecodeError::TooShort),
            r matches Ok(c) ==> is_output_configuration_decode(
                payload@.subrange(block.offset as int, block.spec_end()),
                c,
            ),
    {
        match block.slice_of(payload) {
            Ok(bytes) => Self::from_bytes(bytes),
            Err(e) => Err(e),
        }
    }
}

} // verus!
