//! The self-describing offset table at the front of a secp256k1
//! signature-verification instruction's data.
//!
//! Byte 0 is a record count `n`; bytes `[1, 1 + n * 11)` hold `n` fixed-size
//! 11-byte records.  Each record says where the precompile found a signature,
//! a recovered address and a signed message, and in which instruction of the
//! transaction each of them lives.  No positional or semantic validation
//! happens here; that is the binding verifier's job.

use vstd::prelude::*;

use crate::ErrorCode;

verus! {

/// Length in bytes of a serialized secp256k1 signature (without recovery id).
pub const SIGNATURE_SERIALIZED_SIZE: usize = 64;

/// Length in bytes of one serialized signature-offset record.
pub const SIGNATURE_OFFSETS_SERIALIZED_SIZE: usize = 11;

/// One signature-offset record of the verification instruction's table.
#[derive(Clone, Copy, Debug, PartialEq, Eq, Structural)]
pub struct SecpSignatureOffsets {
    pub signature_offset: u16,
    pub signature_instruction_index: u8,
    pub eth_address_offset: u16,
    pub eth_address_instruction_index: u8,
    pub message_data_offset: u16,
    pub message_data_size: u16,
    pub message_instruction_index: u8,
}

/// The 16-bit value stored little-endian as the byte pair `(lo, hi)`.
pub open spec fn spec_u16_le(lo: u8, hi: u8) -> u16 {
    (lo as u16) | ((hi as u16) << 8)
}

/// The instruction data holds a count byte and as many 11-byte records as
/// that byte declares.
pub open spec fn spec_offset_table_ok(data: Seq<u8>) -> bool {
    &&& data.len() >= 1
    &&& data.len() >= 1 + (SIGNATURE_OFFSETS_SERIALIZED_SIZE as int) * (data[0] as int)
}

/// The signature-offset record serialized at bytes
/// `[1 + 11 * i, 1 + 11 * (i + 1))` of the instruction data.
pub open spec fn spec_offsets_at(data: Seq<u8>, i: int) -> SecpSignatureOffsets {
    let base = 1 + (SIGNATURE_OFFSETS_SERIALIZED_SIZE as int) * i;
    SecpSignatureOffsets {
        signature_offset: spec_u16_le(data[base], data[base + 1]),
        signature_instruction_index: data[base + 2],
        eth_address_offset: spec_u16_le(data[base + 3], data[base + 4]),
        eth_address_instruction_index: data[base + 5],
        message_data_offset: spec_u16_le(data[base + 6], data[base + 7]),
        message_data_size: spec_u16_le(data[base + 8], data[base + 9]),
        message_instruction_index: data[base + 10],
    }
}

/// Decodes the offset table of a secp256k1 verification instruction: the
/// count byte, then one record per declared signature, in table order.
///
/// Fails with `MalformedOffsetTable` exactly when the supplied bytes are too
/// short for the declared record count (or hold no count byte at all).
pub fn iter_signature_offsets(secp256k1_instr_data: &Vec<u8>) -> (r: Result<
    Vec<SecpSignatureOffsets>,
    ErrorCode,
>)
    ensures
        match r {
            Ok(offsets) => {
                &&& spec_offset_table_ok(secp256k1_instr_data@)
                &&& offsets@.len() == secp256k1_instr_data@[0] as int
                &&& forall|i: int|
                    0 <= i < offsets@.len() ==> offsets@[i] == spec_offsets_at(
                        secp256k1_instr_data@,
                        i,
                    )
            },
            Err(e) => {
                &&& e == ErrorCode::MalformedOffsetTable
                &&& !spec_offset_table_ok(secp256k1_instr_data@)
            },
        },
{
    if secp256k1_instr_data.len() == 0 {
        return Err(ErrorCode::MalformedOffsetTable);
    }
    let num_structs: usize = secp256k1_instr_data[0] as usize;
    let table_end: usize = 1 + SIGNATURE_OFFSETS_SERIALIZED_SIZE * num_structs;
    if secp256k1_instr_data.len() < table_end {
        return Err(ErrorCode::MalformedOffsetTable);
    }
    let mut offsets: Vec<SecpSignatureOffsets> = Vec::new();
    let mut i: usize = 0;
    while i < num_structs
        invariant
            i <= num_structs,
            num_structs == secp256k1_instr_data@[0] as int,
            secp256k1_instr_data@.len() >= 1 + (SIGNATURE_OFFSETS_SERIALIZED_SIZE as int)
                * (num_structs as int),
            offsets@.len() == i as int,
            forall|j: int|
                0 <= j < i as int ==> offsets@[j] == spec_offsets_at(secp256k1_instr_data@, j),
        decreases num_structs - i,
    {
        let base: usize = 1 + SIGNATURE_OFFSETS_SERIALIZED_SIZE * i;
        let record = SecpSignatureOffsets {
            signature_offset: u16_le(secp256k1_instr_data[base], secp256k1_instr_data[base + 1]),
            signature_instruction_index: secp256k1_instr_data[base + 2],
            eth_address_offset: u16_le(
                secp256k1_instr_data[base + 3],
                secp256k1_instr_data[base + 4],
            ),
            eth_address_instruction_index: secp256k1_instr_data[base + 5],
            message_data_offset: u16_le(
                secp256k1_instr_data[base + 6],
                secp256k1_instr_data[base + 7],
            ),
            message_data_size: u16_le(
                secp256k1_instr_data[base + 8],
                secp256k1_instr_data[base + 9],
            ),
            message_instruction_index: secp256k1_instr_data[base + 10],
        };
        offsets.push(record);
        i = i + 1;
    }
    Ok(offsets)
}

/// Reassembles the 16-bit value stored little-endian as `(lo, hi)`.
pub fn u16_le(lo: u8, hi: u8) -> (r: u16)
    ensures
        r == spec_u16_le(lo, hi),
{
    (lo as u16) | ((hi as u16) << 8)
}

} // verus!
