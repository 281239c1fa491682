//! Delegated execution authorized by Ethereum-style secp256k1 signatures.
//!
//! An identity record binds one 20-byte Ethereum address to a delegated
//! authority on the host ledger.  Anyone may submit a batch of operations on
//! the identity's behalf, provided the transaction also carries a host
//! signature-verification step whose verified bytes are exactly the batch the
//! current call is about to execute, and the batch's sequence number exceeds
//! the counter stored in the identity record.

use vstd::prelude::*;

pub mod codec;
pub mod secp256k1_defs;
pub mod state;
pub mod zipline;

verus! {

/// Length in bytes of an Ethereum-style hashed public key.
pub const HASHED_PUBKEY_SERIALIZED_SIZE: usize = 20;

/// Byte offset of the signature inside the current call's argument bytes:
/// it sits right after the 8-byte method discriminator.
pub const SIGNATURE_ARG_OFFSET: u16 = 8;

/// Byte offset of the recovered Ethereum address inside the current call's
/// argument bytes: discriminator, then the 64-byte signature, then the
/// 1-byte recovery id.
pub const ETH_ADDRESS_ARG_OFFSET: u16 = 8 + 64 + 1;

/// Byte offset of the signed message inside the current call's argument
/// bytes: discriminator, signature, recovery id, the 20-byte address, then
/// the 4-byte length prefix of the context string.  The trailing `+ 4` skips
/// that length prefix so the offset lands on the string's first content byte,
/// and the signed span runs from there to the literal end of the arguments.
pub const MESSAGE_ARG_OFFSET: u16 = 8 + 64 + 1 + 20 + 4;

/// The reasons a call into this system can fail.  Every failure aborts the
/// whole call; no partial effect survives.
#[derive(Clone, Copy, Debug, PartialEq, Eq, Structural)]
pub enum ErrorCode {
    /// The submitted sequence number does not exceed the stored counter.
    InvalidSequence,
    /// The submitted Ethereum address does not match the identity record.
    InvalidAddress,
    /// The call is the first instruction of its transaction, so no
    /// signature-verification step can precede it.
    MissingPrecedingInstruction,
    /// The call was reached indirectly rather than as a top-level step.
    NotTopLevelCall,
    /// The preceding step's target is not the signature-verification program.
    NotASignatureVerification,
    /// The signature-verification step declares zero signature records.
    MissingSignature,
    /// An offset, length or instruction-index equality of the binding check
    /// failed.
    InvalidDataOffsets,
    /// The signature-verification instruction bytes are too short for their
    /// declared record count.
    MalformedOffsetTable,
}

/// One step of the enclosing transaction, as the host's
/// instruction-introspection facility reports it: the 32-byte target
/// identifier and the step's raw argument bytes.
pub struct IntrospectedInstruction {
    pub program_id: [u8; 32],
    pub data: Vec<u8>,
}

/// The well-known 32-byte identifier of the host's secp256k1
/// signature-verification program.
pub open spec fn spec_secp256k1_program_id() -> Seq<u8> {
    seq![
        4u8, 198, 252, 32, 240, 80, 204, 240, 85, 132, 215, 33, 28, 159, 140, 245, 158, 193, 71,
        133, 187, 22, 106, 30, 40, 48, 232, 18, 32, 0, 0, 0,
    ]
}

/// The identifier the binding verifier expects of the step that precedes the
/// current call.
pub fn secp256k1_program_id() -> (r: [u8; 32])
    ensures
        r@ == spec_secp256k1_program_id(),
{
    let r: [u8; 32] = [
        4u8, 198, 252, 32, 240, 80, 204, 240, 85, 132, 215, 33, 28, 159, 140, 245, 158, 193, 71,
        133, 187, 22, 106, 30, 40, 48, 232, 18, 32, 0, 0, 0,
    ];
    proof {
        assert(r@ =~= spec_secp256k1_program_id());
    }
    r
}

/// Compares two 32-byte identifiers for byte-for-byte equality.
pub fn bytes32_eq(a: &[u8; 32], b: &[u8; 32]) -> (r: bool)
    ensures
        r == (a@ == b@),
{
    let mut i: usize = 0;
    while i < 32
        invariant
            i <= 32,
            forall|j: int| 0 <= j < i as int ==> a@[j] == b@[j],
        decreases 32 - i,
    {
        if a[i] != b[i] {
            return false;
        }
        i = i + 1;
    }
    proof {
        assert(a@ =~= b@);
    }
    true
}

/// Compares two 20-byte Ethereum addresses for byte-for-byte equality.
pub fn bytes20_eq(a: &[u8; 20], b: &[u8; 20]) -> (r: bool)
    ensures
        r == (a@ == b@),
{
    let mut i: usize = 0;
    while i < 20
        invariant
            i <= 20,
            forall|j: int| 0 <= j < i as int ==> a@[j] == b@[j],
        decreases 20 - i,
    {
        if a[i] != b[i] {
            return false;
        }
        i = i + 1;
    }
    proof {
        assert(a@ =~= b@);
    }
    true
}

/// The first offset record binds the preceding verification step to the
/// current call: every offset points into the current instruction itself, at
/// the fixed layout of its argument bytes, and the verified span runs to the
/// exact end of those bytes.
pub open spec fn spec_offsets_bind(
    record: secp256k1_defs::SecpSignatureOffsets,
    current_index: u16,
    current_data_len: int,
) -> bool {
    &&& record.signature_offset == SIGNATURE_ARG_OFFSET
    &&& record.signature_instruction_index as int == current_index as int
    &&& record.eth_address_offset == ETH_ADDRESS_ARG_OFFSET
    &&& record.eth_address_instruction_index as int == current_index as int
    &&& record.message_data_offset == MESSAGE_ARG_OFFSET
    &&& record.message_instruction_index as int == current_index as int
    &&& record.message_data_size as int == current_data_len
        - record.message_data_offset as int
}

/// The outcome of the signature-binding verification, step by step: each
/// check in order, with the error it fails with.
pub open spec fn spec_verify_message(
    steps: Seq<IntrospectedInstruction>,
    current_index: u16,
    program_id: Seq<u8>,
) -> Result<(), ErrorCode>
    recommends
        current_index < steps.len(),
{
    if current_index == 0 {
        Err(ErrorCode::MissingPrecedingInstruction)
    } else if steps[current_index as int].program_id@ != program_id {
        Err(ErrorCode::NotTopLevelCall)
    } else if steps[current_index as int - 1].program_id@ != spec_secp256k1_program_id() {
        Err(ErrorCode::NotASignatureVerification)
    } else if !secp256k1_defs::spec_offset_table_ok(steps[current_index as int - 1].data@) {
        Err(ErrorCode::MalformedOffsetTable)
    } else if steps[current_index as int - 1].data@[0] == 0 {
        Err(ErrorCode::MissingSignature)
    } else if !spec_offsets_bind(
        secp256k1_defs::spec_offsets_at(steps[current_index as int - 1].data@, 0),
        current_index,
        steps[current_index as int].data@.len() as int,
    ) {
        Err(ErrorCode::InvalidDataOffsets)
    } else {
        Ok(())
    }
}

/// True exactly when the binding verification accepts.
pub open spec fn spec_verification_passes(
    steps: Seq<IntrospectedInstruction>,
    current_index: u16,
    program_id: Seq<u8>,
) -> bool {
    spec_verify_message(steps, current_index, program_id) == Ok::<(), ErrorCode>(())
}

/// What an accepted verification proves.  Whenever the binding check passes:
/// a verification step stands immediately before the current call; every
/// offset record field points back into the current call itself; and the
/// span the verification step attests runs from the first content byte of
/// the context string to the literal end of the current call's argument
/// bytes, with no slack.  Since the encoded batch sits at the end of those
/// bytes, the bytes the precompile verified are byte-identical to the
/// context string content plus the batch the call is about to execute.
pub proof fn lemma_verification_binds_exact_span(
    steps: Seq<IntrospectedInstruction>,
    current_index: u16,
    program_id: Seq<u8>,
)
    requires
        current_index < steps.len(),
        spec_verification_passes(steps, current_index, program_id),
    ensures
        current_index >= 1,
        steps[current_index as int].program_id@ == program_id,
        steps[current_index as int - 1].program_id@ == spec_secp256k1_program_id(),
        ({
            let record = secp256k1_defs::spec_offsets_at(
                steps[current_index as int - 1].data@,
                0,
            );
            let current_data = steps[current_index as int].data@;
            &&& record.signature_offset == SIGNATURE_ARG_OFFSET
            &&& record.eth_address_offset == ETH_ADDRESS_ARG_OFFSET
            &&& record.message_data_offset == MESSAGE_ARG_OFFSET
            &&& record.signature_instruction_index as int == current_index as int
            &&& record.eth_address_instruction_index as int == current_index as int
            &&& record.message_instruction_index as int == current_index as int
            &&& record.message_data_offset as int + record.message_data_size as int
                == current_data.len()
            &&& current_data.subrange(
                record.message_data_offset as int,
                record.message_data_offset as int + record.message_data_size as int,
            ) == current_data.skip(MESSAGE_ARG_OFFSET as int)
        }),
{
    let record = secp256k1_defs::spec_offsets_at(steps[current_index as int - 1].data@, 0);
    let current_data = steps[current_index as int].data@;
    assert(current_data.subrange(
        record.message_data_offset as int,
        record.message_data_offset as int + record.message_data_size as int,
    ) =~= current_data.skip(MESSAGE_ARG_OFFSET as int));
}

/// The signature-binding verification: succeeds exactly when the transaction
/// proves that a secp256k1 verification step immediately precedes the current
/// call and that the bytes it verified are exactly the current call's own
/// trailing argument bytes (context string content plus encoded batch).
///
/// `steps` is the transaction as the host's introspection facility reports
/// it, `current_index` the index of the current call within it, and
/// `program_id` this system's own identifier.
pub fn verify_message(
    steps: &Vec<IntrospectedInstruction>,
    current_index: u16,
    program_id: &[u8; 32],
) -> (r: Result<(), ErrorCode>)
    requires
        (current_index as int) < steps@.len(),
    ensures
        r == spec_verify_message(steps@, current_index, program_id@),
{
    if current_index == 0 {
        return Err(ErrorCode::MissingPrecedingInstruction);
    }
    let current_ixn = &steps[current_index as usize];
    if !bytes32_eq(&current_ixn.program_id, program_id) {
        return Err(ErrorCode::NotTopLevelCall);
    }
    let secp256k1_ixn = &steps[(current_index - 1) as usize];
    let expected_id = secp256k1_program_id();
    if !bytes32_eq(&secp256k1_ixn.program_id, &expected_id) {
        return Err(ErrorCode::NotASignatureVerification);
    }
    let offsets = match secp256k1_defs::iter_signature_offsets(&secp256k1_ixn.data) {
        Ok(offsets) => offsets,
        Err(e) => {
            return Err(e);
        },
    };
    if offsets.len() == 0 {
        return Err(ErrorCode::MissingSignature);
    }
    let record = &offsets[0];
    if record.signature_offset != SIGNATURE_ARG_OFFSET {
        return Err(ErrorCode::InvalidDataOffsets);
    }
    if record.signature_instruction_index as u16 != current_index {
        return Err(ErrorCode::InvalidDataOffsets);
    }
    if record.eth_address_offset != ETH_ADDRESS_ARG_OFFSET {
        return Err(ErrorCode::InvalidDataOffsets);
    }
    if record.eth_address_instruction_index as u16 != current_index {
        return Err(ErrorCode::InvalidDataOffsets);
    }
    if record.message_data_offset != MESSAGE_ARG_OFFSET {
        return Err(ErrorCode::InvalidDataOffsets);
    }
    if record.message_instruction_index as u16 != current_index {
        return Err(ErrorCode::InvalidDataOffsets);
    }
    let current_data_len = current_ixn.data.len();
    if current_data_len < MESSAGE_ARG_OFFSET as usize {
        return Err(ErrorCode::InvalidDataOffsets);
    }
    if record.message_data_size as usize != current_data_len - MESSAGE_ARG_OFFSET as usize {
        return Err(ErrorCode::InvalidDataOffsets);
    }
    Ok(())
}

} // verus!
