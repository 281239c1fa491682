use zipline::codec::decode_message;
use zipline::codec::encode_message;
use zipline::secp256k1_defs::iter_signature_offsets;
use zipline::state::ZiplineAccountMeta;
use zipline::state::ZiplineInstruction;
use zipline::state::ZiplineMessage;
use zipline::zipline::authority_seeds;
use zipline::zipline::execute;
use zipline::zipline::initialize;
use zipline::zipline::pulley_seeds;
use zipline::zipline::Pulley;
use zipline::secp256k1_program_id;
use zipline::verify_message;
use zipline::ErrorCode;
use zipline::IntrospectedInstruction;

const PROGRAM_ID: [u8; 32] = [9u8; 32];
const ETH_ADDRESS: [u8; 20] = [0xAB; 20];

fn sample_message(nonce: u64) -> ZiplineMessage {
    // A system-transfer-like operation: 10 units from the delegated
    // authority to the payer.
    let mut data = Vec::new();
    data.extend_from_slice(&2u32.to_le_bytes());
    data.extend_from_slice(&10u64.to_le_bytes());
    ZiplineMessage {
        nonce,
        instructions: vec![ZiplineInstruction {
            program_id: [0u8; 32],
            accounts: vec![
                ZiplineAccountMeta {
                    pubkey: [1u8; 32],
                    is_signer: true,
                    is_writable: true,
                },
                ZiplineAccountMeta {
                    pubkey: [2u8; 32],
                    is_signer: false,
                    is_writable: true,
                },
            ],
            data,
        }],
    }
}

/// The secp256k1 verification instruction's data: a count of one and one
/// offset record binding signature, address and message to instruction
/// `current` at the canonical argument layout.
fn binding_offsets_data(current: u8, message_size: u16) -> Vec<u8> {
    let mut d = vec![1u8];
    d.extend_from_slice(&8u16.to_le_bytes());
    d.push(current);
    d.extend_from_slice(&73u16.to_le_bytes());
    d.push(current);
    d.extend_from_slice(&97u16.to_le_bytes());
    d.extend_from_slice(&message_size.to_le_bytes());
    d.push(current);
    d
}

/// The current call's own argument bytes: method discriminator, signature,
/// recovery id, Ethereum address, then the length-prefixed context string
/// and the encoded batch.
fn current_call_data(eth_address: &[u8; 20], prefix: &str, encoded: &[u8]) -> Vec<u8> {
    let mut d = vec![0u8; 8];
    d.extend_from_slice(&[0u8; 64]);
    d.push(0);
    d.extend_from_slice(eth_address);
    d.extend_from_slice(&(prefix.len() as u32).to_le_bytes());
    d.extend_from_slice(prefix.as_bytes());
    d.extend_from_slice(encoded);
    d
}

/// A two-step transaction: the verification step, then the current call.
fn two_steps(current_data: Vec<u8>, secp_data: Vec<u8>) -> Vec<IntrospectedInstruction> {
    vec![
        IntrospectedInstruction {
            program_id: secp256k1_program_id(),
            data: secp_data,
        },
        IntrospectedInstruction {
            program_id: PROGRAM_ID,
            data: current_data,
        },
    ]
}

fn well_formed_call(
    message: &ZiplineMessage,
) -> (Vec<IntrospectedInstruction>, u16, String) {
    let encoded = encode_message(message);
    let prefix = format!("\x19Ethereum Signed Message:\n{}", encoded.len());
    let current = current_call_data(&ETH_ADDRESS, &prefix, &encoded);
    let message_size = (current.len() - 97) as u16;
    let steps = two_steps(current, binding_offsets_data(1, message_size));
    (steps, 1, prefix)
}

#[test]
fn test_execute() {
    let mut pulley = initialize(ETH_ADDRESS, 250);
    assert_eq!(pulley.nonce, 0);
    let message = sample_message(1);
    let (steps, current_index, prefix) = well_formed_call(&message);
    let r = execute(
        &mut pulley,
        &[0u8; 64],
        0,
        &ETH_ADDRESS,
        &prefix,
        message,
        &steps,
        current_index,
        &PROGRAM_ID,
    );
    let operations = r.expect("a correctly bound batch must execute");
    assert_eq!(operations.len(), 1);
    assert_eq!(operations[0].program_id, [0u8; 32]);
    assert_eq!(operations[0].accounts.len(), 2);
    assert_eq!(pulley.nonce, 1);
    assert_eq!(pulley.eth_address, ETH_ADDRESS);

    // The identical call a second time must fail: the sequence number no
    // longer exceeds the stored counter.  Nothing else changes.
    let message = sample_message(1);
    let (steps, current_index, prefix) = well_formed_call(&message);
    let r = execute(
        &mut pulley,
        &[0u8; 64],
        0,
        &ETH_ADDRESS,
        &prefix,
        message,
        &steps,
        current_index,
        &PROGRAM_ID,
    );
    assert_eq!(r.unwrap_err(), ErrorCode::InvalidSequence);
    assert_eq!(pulley.nonce, 1);
}

#[test]
fn test_execute_invalid_sequence_leaves_counter() {
    let mut pulley = Pulley {
        zipline_bump: 3,
        eth_address: ETH_ADDRESS,
        nonce: 7,
    };
    let message = sample_message(7);
    let (steps, current_index, prefix) = well_formed_call(&message);
    let r = execute(
        &mut pulley,
        &[0u8; 64],
        0,
        &ETH_ADDRESS,
        &prefix,
        message,
        &steps,
        current_index,
        &PROGRAM_ID,
    );
    assert_eq!(r.unwrap_err(), ErrorCode::InvalidSequence);
    assert_eq!(pulley.nonce, 7);
    assert_eq!(pulley.eth_address, ETH_ADDRESS);
}

#[test]
fn test_execute_wrong_address() {
    let mut pulley = initialize(ETH_ADDRESS, 0);
    let message = sample_message(1);
    let (steps, current_index, prefix) = well_formed_call(&message);
    let other: [u8; 20] = [0xCD; 20];
    let r = execute(
        &mut pulley,
        &[0u8; 64],
        0,
        &other,
        &prefix,
        message,
        &steps,
        current_index,
        &PROGRAM_ID,
    );
    assert_eq!(r.unwrap_err(), ErrorCode::InvalidAddress);
    assert_eq!(pulley.nonce, 0);
}

#[test]
fn test_execute_counter_tracks_call_count_not_sequence() {
    // Documented quirk: the stored counter rises by one per successful call,
    // it is not set to the submitted sequence number.  After submitting
    // sequence 100 the counter is 1, so sequence 2 still succeeds.
    let mut pulley = initialize(ETH_ADDRESS, 0);
    let message = sample_message(100);
    let (steps, current_index, prefix) = well_formed_call(&message);
    execute(
        &mut pulley,
        &[0u8; 64],
        0,
        &ETH_ADDRESS,
        &prefix,
        message,
        &steps,
        current_index,
        &PROGRAM_ID,
    )
    .expect("sequence 100 against counter 0 must pass");
    assert_eq!(pulley.nonce, 1);

    let message = sample_message(2);
    let (steps, current_index, prefix) = well_formed_call(&message);
    execute(
        &mut pulley,
        &[0u8; 64],
        0,
        &ETH_ADDRESS,
        &prefix,
        message,
        &steps,
        current_index,
        &PROGRAM_ID,
    )
    .expect("sequence 2 against counter 1 must pass");
    assert_eq!(pulley.nonce, 2);
}

#[test]
fn test_execute_verification_failure_keeps_record() {
    // A batch whose binding check fails yields no operations at all and
    // leaves the record untouched: there is no partial replay plan.
    let mut pulley = initialize(ETH_ADDRESS, 0);
    let message = sample_message(1);
    let encoded = encode_message(&message);
    let prefix = format!("\x19Ethereum Signed Message:\n{}", encoded.len());
    let current = current_call_data(&ETH_ADDRESS, &prefix, &encoded);
    let message_size = (current.len() - 97) as u16;
    // Message offset shifted down by one byte.
    let mut secp_data = binding_offsets_data(1, message_size);
    secp_data[6] = 96;
    let steps = two_steps(current, secp_data);
    let r = execute(
        &mut pulley,
        &[0u8; 64],
        0,
        &ETH_ADDRESS,
        &prefix,
        message,
        &steps,
        1,
        &PROGRAM_ID,
    );
    assert_eq!(r.unwrap_err(), ErrorCode::InvalidDataOffsets);
    assert_eq!(pulley.nonce, 0);
}

#[test]
fn test_retry_after_rollback_succeeds() {
    // If a replayed operation fails, the host aborts the transaction and the
    // record keeps its pre-call state; resubmitting the identical batch
    // against that state succeeds.
    let before = initialize(ETH_ADDRESS, 0);
    let mut attempt = before;
    let message = sample_message(1);
    let (steps, current_index, prefix) = well_formed_call(&message);
    let operations = execute(
        &mut attempt,
        &[0u8; 64],
        0,
        &ETH_ADDRESS,
        &prefix,
        message,
        &steps,
        current_index,
        &PROGRAM_ID,
    )
    .expect("the batch must pass verification");
    assert_eq!(operations.len(), 1);
    // The second replayed operation fails host-side: the whole transaction
    // rolls back to `before`.
    let mut retried = before;
    assert_eq!(retried.nonce, 0);
    let message = sample_message(1);
    let (steps, current_index, prefix) = well_formed_call(&message);
    execute(
        &mut retried,
        &[0u8; 64],
        0,
        &ETH_ADDRESS,
        &prefix,
        message,
        &steps,
        current_index,
        &PROGRAM_ID,
    )
    .expect("the identical resubmission must pass again");
    assert_eq!(retried.nonce, 1);
}

#[test]
fn test_verify_message_accepts_correct_binding() {
    let message = sample_message(1);
    let (steps, current_index, _) = well_formed_call(&message);
    assert_eq!(verify_message(&steps, current_index, &PROGRAM_ID), Ok(()));
}

#[test]
fn test_verify_message_first_instruction() {
    let steps = vec![IntrospectedInstruction {
        program_id: PROGRAM_ID,
        data: vec![0u8; 97],
    }];
    assert_eq!(
        verify_message(&steps, 0, &PROGRAM_ID),
        Err(ErrorCode::MissingPrecedingInstruction)
    );
}

#[test]
fn test_verify_message_not_top_level() {
    let message = sample_message(1);
    let (mut steps, current_index, _) = well_formed_call(&message);
    steps[1].program_id = [77u8; 32];
    assert_eq!(
        verify_message(&steps, current_index, &PROGRAM_ID),
        Err(ErrorCode::NotTopLevelCall)
    );
}

#[test]
fn test_verify_message_wrong_predecessor() {
    let message = sample_message(1);
    let (mut steps, current_index, _) = well_formed_call(&message);
    steps[0].program_id = [77u8; 32];
    assert_eq!(
        verify_message(&steps, current_index, &PROGRAM_ID),
        Err(ErrorCode::NotASignatureVerification)
    );
}

#[test]
fn test_verify_message_zero_signatures() {
    let message = sample_message(1);
    let (mut steps, current_index, _) = well_formed_call(&message);
    steps[0].data = vec![0u8];
    assert_eq!(
        verify_message(&steps, current_index, &PROGRAM_ID),
        Err(ErrorCode::MissingSignature)
    );
}

#[test]
fn test_verify_message_malformed_table() {
    let message = sample_message(1);
    let (mut steps, current_index, _) = well_formed_call(&message);
    steps[0].data = vec![2u8, 0u8];
    assert_eq!(
        verify_message(&steps, current_index, &PROGRAM_ID),
        Err(ErrorCode::MalformedOffsetTable)
    );
}

#[test]
fn test_verify_message_size_shifted_by_one_fails() {
    let message = sample_message(1);
    let encoded = encode_message(&message);
    let prefix = format!("\x19Ethereum Signed Message:\n{}", encoded.len());
    let current = current_call_data(&ETH_ADDRESS, &prefix, &encoded);
    let message_size = (current.len() - 97) as u16;
    for shifted in [message_size - 1, message_size + 1] {
        let steps = two_steps(current.clone(), binding_offsets_data(1, shifted));
        assert_eq!(
            verify_message(&steps, 1, &PROGRAM_ID),
            Err(ErrorCode::InvalidDataOffsets)
        );
    }
}

#[test]
fn test_verify_message_offset_shifted_by_one_fails() {
    let message = sample_message(1);
    let encoded = encode_message(&message);
    let prefix = format!("\x19Ethereum Signed Message:\n{}", encoded.len());
    let current = current_call_data(&ETH_ADDRESS, &prefix, &encoded);
    let message_size = (current.len() - 97) as u16;
    for shifted in [96u16, 98u16] {
        let mut secp_data = binding_offsets_data(1, message_size);
        secp_data[6..8].copy_from_slice(&shifted.to_le_bytes());
        let steps = two_steps(current.clone(), secp_data);
        assert_eq!(
            verify_message(&steps, 1, &PROGRAM_ID),
            Err(ErrorCode::InvalidDataOffsets)
        );
    }
}

#[test]
fn test_verify_message_wrong_instruction_index_fails() {
    let message = sample_message(1);
    let (mut steps, current_index, _) = well_formed_call(&message);
    // The signature record points at instruction 0 instead of the current
    // call: the signature was checked against some other instruction.
    steps[0].data[3] = 0;
    assert_eq!(
        verify_message(&steps, current_index, &PROGRAM_ID),
        Err(ErrorCode::InvalidDataOffsets)
    );
}

#[test]
fn test_iter_signature_offsets_parses_fields() {
    let data = binding_offsets_data(1, 0x1234);
    let offsets = iter_signature_offsets(&data).expect("a complete table must parse");
    assert_eq!(offsets.len(), 1);
    let record = &offsets[0];
    assert_eq!(record.signature_offset, 8);
    assert_eq!(record.signature_instruction_index, 1);
    assert_eq!(record.eth_address_offset, 73);
    assert_eq!(record.eth_address_instruction_index, 1);
    assert_eq!(record.message_data_offset, 97);
    assert_eq!(record.message_data_size, 0x1234);
    assert_eq!(record.message_instruction_index, 1);
}

#[test]
fn test_iter_signature_offsets_two_records() {
    let mut data = vec![2u8];
    for k in 0..2u8 {
        data.extend_from_slice(&(0x0100u16 + k as u16).to_le_bytes());
        data.push(k);
        data.extend_from_slice(&(0x0200u16 + k as u16).to_le_bytes());
        data.push(k);
        data.extend_from_slice(&(0x0300u16 + k as u16).to_le_bytes());
        data.extend_from_slice(&(0x0400u16 + k as u16).to_le_bytes());
        data.push(k);
    }
    let offsets = iter_signature_offsets(&data).expect("two full records must parse");
    assert_eq!(offsets.len(), 2);
    assert_eq!(offsets[0].signature_offset, 0x0100);
    assert_eq!(offsets[1].signature_offset, 0x0101);
    assert_eq!(offsets[1].eth_address_offset, 0x0201);
    assert_eq!(offsets[1].message_data_offset, 0x0301);
    assert_eq!(offsets[1].message_data_size, 0x0401);
    assert_eq!(offsets[1].message_instruction_index, 1);
}

#[test]
fn test_iter_signature_offsets_empty_input() {
    let data: Vec<u8> = Vec::new();
    assert_eq!(
        iter_signature_offsets(&data).unwrap_err(),
        ErrorCode::MalformedOffsetTable
    );
}

#[test]
fn test_iter_signature_offsets_truncated_table() {
    // One declared record, but only ten of its eleven bytes supplied.
    let data = vec![1u8, 0, 0, 0, 0, 0, 0, 0, 0, 0, 0];
    assert_eq!(
        iter_signature_offsets(&data).unwrap_err(),
        ErrorCode::MalformedOffsetTable
    );
}

#[test]
fn test_encode_message_exact_bytes() {
    let message = ZiplineMessage {
        nonce: 5,
        instructions: vec![ZiplineInstruction {
            program_id: [7u8; 32],
            accounts: vec![ZiplineAccountMeta {
                pubkey: [3u8; 32],
                is_signer: true,
                is_writable: false,
            }],
            data: vec![0xAA, 0xBB],
        }],
    };
    let mut expected = Vec::new();
    expected.extend_from_slice(&5u64.to_le_bytes());
    expected.extend_from_slice(&1u32.to_le_bytes());
    expected.extend_from_slice(&[7u8; 32]);
    expected.extend_from_slice(&1u32.to_le_bytes());
    expected.extend_from_slice(&[3u8; 32]);
    expected.push(1);
    expected.push(0);
    expected.extend_from_slice(&2u32.to_le_bytes());
    expected.extend_from_slice(&[0xAA, 0xBB]);
    assert_eq!(encode_message(&message), expected);
}

#[test]
fn test_codec_roundtrip_concrete() {
    let message = sample_message(42);
    let encoded = encode_message(&message);
    let decoded = decode_message(&encoded).expect("an encoding must decode");
    assert_eq!(decoded.nonce, 42);
    assert_eq!(decoded.instructions.len(), 1);
    assert_eq!(decoded.instructions[0].program_id, [0u8; 32]);
    assert_eq!(decoded.instructions[0].accounts.len(), 2);
    assert!(decoded.instructions[0].accounts[0].is_signer);
    assert!(decoded.instructions[0].accounts[0].is_writable);
    assert!(!decoded.instructions[0].accounts[1].is_signer);
    assert_eq!(decoded.instructions[0].data, message.instructions[0].data);
    assert_eq!(encode_message(&decoded), encoded);
}

#[test]
fn test_decode_rejects_trailing_bytes() {
    let mut encoded = encode_message(&sample_message(1));
    encoded.push(0);
    assert!(decode_message(&encoded).is_none());
}

#[test]
fn test_decode_rejects_truncated_input() {
    let encoded = encode_message(&sample_message(1));
    let truncated = encoded[..encoded.len() - 1].to_vec();
    assert!(decode_message(&truncated).is_none());
}

#[test]
fn test_decode_rejects_bad_flag_byte() {
    let message = ZiplineMessage {
        nonce: 1,
        instructions: vec![ZiplineInstruction {
            program_id: [7u8; 32],
            accounts: vec![ZiplineAccountMeta {
                pubkey: [3u8; 32],
                is_signer: false,
                is_writable: false,
            }],
            data: Vec::new(),
        }],
    };
    let mut encoded = encode_message(&message);
    // The is-signer flag byte sits after nonce, count, target, count: make
    // it neither 0 nor 1.
    let flag_at = 8 + 4 + 32 + 4 + 32;
    assert_eq!(encoded[flag_at], 0);
    encoded[flag_at] = 2;
    assert!(decode_message(&encoded).is_none());
}

#[test]
fn test_decode_empty_batch() {
    let message = ZiplineMessage {
        nonce: 0,
        instructions: Vec::new(),
    };
    let encoded = encode_message(&message);
    assert_eq!(encoded.len(), 12);
    let decoded = decode_message(&encoded).expect("an empty batch still decodes");
    assert_eq!(decoded.nonce, 0);
    assert!(decoded.instructions.is_empty());
}

#[test]
fn test_initialize_record() {
    let pulley = initialize(ETH_ADDRESS, 254);
    assert_eq!(pulley.eth_address, ETH_ADDRESS);
    assert_eq!(pulley.zipline_bump, 254);
    assert_eq!(pulley.nonce, 0);
}

#[test]
fn test_authority_seeds_material() {
    let seeds = authority_seeds(&ETH_ADDRESS, 251);
    assert_eq!(seeds.len(), 3);
    assert_eq!(seeds[0], b"zipline".to_vec());
    assert_eq!(seeds[1], ETH_ADDRESS.to_vec());
    assert_eq!(seeds[2], vec![251]);
}

#[test]
fn test_pulley_seeds_material() {
    let seeds = pulley_seeds(&ETH_ADDRESS);
    assert_eq!(seeds.len(), 2);
    assert_eq!(seeds[0], b"pulley".to_vec());
    assert_eq!(seeds[1], ETH_ADDRESS.to_vec());
}
