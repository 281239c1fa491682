//! The canonical binary form of an authorization batch.
//!
//! Encoding is a pure function of the value: the sequence number as eight
//! little-endian bytes, then the operation count as four little-endian
//! bytes, then each operation in list order (32-byte target, account count,
//! each account reference as 32-byte address plus two flag bytes, payload
//! length, payload bytes).  The binding verifier depends on this
//! byte-for-byte reproducibility: the bytes signed off-system must equal the
//! bytes reconstructed from the call's own arguments.

use vstd::bytes::spec_u32_from_le_bytes;
use vstd::bytes::spec_u32_to_le_bytes;
use vstd::bytes::spec_u64_from_le_bytes;
use vstd::bytes::spec_u64_to_le_bytes;
use vstd::bytes::u32_from_le_bytes;
use vstd::bytes::u32_to_le_bytes;
use vstd::bytes::u64_from_le_bytes;
use vstd::bytes::u64_to_le_bytes;
use vstd::prelude::*;

use crate::state::SpecAccountMeta;
use crate::state::SpecInstruction;
use crate::state::SpecMessage;
use crate::state::ZiplineAccountMeta;
use crate::state::ZiplineInstruction;
use crate::state::ZiplineMessage;

verus! {

/// The byte a flag is stored as.
pub open spec fn spec_bool_byte(flag: bool) -> u8 {
    if flag {
        1
    } else {
        0
    }
}

/// An account reference can be encoded as it stands: a 32-byte address and
/// two flag bytes.
pub open spec fn account_wf(account: SpecAccountMeta) -> bool {
    account.pubkey.len() == 32
}

/// An operation descriptor can be encoded: identifiers have their fixed
/// width and both list lengths fit the four-byte count fields.
pub open spec fn instruction_wf(instruction: SpecInstruction) -> bool {
    &&& instruction.program_id.len() == 32
    &&& instruction.accounts.len() <= u32::MAX
    &&& instruction.data.len() <= u32::MAX
    &&& forall|i: int|
        0 <= i < instruction.accounts.len() ==> account_wf(#[trigger] instruction.accounts[i])
}

/// A batch can be encoded: its operation count fits the four-byte count
/// field and every operation can be encoded.
pub open spec fn message_wf(message: SpecMessage) -> bool {
    &&& message.instructions.len() <= u32::MAX
    &&& forall|i: int|
        0 <= i < message.instructions.len() ==> instruction_wf(
            #[trigger] message.instructions[i],
        )
}

/// The encoding of one account reference.
pub open spec fn spec_encode_account(account: SpecAccountMeta) -> Seq<u8> {
    account.pubkey + seq![spec_bool_byte(account.is_signer), spec_bool_byte(account.is_writable)]
}

/// The encoding of a list of account references, in list order.
pub open spec fn spec_encode_accounts(accounts: Seq<SpecAccountMeta>) -> Seq<u8>
    decreases accounts.len(),
{
    if accounts.len() == 0 {
        Seq::empty()
    } else {
        spec_encode_account(accounts[0]) + spec_encode_accounts(accounts.drop_first())
    }
}

/// The encoding of one operation descriptor.
pub open spec fn spec_encode_instruction(instruction: SpecInstruction) -> Seq<u8> {
    instruction.program_id + spec_u32_to_le_bytes(instruction.accounts.len() as u32)
        + spec_encode_accounts(instruction.accounts) + spec_u32_to_le_bytes(
        instruction.data.len() as u32,
    ) + instruction.data
}

/// The encoding of a list of operation descriptors, in execution order.
pub open spec fn spec_encode_instructions(instructions: Seq<SpecInstruction>) -> Seq<u8>
    decreases instructions.len(),
{
    if instructions.len() == 0 {
        Seq::empty()
    } else {
        spec_encode_instruction(instructions[0]) + spec_encode_instructions(
            instructions.drop_first(),
        )
    }
}

/// The encoding of a whole batch.
pub open spec fn spec_encode_message(message: SpecMessage) -> Seq<u8> {
    spec_u64_to_le_bytes(message.nonce) + spec_u32_to_le_bytes(message.instructions.len() as u32)
        + spec_encode_instructions(message.instructions)
}

/// Splitting a list of account references splits its encoding.
proof fn lemma_encode_accounts_app(left: Seq<SpecAccountMeta>, right: Seq<SpecAccountMeta>)
    ensures
        spec_encode_accounts(left + right) == spec_encode_accounts(left) + spec_encode_accounts(
            right,
        ),
    decreases left.len(),
{
    if left.len() == 0 {
        assert(left + right =~= right);
        assert(spec_encode_accounts(left) + spec_encode_accounts(right) =~= spec_encode_accounts(
            right,
        ));
    } else {
        assert((left + right).drop_first() =~= left.drop_first() + right);
        lemma_encode_accounts_app(left.drop_first(), right);
        assert(spec_encode_account((left + right)[0]) + (spec_encode_accounts(left.drop_first())
            + spec_encode_accounts(right)) =~= (spec_encode_account(left[0])
            + spec_encode_accounts(left.drop_first())) + spec_encode_accounts(right));
    }
}

/// Extending a list of account references by one element appends that
/// element's encoding.
proof fn lemma_encode_accounts_snoc(accounts: Seq<SpecAccountMeta>, i: int)
    requires
        0 <= i < accounts.len(),
    ensures
        spec_encode_accounts(accounts.subrange(0, i + 1)) == spec_encode_accounts(
            accounts.subrange(0, i),
        ) + spec_encode_account(accounts[i]),
{
    let single = seq![accounts[i]];
    assert(accounts.subrange(0, i + 1) =~= accounts.subrange(0, i) + single);
    lemma_encode_accounts_app(accounts.subrange(0, i), single);
    assert(single.drop_first() =~= Seq::<SpecAccountMeta>::empty());
    assert(spec_encode_accounts(single) == spec_encode_account(single[0]) + spec_encode_accounts(
        single.drop_first(),
    ));
    assert(spec_encode_account(single[0]) + spec_encode_accounts(single.drop_first())
        =~= spec_encode_account(accounts[i]));
}

/// Splitting a list of operation descriptors splits its encoding.
proof fn lemma_encode_instructions_app(left: Seq<SpecInstruction>, right: Seq<SpecInstruction>)
    ensures
        spec_encode_instructions(left + right) == spec_encode_instructions(left)
            + spec_encode_instructions(right),
    decreases left.len(),
{
    if left.len() == 0 {
        assert(left + right =~= right);
        assert(spec_encode_instructions(left) + spec_encode_instructions(right)
            =~= spec_encode_instructions(right));
    } else {
        assert((left + right).drop_first() =~= left.drop_first() + right);
        lemma_encode_instructions_app(left.drop_first(), right);
        assert(spec_encode_instruction((left + right)[0]) + (spec_encode_instructions(
            left.drop_first(),
        ) + spec_encode_instructions(right)) =~= (spec_encode_instruction(left[0])
            + spec_encode_instructions(left.drop_first())) + spec_encode_instructions(right));
    }
}

/// Extending a list of operation descriptors by one element appends that
/// element's encoding.
proof fn lemma_encode_instructions_snoc(instructions: Seq<SpecInstruction>, i: int)
    requires
        0 <= i < instructions.len(),
    ensures
        spec_encode_instructions(instructions.subrange(0, i + 1)) == spec_encode_instructions(
            instructions.subrange(0, i),
        ) + spec_encode_instruction(instructions[i]),
{
    let single = seq![instructions[i]];
    assert(instructions.subrange(0, i + 1) =~= instructions.subrange(0, i) + single);
    lemma_encode_instructions_app(instructions.subrange(0, i), single);
    assert(single.drop_first() =~= Seq::<SpecInstruction>::empty());
    assert(spec_encode_instructions(single) == spec_encode_instruction(single[0])
        + spec_encode_instructions(single.drop_first()));
    assert(spec_encode_instruction(single[0]) + spec_encode_instructions(single.drop_first())
        =~= spec_encode_instruction(instructions[i]));
}

/// Appends a 32-byte identifier to the output.
fn push_bytes32(out: &mut Vec<u8>, bytes: &[u8; 32])
    ensures
        final(out)@ == old(out)@ + bytes@,
{
    let mut i: usize = 0;
    while i < 32
        invariant
            i <= 32,
            out@ == old(out)@ + bytes@.subrange(0, i as int),
        decreases 32 - i,
    {
        out.push(bytes[i]);
        proof {
            assert(old(out)@ + bytes@.subrange(0, i + 1) =~= (old(out)@ + bytes@.subrange(
                0,
                i as int,
            )).push(bytes@[i as int]));
        }
        i = i + 1;
    }
    proof {
        assert(old(out)@ + bytes@.subrange(0, 32) =~= old(out)@ + bytes@);
    }
}

/// Appends a flag byte to the output.
fn push_bool(out: &mut Vec<u8>, flag: bool)
    ensures
        final(out)@ == old(out)@ + seq![spec_bool_byte(flag)],
{
    if flag {
        out.push(1);
    } else {
        out.push(0);
    }
    proof {
        assert(old(out)@ + seq![spec_bool_byte(flag)] =~= old(out)@.push(spec_bool_byte(flag)));
    }
}

/// Appends a 32-bit count little-endian to the output.
fn push_u32_le(out: &mut Vec<u8>, x: u32)
    ensures
        final(out)@ == old(out)@ + spec_u32_to_le_bytes(x),
{
    let mut bytes = u32_to_le_bytes(x);
    out.append(&mut bytes);
}

/// Appends a 64-bit sequence number little-endian to the output.
fn push_u64_le(out: &mut Vec<u8>, x: u64)
    ensures
        final(out)@ == old(out)@ + spec_u64_to_le_bytes(x),
{
    let mut bytes = u64_to_le_bytes(x);
    out.append(&mut bytes);
}

/// Appends the encoding of one account reference to the output.
fn encode_account_into(out: &mut Vec<u8>, account: &ZiplineAccountMeta)
    ensures
        final(out)@ == old(out)@ + spec_encode_account(account@),
{
    push_bytes32(out, &account.pubkey);
    push_bool(out, account.is_signer);
    push_bool(out, account.is_writable);
    proof {
        assert(final(out)@ =~= old(out)@ + spec_encode_account(account@));
    }
}

/// Appends the encoding of one operation descriptor to the output.
fn encode_instruction_into(out: &mut Vec<u8>, instruction: &ZiplineInstruction)
    requires
        instruction_wf(instruction@),
    ensures
        final(out)@ == old(out)@ + spec_encode_instruction(instruction@),
{
    push_bytes32(out, &instruction.program_id);
    push_u32_le(out, instruction.accounts.len() as u32);
    let ghost mid = out@;
    let mut i: usize = 0;
    while i < instruction.accounts.len()
        invariant
            i <= instruction.accounts@.len(),
            instruction_wf(instruction@),
            out@ == mid + spec_encode_accounts(instruction@.accounts.subrange(0, i as int)),
        decreases instruction.accounts@.len() - i,
    {
        proof {
            assert(instruction@.accounts[i as int] == instruction.accounts@[i as int]@);
        }
        encode_account_into(out, &instruction.accounts[i]);
        proof {
            lemma_encode_accounts_snoc(instruction@.accounts, i as int);
            assert(mid + spec_encode_accounts(instruction@.accounts.subrange(0, i + 1)) =~= (mid
                + spec_encode_accounts(instruction@.accounts.subrange(0, i as int)))
                + spec_encode_account(instruction@.accounts[i as int]));
        }
        i = i + 1;
    }
    proof {
        assert(instruction@.accounts.subrange(0, instruction.accounts@.len() as int)
            =~= instruction@.accounts);
    }
    push_u32_le(out, instruction.data.len() as u32);
    let ghost before_data = out@;
    let mut j: usize = 0;
    while j < instruction.data.len()
        invariant
            j <= instruction.data@.len(),
            out@ == before_data + instruction.data@.subrange(0, j as int),
        decreases instruction.data@.len() - j,
    {
        out.push(instruction.data[j]);
        proof {
            assert(before_data + instruction.data@.subrange(0, j + 1) =~= (before_data
                + instruction.data@.subrange(0, j as int)).push(instruction.data@[j as int]));
        }
        j = j + 1;
    }
    proof {
        assert(before_data + instruction.data@.subrange(0, instruction.data@.len() as int)
            =~= before_data + instruction.data@);
        assert(final(out)@ =~= old(out)@ + spec_encode_instruction(instruction@));
    }
}

/// Encodes a whole batch into its canonical byte form.
pub fn encode_message(message: &ZiplineMessage) -> (r: Vec<u8>)
    requires
        message_wf(message@),
    ensures
        r@ == spec_encode_message(message@),
{
    let mut out: Vec<u8> = Vec::new();
    push_u64_le(&mut out, message.nonce);
    push_u32_le(&mut out, message.instructions.len() as u32);
    let ghost head = out@;
    let mut i: usize = 0;
    while i < message.instructions.len()
        invariant
            i <= message.instructions@.len(),
            message_wf(message@),
            out@ == head + spec_encode_instructions(message@.instructions.subrange(0, i as int)),
        decreases message.instructions@.len() - i,
    {
        proof {
            assert(message@.instructions[i as int] == message.instructions@[i as int]@);
        }
        encode_instruction_into(&mut out, &message.instructions[i]);
        proof {
            lemma_encode_instructions_snoc(message@.instructions, i as int);
            assert(head + spec_encode_instructions(message@.instructions.subrange(0, i + 1)) =~= (
            head + spec_encode_instructions(message@.instructions.subrange(0, i as int)))
                + spec_encode_instruction(message@.instructions[i as int]));
        }
        i = i + 1;
    }
    proof {
        assert(message@.instructions.subrange(0, message.instructions@.len() as int)
            =~= message@.instructions);
        assert(out@ =~= spec_encode_message(message@));
    }
    out
}

/// The result of reading a 64-bit little-endian value at `pos`: the value
/// and the position just past it.
pub open spec fn spec_parse_u64(b: Seq<u8>, pos: int) -> Option<(u64, int)> {
    if 0 <= pos && pos + 8 <= b.len() {
        Some((vstd::bytes::spec_u64_from_le_bytes(b.subrange(pos, pos + 8)), pos + 8))
    } else {
        None
    }
}

/// The result of reading a 32-bit little-endian count at `pos`.
pub open spec fn spec_parse_u32(b: Seq<u8>, pos: int) -> Option<(u32, int)> {
    if 0 <= pos && pos + 4 <= b.len() {
        Some((vstd::bytes::spec_u32_from_le_bytes(b.subrange(pos, pos + 4)), pos + 4))
    } else {
        None
    }
}

/// The result of reading `n` raw bytes at `pos`.
pub open spec fn spec_parse_bytes(b: Seq<u8>, pos: int, n: int) -> Option<(Seq<u8>, int)> {
    if 0 <= pos && 0 <= n && pos + n <= b.len() {
        Some((b.subrange(pos, pos + n), pos + n))
    } else {
        None
    }
}

/// The result of reading a flag byte at `pos`; only the bytes 0 and 1 are a
/// valid flag, so a value has exactly one encoding.
pub open spec fn spec_parse_bool(b: Seq<u8>, pos: int) -> Option<(bool, int)> {
    if 0 <= pos && pos + 1 <= b.len() && (b[pos] == 0 || b[pos] == 1) {
        Some((b[pos] == 1, pos + 1))
    } else {
        None
    }
}

/// The result of reading one account reference at `pos`.
pub open spec fn spec_parse_account(b: Seq<u8>, pos: int) -> Option<(SpecAccountMeta, int)> {
    match spec_parse_bytes(b, pos, 32) {
        Some((pubkey, p1)) => match spec_parse_bool(b, p1) {
            Some((is_signer, p2)) => match spec_parse_bool(b, p2) {
                Some((is_writable, p3)) => Some(
                    (SpecAccountMeta { pubkey, is_signer, is_writable }, p3),
                ),
                None => None,
            },
            None => None,
        },
        None => None,
    }
}

/// The result of reading `n` account references at `pos`, in order.
pub open spec fn spec_parse_accounts(b: Seq<u8>, pos: int, n: nat) -> Option<
    (Seq<SpecAccountMeta>, int),
>
    decreases n,
{
    if n == 0 {
        Some((Seq::empty(), pos))
    } else {
        match spec_parse_account(b, pos) {
            Some((account, p1)) => match spec_parse_accounts(b, p1, (n - 1) as nat) {
                Some((rest, p2)) => Some((seq![account] + rest, p2)),
                None => None,
            },
            None => None,
        }
    }
}

/// The result of reading one operation descriptor at `pos`.
pub open spec fn spec_parse_instruction(b: Seq<u8>, pos: int) -> Option<(SpecInstruction, int)> {
    match spec_parse_bytes(b, pos, 32) {
        Some((program_id, p1)) => match spec_parse_u32(b, p1) {
            Some((n_accounts, p2)) => match spec_parse_accounts(b, p2, n_accounts as nat) {
                Some((accounts, p3)) => match spec_parse_u32(b, p3) {
                    Some((n_data, p4)) => match spec_parse_bytes(b, p4, n_data as int) {
                        Some((data, p5)) => Some(
                            (SpecInstruction { program_id, accounts, data }, p5),
                        ),
                        None => None,
                    },
                    None => None,
                },
                None => None,
            },
            None => None,
        },
        None => None,
    }
}

/// The result of reading `n` operation descriptors at `pos`, in order.
pub open spec fn spec_parse_instructions(b: Seq<u8>, pos: int, n: nat) -> Option<
    (Seq<SpecInstruction>, int),
>
    decreases n,
{
    if n == 0 {
        Some((Seq::empty(), pos))
    } else {
        match spec_parse_instruction(b, pos) {
            Some((instruction, p1)) => match spec_parse_instructions(b, p1, (n - 1) as nat) {
                Some((rest, p2)) => Some((seq![instruction] + rest, p2)),
                None => None,
            },
            None => None,
        }
    }
}

/// The result of reading a whole batch at `pos`.
pub open spec fn spec_parse_message(b: Seq<u8>, pos: int) -> Option<(SpecMessage, int)> {
    match spec_parse_u64(b, pos) {
        Some((nonce, p1)) => match spec_parse_u32(b, p1) {
            Some((n_instructions, p2)) => match spec_parse_instructions(
                b,
                p2,
                n_instructions as nat,
            ) {
                Some((instructions, p3)) => Some((SpecMessage { nonce, instructions }, p3)),
                None => None,
            },
            None => None,
        },
        None => None,
    }
}

/// The batch a byte string decodes to, if it is exactly one batch encoding
/// with nothing left over.
pub open spec fn spec_decode_message(b: Seq<u8>) -> Option<SpecMessage> {
    match spec_parse_message(b, 0) {
        Some((message, end)) => if end == b.len() {
            Some(message)
        } else {
            None
        },
        None => None,
    }
}

/// A window into `b` that holds a known byte string also holds each of its
/// segments, at the corresponding offsets.
proof fn lemma_segment(b: Seq<u8>, pos: int, enc: Seq<u8>, a: int, c: int)
    requires
        0 <= pos,
        0 <= a <= c <= enc.len(),
        pos + enc.len() <= b.len(),
        b.subrange(pos, pos + enc.len()) == enc,
    ensures
        b.subrange(pos + a, pos + c) == enc.subrange(a, c),
{
    assert(b.subrange(pos + a, pos + c) =~= enc.subrange(a, c)) by {
        assert forall|i: int| 0 <= i < c - a implies b.subrange(pos + a, pos + c)[i]
            == enc.subrange(a, c)[i] by {
            assert(b.subrange(pos + a, pos + c)[i] == b[pos + a + i]);
            assert(b[pos + a + i] == b.subrange(pos, pos + enc.len())[a + i]);
            assert(enc.subrange(a, c)[i] == enc[a + i]);
        }
    }
}

/// Reading back the encoding of one account reference yields that reference.
proof fn lemma_parse_account_complete(b: Seq<u8>, pos: int, account: SpecAccountMeta)
    requires
        account_wf(account),
        0 <= pos,
        pos + 34 <= b.len(),
        b.subrange(pos, pos + 34) == spec_encode_account(account),
    ensures
        spec_parse_account(b, pos) == Some((account, pos + 34)),
{
    let enc = spec_encode_account(account);
    assert(enc.len() == 34);
    lemma_segment(b, pos, enc, 0, 32);
    assert(enc.subrange(0, 32) =~= account.pubkey);
    assert(b.subrange(pos, pos + 32) == account.pubkey);
    assert(b[pos + 32] == enc[32]) by {
        assert(b.subrange(pos, pos + 34)[32] == b[pos + 32]);
    }
    assert(b[pos + 33] == enc[33]) by {
        assert(b.subrange(pos, pos + 34)[33] == b[pos + 33]);
    }
    assert(enc[32] == spec_bool_byte(account.is_signer));
    assert(enc[33] == spec_bool_byte(account.is_writable));
    let parsed = SpecAccountMeta {
        pubkey: b.subrange(pos, pos + 32),
        is_signer: b[pos + 32] == 1,
        is_writable: b[pos + 33] == 1,
    };
    assert(parsed =~= account);
    assert(spec_parse_account(b, pos) == Some((parsed, pos + 34)));
}

/// Whatever one account-reference read returns re-encodes to exactly the
/// bytes it was read from.
proof fn lemma_parse_account_sound(
    b: Seq<u8>,
    pos: int,
    account: SpecAccountMeta,
    end: int,
)
    requires
        0 <= pos,
        spec_parse_account(b, pos) == Some((account, end)),
    ensures
        account_wf(account),
        end == pos + 34,
        end <= b.len(),
        b.subrange(pos, end) == spec_encode_account(account),
{
    assert(account.pubkey == b.subrange(pos, pos + 32));
    assert(b[pos + 32] == 0 || b[pos + 32] == 1);
    assert(b[pos + 33] == 0 || b[pos + 33] == 1);
    assert(b.subrange(pos, end) =~= spec_encode_account(account)) by {
        assert(spec_bool_byte(account.is_signer) == b[pos + 32]);
        assert(spec_bool_byte(account.is_writable) == b[pos + 33]);
        assert forall|i: int| 0 <= i < 34 implies b.subrange(pos, end)[i]
            == spec_encode_account(account)[i] by {
            if i < 32 {
                assert(spec_encode_account(account)[i] == account.pubkey[i]);
                assert(account.pubkey[i] == b[pos + i]);
            }
        }
    }
}

/// Reading back the encoding of an account-reference list yields that list.
proof fn lemma_parse_accounts_complete(b: Seq<u8>, pos: int, accounts: Seq<SpecAccountMeta>)
    requires
        forall|i: int| 0 <= i < accounts.len() ==> account_wf(#[trigger] accounts[i]),
        0 <= pos,
        pos + spec_encode_accounts(accounts).len() <= b.len(),
        b.subrange(pos, pos + spec_encode_accounts(accounts).len() as int) == spec_encode_accounts(
            accounts,
        ),
    ensures
        spec_parse_accounts(b, pos, accounts.len()) == Some(
            (accounts, pos + spec_encode_accounts(accounts).len()),
        ),
    decreases accounts.len(),
{
    let enc = spec_encode_accounts(accounts);
    if accounts.len() == 0 {
        assert(accounts =~= Seq::<SpecAccountMeta>::empty());
    } else {
        let head = accounts[0];
        let tail = accounts.drop_first();
        let head_enc = spec_encode_account(head);
        let tail_enc = spec_encode_accounts(tail);
        assert(head_enc.len() == 34);
        lemma_segment(b, pos, enc, 0, 34);
        assert(enc.subrange(0, 34) =~= head_enc);
        lemma_parse_account_complete(b, pos, head);
        lemma_segment(b, pos, enc, 34, enc.len() as int);
        assert(enc.subrange(34, enc.len() as int) =~= tail_enc);
        assert(b.subrange(pos + 34, pos + 34 + tail_enc.len() as int) == tail_enc);
        assert(forall|i: int| 0 <= i < tail.len() ==> account_wf(#[trigger] tail[i]));
        lemma_parse_accounts_complete(b, pos + 34, tail);
        assert(seq![head] + tail =~= accounts);
    }
}

/// Whatever an account-reference list read returns re-encodes to exactly the
/// bytes it was read from.
proof fn lemma_parse_accounts_sound(
    b: Seq<u8>,
    pos: int,
    n: nat,
    accounts: Seq<SpecAccountMeta>,
    end: int,
)
    requires
        0 <= pos <= b.len(),
        spec_parse_accounts(b, pos, n) == Some((accounts, end)),
    ensures
        accounts.len() == n,
        forall|i: int| 0 <= i < accounts.len() ==> account_wf(#[trigger] accounts[i]),
        pos <= end <= b.len(),
        b.subrange(pos, end) == spec_encode_accounts(accounts),
    decreases n,
{
    if n == 0 {
        assert(b.subrange(pos, pos) =~= spec_encode_accounts(accounts));
    } else {
        let (head, p1) = spec_parse_account(b, pos)->Some_0;
        let (tail, p2) = spec_parse_accounts(b, p1, (n - 1) as nat)->Some_0;
        lemma_parse_account_sound(b, pos, head, p1);
        lemma_parse_accounts_sound(b, p1, (n - 1) as nat, tail, p2);
        assert(accounts == seq![head] + tail);
        assert(accounts[0] == head);
        assert(accounts.drop_first() =~= tail);
        assert(b.subrange(pos, end) =~= spec_encode_account(head) + spec_encode_accounts(tail))
            by {
            assert forall|i: int| 0 <= i < end - pos implies b.subrange(pos, end)[i] == (
            spec_encode_account(head) + spec_encode_accounts(tail))[i] by {
                if i < 34 {
                    assert(b.subrange(pos, p1)[i] == b[pos + i]);
                } else {
                    assert(b.subrange(p1, p2)[i - 34] == b[pos + i]);
                }
            }
        }
    }
}

/// Reading back the encoding of one operation descriptor yields that
/// descriptor.
proof fn lemma_parse_instruction_complete(b: Seq<u8>, pos: int, instruction: SpecInstruction)
    requires
        instruction_wf(instruction),
        0 <= pos,
        pos + spec_encode_instruction(instruction).len() <= b.len(),
        b.subrange(pos, pos + spec_encode_instruction(instruction).len() as int)
            == spec_encode_instruction(instruction),
    ensures
        spec_parse_instruction(b, pos) == Some(
            (instruction, pos + spec_encode_instruction(instruction).len()),
        ),
{
    let enc = spec_encode_instruction(instruction);
    let acc_enc = spec_encode_accounts(instruction.accounts);
    let cnt_enc = spec_u32_to_le_bytes(instruction.accounts.len() as u32);
    let dlen_enc = spec_u32_to_le_bytes(instruction.data.len() as u32);
    vstd::bytes::lemma_auto_spec_u32_to_from_le_bytes();
    assert(cnt_enc.len() == 4 && dlen_enc.len() == 4);
    let o1 = 32int;
    let o2 = o1 + 4;
    let o3 = o2 + acc_enc.len() as int;
    let o4 = o3 + 4;
    let o5 = o4 + instruction.data.len() as int;
    assert(enc.len() == o5);
    lemma_segment(b, pos, enc, 0, o1);
    assert(enc.subrange(0, o1) =~= instruction.program_id);
    lemma_segment(b, pos, enc, o1, o2);
    assert(enc.subrange(o1, o2) =~= cnt_enc);
    assert(spec_parse_u32(b, pos + o1) == Some(
        (instruction.accounts.len() as u32, pos + o2),
    ));
    lemma_segment(b, pos, enc, o2, o3);
    assert(enc.subrange(o2, o3) =~= acc_enc);
    lemma_parse_accounts_complete(b, pos + o2, instruction.accounts);
    assert((instruction.accounts.len() as u32) as nat == instruction.accounts.len());
    lemma_segment(b, pos, enc, o3, o4);
    assert(enc.subrange(o3, o4) =~= dlen_enc);
    assert(spec_parse_u32(b, pos + o3) == Some((instruction.data.len() as u32, pos + o4)));
    lemma_segment(b, pos, enc, o4, o5);
    assert(enc.subrange(o4, o5) =~= instruction.data);
    assert(spec_parse_bytes(b, pos + o4, instruction.data.len() as int) == Some(
        (instruction.data, pos + o5),
    ));
    let parsed = SpecInstruction {
        program_id: b.subrange(pos, pos + 32),
        accounts: instruction.accounts,
        data: instruction.data,
    };
    assert(parsed =~= instruction);
}

/// Whatever one operation-descriptor read returns re-encodes to exactly the
/// bytes it was read from.
proof fn lemma_parse_instruction_sound(
    b: Seq<u8>,
    pos: int,
    instruction: SpecInstruction,
    end: int,
)
    requires
        0 <= pos <= b.len(),
        spec_parse_instruction(b, pos) == Some((instruction, end)),
    ensures
        instruction_wf(instruction),
        pos <= end <= b.len(),
        end - pos == spec_encode_instruction(instruction).len(),
        b.subrange(pos, end) == spec_encode_instruction(instruction),
{
    vstd::bytes::lemma_auto_spec_u32_to_from_le_bytes();
    let (n_accounts, p2) = spec_parse_u32(b, pos + 32)->Some_0;
    let (accounts, p3) = spec_parse_accounts(b, p2, n_accounts as nat)->Some_0;
    let (n_data, p4) = spec_parse_u32(b, p3)->Some_0;
    lemma_parse_accounts_sound(b, p2, n_accounts as nat, accounts, p3);
    assert(instruction.accounts == accounts);
    assert(instruction.program_id == b.subrange(pos, pos + 32));
    assert(instruction.data == b.subrange(p4, p4 + n_data as int));
    assert(instruction.accounts.len() == n_accounts as nat);
    assert(instruction.data.len() == n_data as nat);
    let enc = spec_encode_instruction(instruction);
    let acc_enc = spec_encode_accounts(instruction.accounts);
    assert(spec_u32_to_le_bytes(instruction.accounts.len() as u32) == b.subrange(pos + 32, p2))
        by {
        assert(spec_u32_to_le_bytes(spec_u32_from_le_bytes(b.subrange(pos + 32, pos + 36)))
            == b.subrange(pos + 32, pos + 36));
    }
    assert(spec_u32_to_le_bytes(instruction.data.len() as u32) == b.subrange(p3, p4)) by {
        assert(spec_u32_to_le_bytes(spec_u32_from_le_bytes(b.subrange(p3, p3 + 4))) == b.subrange(
            p3,
            p3 + 4,
        ));
    }
    assert(b.subrange(pos, end) =~= enc) by {
        assert forall|i: int| 0 <= i < end - pos implies b.subrange(pos, end)[i] == enc[i] by {
            if i < 32 {
                assert(enc[i] == instruction.program_id[i]);
                assert(instruction.program_id[i] == b[pos + i]);
            } else if i < 36 {
                assert(enc[i] == b.subrange(pos + 32, p2)[i - 32]);
            } else if i < 36 + acc_enc.len() {
                assert(enc[i] == acc_enc[i - 36]);
                assert(acc_enc[i - 36] == b.subrange(p2, p3)[i - 36]);
            } else if i < 40 + acc_enc.len() {
                assert(enc[i] == b.subrange(p3, p4)[i - 36 - acc_enc.len()]);
            } else {
                assert(enc[i] == instruction.data[i - 40 - acc_enc.len()]);
                assert(instruction.data[i - 40 - acc_enc.len()] == b.subrange(p4, end)[i - 40
                    - acc_enc.len()]);
            }
        }
    }
}

/// Reading back the encoding of an operation-descriptor list yields that
/// list.
proof fn lemma_parse_instructions_complete(
    b: Seq<u8>,
    pos: int,
    instructions: Seq<SpecInstruction>,
)
    requires
        forall|i: int|
            0 <= i < instructions.len() ==> instruction_wf(#[trigger] instructions[i]),
        0 <= pos,
        pos + spec_encode_instructions(instructions).len() <= b.len(),
        b.subrange(pos, pos + spec_encode_instructions(instructions).len() as int)
            == spec_encode_instructions(instructions),
    ensures
        spec_parse_instructions(b, pos, instructions.len()) == Some(
            (instructions, pos + spec_encode_instructions(instructions).len()),
        ),
    decreases instructions.len(),
{
    let enc = spec_encode_instructions(instructions);
    if instructions.len() == 0 {
        assert(instructions =~= Seq::<SpecInstruction>::empty());
    } else {
        let head = instructions[0];
        let tail = instructions.drop_first();
        let head_enc = spec_encode_instruction(head);
        let tail_enc = spec_encode_instructions(tail);
        lemma_segment(b, pos, enc, 0, head_enc.len() as int);
        assert(enc.subrange(0, head_enc.len() as int) =~= head_enc);
        lemma_parse_instruction_complete(b, pos, head);
        lemma_segment(b, pos, enc, head_enc.len() as int, enc.len() as int);
        assert(enc.subrange(head_enc.len() as int, enc.len() as int) =~= tail_enc);
        assert(forall|i: int|
            0 <= i < tail.len() ==> instruction_wf(#[trigger] tail[i]));
        lemma_parse_instructions_complete(b, pos + head_enc.len() as int, tail);
        assert(seq![head] + tail =~= instructions);
    }
}

/// Whatever an operation-descriptor list read returns re-encodes to exactly
/// the bytes it was read from.
proof fn lemma_parse_instructions_sound(
    b: Seq<u8>,
    pos: int,
    n: nat,
    instructions: Seq<SpecInstruction>,
    end: int,
)
    requires
        0 <= pos <= b.len(),
        spec_parse_instructions(b, pos, n) == Some((instructions, end)),
    ensures
        instructions.len() == n,
        forall|i: int|
            0 <= i < instructions.len() ==> instruction_wf(#[trigger] instructions[i]),
        pos <= end <= b.len(),
        b.subrange(pos, end) == spec_encode_instructions(instructions),
    decreases n,
{
    if n == 0 {
        assert(b.subrange(pos, pos) =~= spec_encode_instructions(instructions));
    } else {
        let (head, p1) = spec_parse_instruction(b, pos)->Some_0;
        let (tail, p2) = spec_parse_instructions(b, p1, (n - 1) as nat)->Some_0;
        lemma_parse_instruction_sound(b, pos, head, p1);
        lemma_parse_instructions_sound(b, p1, (n - 1) as nat, tail, p2);
        assert(instructions == seq![head] + tail);
        assert(instructions[0] == head);
        assert(instructions.drop_first() =~= tail);
        let head_enc = spec_encode_instruction(head);
        assert(b.subrange(pos, end) =~= head_enc + spec_encode_instructions(tail)) by {
            assert forall|i: int| 0 <= i < end - pos implies b.subrange(pos, end)[i] == (head_enc
                + spec_encode_instructions(tail))[i] by {
                if i < head_enc.len() {
                    assert(b.subrange(pos, p1)[i] == b[pos + i]);
                } else {
                    assert(b.subrange(p1, p2)[i - head_enc.len()] == b[pos + i]);
                }
            }
        }
    }
}

/// Reading back the encoding of a whole batch yields that batch.
proof fn lemma_parse_message_complete(b: Seq<u8>, pos: int, message: SpecMessage)
    requires
        message_wf(message),
        0 <= pos,
        pos + spec_encode_message(message).len() <= b.len(),
        b.subrange(pos, pos + spec_encode_message(message).len() as int) == spec_encode_message(
            message,
        ),
    ensures
        spec_parse_message(b, pos) == Some((message, pos + spec_encode_message(message).len())),
{
    let enc = spec_encode_message(message);
    let nonce_enc = spec_u64_to_le_bytes(message.nonce);
    let cnt_enc = spec_u32_to_le_bytes(message.instructions.len() as u32);
    let body_enc = spec_encode_instructions(message.instructions);
    vstd::bytes::lemma_auto_spec_u64_to_from_le_bytes();
    vstd::bytes::lemma_auto_spec_u32_to_from_le_bytes();
    assert(nonce_enc.len() == 8 && cnt_enc.len() == 4);
    lemma_segment(b, pos, enc, 0, 8);
    assert(enc.subrange(0, 8) =~= nonce_enc);
    assert(spec_parse_u64(b, pos) == Some((message.nonce, pos + 8)));
    lemma_segment(b, pos, enc, 8, 12);
    assert(enc.subrange(8, 12) =~= cnt_enc);
    assert(spec_parse_u32(b, pos + 8) == Some(
        (message.instructions.len() as u32, pos + 12),
    ));
    lemma_segment(b, pos, enc, 12, enc.len() as int);
    assert(enc.subrange(12, enc.len() as int) =~= body_enc);
    lemma_parse_instructions_complete(b, pos + 12, message.instructions);
    assert((message.instructions.len() as u32) as nat == message.instructions.len());
    let parsed = SpecMessage { nonce: message.nonce, instructions: message.instructions };
    assert(parsed =~= message);
}

/// Whatever a whole-batch read returns re-encodes to exactly the bytes it
/// was read from.
proof fn lemma_parse_message_sound(b: Seq<u8>, pos: int, message: SpecMessage, end: int)
    requires
        0 <= pos <= b.len(),
        spec_parse_message(b, pos) == Some((message, end)),
    ensures
        message_wf(message),
        pos <= end <= b.len(),
        b.subrange(pos, end) == spec_encode_message(message),
{
    vstd::bytes::lemma_auto_spec_u64_to_from_le_bytes();
    vstd::bytes::lemma_auto_spec_u32_to_from_le_bytes();
    let (n_instructions, p2) = spec_parse_u32(b, pos + 8)->Some_0;
    let (instructions, p3) = spec_parse_instructions(b, p2, n_instructions as nat)->Some_0;
    lemma_parse_instructions_sound(b, p2, n_instructions as nat, instructions, p3);
    assert(message.instructions == instructions);
    assert(message.instructions.len() == n_instructions as nat);
    let enc = spec_encode_message(message);
    assert(spec_u64_to_le_bytes(message.nonce) == b.subrange(pos, pos + 8)) by {
        assert(spec_u64_to_le_bytes(spec_u64_from_le_bytes(b.subrange(pos, pos + 8)))
            == b.subrange(pos, pos + 8));
    }
    assert(spec_u32_to_le_bytes(message.instructions.len() as u32) == b.subrange(pos + 8, p2))
        by {
        assert(spec_u32_to_le_bytes(spec_u32_from_le_bytes(b.subrange(pos + 8, pos + 12)))
            == b.subrange(pos + 8, pos + 12));
    }
    assert(b.subrange(pos, end) =~= enc) by {
        assert forall|i: int| 0 <= i < end - pos implies b.subrange(pos, end)[i] == enc[i] by {
            if i < 8 {
                assert(enc[i] == b.subrange(pos, pos + 8)[i]);
            } else if i < 12 {
                assert(enc[i] == b.subrange(pos + 8, p2)[i - 8]);
            } else {
                assert(enc[i] == spec_encode_instructions(message.instructions)[i - 12]);
                assert(spec_encode_instructions(message.instructions)[i - 12] == b.subrange(
                    p2,
                    p3,
                )[i - 12]);
            }
        }
    }
}

/// Decoding inverts encoding: every well-formed batch comes back from its
/// own canonical bytes.
pub proof fn lemma_codec_roundtrip(message: SpecMessage)
    requires
        message_wf(message),
    ensures
        spec_decode_message(spec_encode_message(message)) == Some(message),
{
    let enc = spec_encode_message(message);
    assert(enc.subrange(0, enc.len() as int) =~= enc);
    lemma_parse_message_complete(enc, 0, message);
}

/// The encoding is canonical: a byte string decodes to a batch only if it is
/// exactly that batch's encoding, so no two byte strings decode to the same
/// batch and no two batches share an encoding.
pub proof fn lemma_codec_canonical(b: Seq<u8>, message: SpecMessage)
    requires
        spec_decode_message(b) == Some(message),
    ensures
        message_wf(message),
        b == spec_encode_message(message),
{
    let (parsed, end) = spec_parse_message(b, 0)->Some_0;
    lemma_parse_message_sound(b, 0, parsed, end);
    assert(b.subrange(0, b.len() as int) =~= b);
}

/// Encoding is injective: two well-formed batches with the same canonical
/// bytes are the same batch, so a signature over the encoded bytes commits
/// to exactly one batch.
pub proof fn lemma_encode_injective(first: SpecMessage, second: SpecMessage)
    requires
        message_wf(first),
        message_wf(second),
        spec_encode_message(first) == spec_encode_message(second),
    ensures
        first == second,
{
    lemma_codec_roundtrip(first);
    lemma_codec_roundtrip(second);
}

/// Reads a 64-bit little-endian value.
fn parse_u64(bytes: &Vec<u8>, pos: usize) -> (r: Option<(u64, usize)>)
    ensures
        match r {
            Some(v) => pos <= v.1 <= bytes@.len() && spec_parse_u64(bytes@, pos as int) == Some(
                (v.0, v.1 as int),
            ),
            None => spec_parse_u64(bytes@, pos as int) is None,
        },
{
    if pos <= bytes.len() && bytes.len() - pos >= 8 {
        let chunk = vstd::slice::slice_subrange(bytes.as_slice(), pos, pos + 8);
        Some((u64_from_le_bytes(chunk), pos + 8))
    } else {
        None
    }
}

/// Reads a 32-bit little-endian count.
fn parse_u32(bytes: &Vec<u8>, pos: usize) -> (r: Option<(u32, usize)>)
    ensures
        match r {
            Some(v) => pos <= v.1 <= bytes@.len() && spec_parse_u32(bytes@, pos as int) == Some(
                (v.0, v.1 as int),
            ),
            None => spec_parse_u32(bytes@, pos as int) is None,
        },
{
    if pos <= bytes.len() && bytes.len() - pos >= 4 {
        let chunk = vstd::slice::slice_subrange(bytes.as_slice(), pos, pos + 4);
        Some((u32_from_le_bytes(chunk), pos + 4))
    } else {
        None
    }
}

/// Reads a 32-byte identifier.
fn parse_bytes32(bytes: &Vec<u8>, pos: usize) -> (r: Option<([u8; 32], usize)>)
    ensures
        match r {
            Some(v) => pos <= v.1 <= bytes@.len() && spec_parse_bytes(bytes@, pos as int, 32)
                == Some((v.0@, v.1 as int)),
            None => spec_parse_bytes(bytes@, pos as int, 32) is None,
        },
{
    if pos <= bytes.len() && bytes.len() - pos >= 32 {
        let mut arr: [u8; 32] = [0u8; 32];
        let mut i: usize = 0;
        while i < 32
            invariant
                i <= 32,
                pos + 32 <= bytes@.len(),
                bytes@.len() <= usize::MAX,
                forall|j: int| 0 <= j < i as int ==> arr@[j] == bytes@[pos + j],
            decreases 32 - i,
        {
            arr[i] = bytes[pos + i];
            i = i + 1;
        }
        proof {
            assert(arr@ =~= bytes@.subrange(pos as int, pos + 32));
        }
        Some((arr, pos + 32))
    } else {
        None
    }
}

/// Reads `n` raw payload bytes.
fn parse_vec_bytes(bytes: &Vec<u8>, pos: usize, n: usize) -> (r: Option<(Vec<u8>, usize)>)
    ensures
        match r {
            Some(v) => pos <= v.1 <= bytes@.len() && spec_parse_bytes(
                bytes@,
                pos as int,
                n as int,
            ) == Some((v.0@, v.1 as int)),
            None => spec_parse_bytes(bytes@, pos as int, n as int) is None,
        },
{
    if pos <= bytes.len() && bytes.len() - pos >= n {
        let chunk = vstd::slice::slice_subrange(bytes.as_slice(), pos, pos + n);
        let v = vstd::slice::slice_to_vec(chunk);
        Some((v, pos + n))
    } else {
        None
    }
}

/// Reads a flag byte; any byte other than 0 or 1 is rejected.
fn parse_bool(bytes: &Vec<u8>, pos: usize) -> (r: Option<(bool, usize)>)
    ensures
        match r {
            Some(v) => pos <= v.1 <= bytes@.len() && spec_parse_bool(bytes@, pos as int) == Some(
                (v.0, v.1 as int),
            ),
            None => spec_parse_bool(bytes@, pos as int) is None,
        },
{
    if pos < bytes.len() {
        let byte = bytes[pos];
        if byte == 0 {
            Some((false, pos + 1))
        } else if byte == 1 {
            Some((true, pos + 1))
        } else {
            None
        }
    } else {
        None
    }
}

/// Reads one account reference.
fn parse_account(bytes: &Vec<u8>, pos: usize) -> (r: Option<(ZiplineAccountMeta, usize)>)
    ensures
        match r {
            Some(v) => pos <= v.1 <= bytes@.len() && spec_parse_account(bytes@, pos as int)
                == Some((v.0@, v.1 as int)),
            None => spec_parse_account(bytes@, pos as int) is None,
        },
{
    let (pubkey, p1) = match parse_bytes32(bytes, pos) {
        Some(v) => v,
        None => {
            return None;
        },
    };
    let (is_signer, p2) = match parse_bool(bytes, p1) {
        Some(v) => v,
        None => {
            return None;
        },
    };
    let (is_writable, p3) = match parse_bool(bytes, p2) {
        Some(v) => v,
        None => {
            return None;
        },
    };
    Some((ZiplineAccountMeta { pubkey, is_signer, is_writable }, p3))
}

/// Reads `n` account references, in order.
fn parse_accounts(bytes: &Vec<u8>, pos: usize, n: u32) -> (r: Option<
    (Vec<ZiplineAccountMeta>, usize),
>)
    ensures
        match r {
            Some(v) => pos <= v.1 && spec_parse_accounts(bytes@, pos as int, n as nat) == Some(
                (crate::state::account_views(v.0@), v.1 as int),
            ),
            None => spec_parse_accounts(bytes@, pos as int, n as nat) is None,
        },
    decreases n,
{
    if n == 0 {
        let empty: Vec<ZiplineAccountMeta> = Vec::new();
        proof {
            assert(crate::state::account_views(empty@) =~= Seq::<SpecAccountMeta>::empty());
        }
        Some((empty, pos))
    } else {
        let (account, p1) = match parse_account(bytes, pos) {
            Some(v) => v,
            None => {
                return None;
            },
        };
        let (mut rest, p2) = match parse_accounts(bytes, p1, n - 1) {
            Some(v) => v,
            None => {
                return None;
            },
        };
        let ghost tail_views = crate::state::account_views(rest@);
        rest.insert(0, account);
        proof {
            assert(crate::state::account_views(rest@) =~= seq![account@] + tail_views);
            assert(spec_parse_accounts(bytes@, pos as int, n as nat) == Some((
                crate::state::account_views(rest@),
                p2 as int,
            )));
        }
        Some((rest, p2))
    }
}

/// Reads one operation descriptor.
fn parse_instruction(bytes: &Vec<u8>, pos: usize) -> (r: Option<(ZiplineInstruction, usize)>)
    ensures
        match r {
            Some(v) => pos <= v.1 <= bytes@.len() && spec_parse_instruction(bytes@, pos as int)
                == Some((v.0@, v.1 as int)),
            None => spec_parse_instruction(bytes@, pos as int) is None,
        },
{
    let (program_id, p1) = match parse_bytes32(bytes, pos) {
        Some(v) => v,
        None => {
            return None;
        },
    };
    let (n_accounts, p2) = match parse_u32(bytes, p1) {
        Some(v) => v,
        None => {
            return None;
        },
    };
    let (accounts, p3) = match parse_accounts(bytes, p2, n_accounts) {
        Some(v) => v,
        None => {
            return None;
        },
    };
    let (n_data, p4) = match parse_u32(bytes, p3) {
        Some(v) => v,
        None => {
            return None;
        },
    };
    let (data, p5) = match parse_vec_bytes(bytes, p4, n_data as usize) {
        Some(v) => v,
        None => {
            return None;
        },
    };
    Some((ZiplineInstruction { program_id, accounts, data }, p5))
}

/// Reads `n` operation descriptors, in order.
fn parse_instructions(bytes: &Vec<u8>, pos: usize, n: u32) -> (r: Option<
    (Vec<ZiplineInstruction>, usize),
>)
    ensures
        match r {
            Some(v) => pos <= v.1 && spec_parse_instructions(bytes@, pos as int, n as nat)
                == Some((crate::state::instruction_views(v.0@), v.1 as int)),
            None => spec_parse_instructions(bytes@, pos as int, n as nat) is None,
        },
    decreases n,
{
    if n == 0 {
        let empty: Vec<ZiplineInstruction> = Vec::new();
        proof {
            assert(crate::state::instruction_views(empty@) =~= Seq::<SpecInstruction>::empty());
        }
        Some((empty, pos))
    } else {
        let (instruction, p1) = match parse_instruction(bytes, pos) {
            Some(v) => v,
            None => {
                return None;
            },
        };
        let (mut rest, p2) = match parse_instructions(bytes, p1, n - 1) {
            Some(v) => v,
            None => {
                return None;
            },
        };
        let ghost tail_views = crate::state::instruction_views(rest@);
        rest.insert(0, instruction);
        proof {
            assert(crate::state::instruction_views(rest@) =~= seq![instruction@] + tail_views);
            assert(spec_parse_instructions(bytes@, pos as int, n as nat) == Some((
                crate::state::instruction_views(rest@),
                p2 as int,
            )));
        }
        Some((rest, p2))
    }
}

/// Decodes a whole batch from its canonical byte form; fails on any byte
/// string that is not exactly one batch encoding.
pub fn decode_message(bytes: &Vec<u8>) -> (r: Option<ZiplineMessage>)
    ensures
        match r {
            Some(message) => spec_decode_message(bytes@) == Some(message@),
            None => spec_decode_message(bytes@) is None,
        },
{
    let (nonce, p1) = match parse_u64(bytes, 0) {
        Some(v) => v,
        None => {
            return None;
        },
    };
    let (n_instructions, p2) = match parse_u32(bytes, p1) {
        Some(v) => v,
        None => {
            return None;
        },
    };
    let (instructions, p3) = match parse_instructions(bytes, p2, n_instructions) {
        Some(v) => v,
        None => {
            return None;
        },
    };
    if p3 != bytes.len() {
        return None;
    }
    Some(ZiplineMessage { nonce, instructions })
}

} // verus!
