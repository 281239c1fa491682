//! The authorization and execution engine: the identity record, the
//! sequence-number gate, and the replay plan handed to the host's execution
//! facility under the identity's delegated authority.

use vstd::prelude::*;

use crate::state::ZiplineInstruction;
use crate::state::ZiplineMessage;
use crate::ErrorCode;
use crate::IntrospectedInstruction;
use crate::bytes20_eq;
use crate::spec_verify_message;
use crate::verify_message;

verus! {

/// The persistent identity record: one per Ethereum address.  The stored
/// counter is the sole source of truth for the next acceptable sequence
/// number, and the bump byte is the derivation salt of the identity's
/// delegated authority.
#[derive(Clone, Copy, Debug)]
pub struct Pulley {
    pub zipline_bump: u8,
    pub eth_address: [u8; 20],
    pub nonce: u64,
}

/// The seed bytes of the delegated-authority derivation domain.
pub open spec fn spec_zipline_seed() -> Seq<u8> {
    seq![122u8, 105, 112, 108, 105, 110, 101]
}

/// The ASCII bytes of the delegated-authority domain tag.
pub fn zipline_seed() -> (r: Vec<u8>)
    ensures
        r@ == spec_zipline_seed(),
{
    let mut r: Vec<u8> = Vec::new();
    r.push(122);
    r.push(105);
    r.push(112);
    r.push(108);
    r.push(105);
    r.push(110);
    r.push(101);
    proof {
        assert(r@ =~= spec_zipline_seed());
    }
    r
}

/// The seed bytes of the identity-record derivation domain.
pub open spec fn spec_pulley_seed() -> Seq<u8> {
    seq![112u8, 117, 108, 108, 101, 121]
}

/// The ASCII bytes of the identity-record domain tag.
pub fn pulley_seed() -> (r: Vec<u8>)
    ensures
        r@ == spec_pulley_seed(),
{
    let mut r: Vec<u8> = Vec::new();
    r.push(112);
    r.push(117);
    r.push(108);
    r.push(108);
    r.push(101);
    r.push(121);
    proof {
        assert(r@ =~= spec_pulley_seed());
    }
    r
}

/// The seed material from which the host's derivation facility computes the
/// delegated-authority address, and under which replayed operations are
/// signed: the domain tag, the Ethereum address, and the stored salt byte.
pub fn authority_seeds(eth_address: &[u8; 20], zipline_bump: u8) -> (r: Vec<Vec<u8>>)
    ensures
        r@.len() == 3,
        r@[0]@ == spec_zipline_seed(),
        r@[1]@ == eth_address@,
        r@[2]@ == seq![zipline_bump],
{
    let mut r: Vec<Vec<u8>> = Vec::new();
    r.push(zipline_seed());
    let mut address_bytes: Vec<u8> = Vec::new();
    let mut i: usize = 0;
    while i < 20
        invariant
            i <= 20,
            address_bytes@ == eth_address@.subrange(0, i as int),
        decreases 20 - i,
    {
        address_bytes.push(eth_address[i]);
        proof {
            assert(address_bytes@ =~= eth_address@.subrange(0, i + 1));
        }
        i = i + 1;
    }
    proof {
        assert(eth_address@.subrange(0, 20) =~= eth_address@);
    }
    r.push(address_bytes);
    let mut bump_bytes: Vec<u8> = Vec::new();
    bump_bytes.push(zipline_bump);
    proof {
        assert(bump_bytes@ =~= seq![zipline_bump]);
    }
    r.push(bump_bytes);
    r
}

/// The seed material from which the host's derivation facility computes the
/// storage address of an identity record: a pure function of the Ethereum
/// address, so exactly one record can exist per address.
pub fn pulley_seeds(eth_address: &[u8; 20]) -> (r: Vec<Vec<u8>>)
    ensures
        r@.len() == 2,
        r@[0]@ == spec_pulley_seed(),
        r@[1]@ == eth_address@,
{
    let mut r: Vec<Vec<u8>> = Vec::new();
    r.push(pulley_seed());
    let mut address_bytes: Vec<u8> = Vec::new();
    let mut i: usize = 0;
    while i < 20
        invariant
            i <= 20,
            address_bytes@ == eth_address@.subrange(0, i as int),
        decreases 20 - i,
    {
        address_bytes.push(eth_address[i]);
        proof {
            assert(address_bytes@ =~= eth_address@.subrange(0, i + 1));
        }
        i = i + 1;
    }
    proof {
        assert(eth_address@.subrange(0, 20) =~= eth_address@);
    }
    r.push(address_bytes);
    r
}

/// Creates the identity record for an Ethereum address: the stored counter
/// starts at zero and the address and salt byte are fixed for the record's
/// lifetime.  That at most one record exists per address is the host's
/// deterministic-derivation guarantee (see `pulley_seeds`).
pub fn initialize(eth_address: [u8; 20], zipline_bump: u8) -> (p: Pulley)
    ensures
        p.eth_address@ == eth_address@,
        p.zipline_bump == zipline_bump,
        p.nonce == 0,
{
    Pulley { zipline_bump, eth_address, nonce: 0 }
}

/// The precondition gate of an authorization call, check by check: the
/// submitted sequence number must strictly exceed the stored counter, the
/// submitted address must match the record, and the signature-binding
/// verification must accept.
pub open spec fn spec_execute_checks(
    pulley: Pulley,
    eth_address: Seq<u8>,
    message_nonce: u64,
    steps: Seq<IntrospectedInstruction>,
    current_index: u16,
    program_id: Seq<u8>,
) -> Result<(), ErrorCode> {
    if message_nonce <= pulley.nonce {
        Err(ErrorCode::InvalidSequence)
    } else if pulley.eth_address@ != eth_address {
        Err(ErrorCode::InvalidAddress)
    } else {
        spec_verify_message(steps, current_index, program_id)
    }
}

/// Authorizes one submitted batch against the identity record and, on
/// success, consumes one step of the counter and hands back the batch's
/// operations for replay, in submission order.
///
/// The signature, recovery id and context prefix are carried only so the
/// preceding verification step and this call agree on the same argument
/// bytes; the precompile already checked them, so they are not re-checked
/// here.  On any error the record is left unchanged, so a failed attempt is
/// retriable by plain resubmission.  The caller replays the returned
/// operations in order under the authority of `authority_seeds` and must
/// abort the enclosing transaction if any of them fails.
#[allow(unused_variables)]
pub fn execute(
    pulley: &mut Pulley,
    signature: &[u8; 64],
    recovery_id: u8,
    eth_address: &[u8; 20],
    prefix: &str,
    message: ZiplineMessage,
    steps: &Vec<IntrospectedInstruction>,
    current_index: u16,
    program_id: &[u8; 32],
) -> (r: Result<Vec<ZiplineInstruction>, ErrorCode>)
    requires
        (current_index as int) < steps@.len(),
    ensures
        ({
            let outcome = spec_execute_checks(
                *old(pulley),
                eth_address@,
                message.nonce,
                steps@,
                current_index,
                program_id@,
            );
            match outcome {
                Ok(_) => {
                    &&& (r matches Ok(operations) && operations@ == message.instructions@)
                    &&& final(pulley).nonce == old(pulley).nonce + 1
                    &&& final(pulley).eth_address == old(pulley).eth_address
                    &&& final(pulley).zipline_bump == old(pulley).zipline_bump
                },
                Err(e) => {
                    &&& r == Err::<Vec<ZiplineInstruction>, ErrorCode>(e)
                    &&& *final(pulley) == *old(pulley)
                },
            }
        }),
{
    if message.nonce <= pulley.nonce {
        return Err(ErrorCode::InvalidSequence);
    }
    if !bytes20_eq(&pulley.eth_address, eth_address) {
        return Err(ErrorCode::InvalidAddress);
    }
    match verify_message(steps, current_index, program_id) {
        Ok(_) => (),
        Err(e) => {
            return Err(e);
        },
    }
    pulley.nonce = pulley.nonce + 1;
    Ok(message.instructions)
}

} // verus!
