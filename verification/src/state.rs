//! The data submitted with an authorization call: the batch of operations to
//! replay, and the account references each operation consumes.

use vstd::prelude::*;

verus! {

/// One account reference consumed by a replayed operation: a 32-byte address
/// plus the signer and writability flags the operation demands of it.
#[derive(Clone, Debug)]
pub struct ZiplineAccountMeta {
    pub pubkey: [u8; 32],
    pub is_signer: bool,
    pub is_writable: bool,
}

/// One operation of an authorization batch: the 32-byte target identifier,
/// the ordered account references it consumes, and its opaque payload bytes.
#[derive(Clone, Debug)]
pub struct ZiplineInstruction {
    pub program_id: [u8; 32],
    pub accounts: Vec<ZiplineAccountMeta>,
    pub data: Vec<u8>,
}

/// An authorization batch: the anti-replay sequence number and the operations
/// to replay, in execution order.
#[derive(Clone, Debug)]
pub struct ZiplineMessage {
    pub nonce: u64,
    pub instructions: Vec<ZiplineInstruction>,
}

/// The mathematical value of an account reference.
#[verifier::ext_equal]
pub struct SpecAccountMeta {
    pub pubkey: Seq<u8>,
    pub is_signer: bool,
    pub is_writable: bool,
}

/// The mathematical value of an operation descriptor.
#[verifier::ext_equal]
pub struct SpecInstruction {
    pub program_id: Seq<u8>,
    pub accounts: Seq<SpecAccountMeta>,
    pub data: Seq<u8>,
}

/// The mathematical value of an authorization batch.
#[verifier::ext_equal]
pub struct SpecMessage {
    pub nonce: u64,
    pub instructions: Seq<SpecInstruction>,
}

/// The mathematical values of a list of account references.
pub open spec fn account_views(accounts: Seq<ZiplineAccountMeta>) -> Seq<SpecAccountMeta> {
    accounts.map_values(|a: ZiplineAccountMeta| a@)
}

/// The mathematical values of a list of operation descriptors.
pub open spec fn instruction_views(instructions: Seq<ZiplineInstruction>) -> Seq<
    SpecInstruction,
> {
    instructions.map_values(|i: ZiplineInstruction| i@)
}

impl View for ZiplineAccountMeta {
    type V = SpecAccountMeta;

    open spec fn view(&self) -> SpecAccountMeta {
        SpecAccountMeta {
            pubkey: self.pubkey@,
            is_signer: self.is_signer,
            is_writable: self.is_writable,
        }
    }
}

impl View for ZiplineInstruction {
    type V = SpecInstruction;

    open spec fn view(&self) -> SpecInstruction {
        SpecInstruction {
            program_id: self.program_id@,
            accounts: account_views(self.accounts@),
            data: self.data@,
        }
    }
}

impl View for ZiplineMessage {
    type V = SpecMessage;

    open spec fn view(&self) -> SpecMessage {
        SpecMessage {
            nonce: self.nonce,
            instructions: instruction_views(self.instructions@),
        }
    }
}

} // verus!
