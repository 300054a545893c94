//! The wire format of the three operation requests.
//!
//! A request is a four-byte little-endian discriminant followed by the
//! payload of the variant that it names, and nothing after it.

use crate::error::{agrees, VaultError};
use crate::le::{
    append_le, le_bytes, le_value, lemma_le_bytes_len, lemma_le_value_of_le_bytes,
    lemma_pow256_values, read_u32, read_u64,
};
use crate::state::{DecodeMode, Settings, SettingsView, SwapArgs, WithdrawArgs};
use vstd::prelude::*;

verus! {

/// An operation request.
#[derive(Clone, Copy, Debug, PartialEq, Eq)]
pub enum KaizenInstruction {
    /// Create the vault with the given settings.
    Initialize(Settings),
    /// Lock an amount of base currency.
    Swap(SwapArgs),
    /// Redeem an amount of credit.
    Withdraw(WithdrawArgs),
}

/// A [`KaizenInstruction`] as a mathematical value.
pub enum InstructionView {
    Initialize(SettingsView),
    Swap(SwapArgs),
    Withdraw(WithdrawArgs),
}

impl View for KaizenInstruction {
    type V = InstructionView;

    open spec fn view(&self) -> InstructionView {
        match *self {
            KaizenInstruction::Initialize(settings) => InstructionView::Initialize(settings@),
            KaizenInstruction::Swap(args) => InstructionView::Swap(args),
            KaizenInstruction::Withdraw(args) => InstructionView::Withdraw(args),
        }
    }
}

impl InstructionView {
    /// The payload of `Initialize` is well formed.
    pub open spec fn wf(self) -> bool {
        self matches InstructionView::Initialize(settings) ==> settings.wf()
    }

    /// The discriminant of the variant.
    pub open spec fn tag(self) -> nat {
        match self {
            InstructionView::Initialize(_) => 0,
            InstructionView::Swap(_) => 1,
            InstructionView::Withdraw(_) => 2,
        }
    }

    /// The bytes of the payload: a settings record, or the amount in eight
    /// bytes.
    pub open spec fn payload(self) -> Seq<u8> {
        match self {
            InstructionView::Initialize(settings) => settings.pack(),
            InstructionView::Swap(args) => le_bytes(args.amount as nat, 8),
            InstructionView::Withdraw(args) => le_bytes(args.amount as nat, 8),
        }
    }

    /// The bytes of the request.
    pub open spec fn pack(self) -> Seq<u8> {
        le_bytes(self.tag(), 4) + self.payload()
    }

    /// The request that `bytes` hold: a known discriminant followed by
    /// exactly its payload, the settings of `Initialize` read strictly.
    pub open spec fn unpack(bytes: Seq<u8>) -> Result<InstructionView, VaultError> {
        if bytes.len() < 4 {
            Err(VaultError::MalformedInstruction)
        } else {
            let tag = le_value(bytes.subrange(0, 4));
            let payload = bytes.subrange(4, bytes.len() as int);
            if tag == 0 {
                match SettingsView::unpack(payload, DecodeMode::Strict) {
                    Ok(settings) => Ok(InstructionView::Initialize(settings)),
                    Err(_) => Err(VaultError::MalformedInstruction),
                }
            } else if tag == 1 && payload.len() == 8 {
                Ok(InstructionView::Swap(SwapArgs { amount: le_value(payload) as u64 }))
            } else if tag == 2 && payload.len() == 8 {
                Ok(InstructionView::Withdraw(WithdrawArgs { amount: le_value(payload) as u64 }))
            } else {
                Err(VaultError::MalformedInstruction)
            }
        }
    }

    /// The bytes of a request hold the request.
    pub proof fn lemma_round_trip(self)
        requires
            self.wf(),
        ensures
            Self::unpack(self.pack()) == Ok::<InstructionView, VaultError>(self),
    {
        let bytes = self.pack();
        lemma_pow256_values();
        lemma_le_bytes_len(self.tag(), 4);
        lemma_le_value_of_le_bytes(self.tag(), 4);
        assert(bytes.subrange(0, 4) =~= le_bytes(self.tag(), 4));
        assert(bytes.subrange(4, bytes.len() as int) =~= self.payload());
        match self {
            InstructionView::Initialize(settings) => {
                settings.lemma_round_trip(DecodeMode::Strict);
            },
            InstructionView::Swap(args) => {
                lemma_le_bytes_len(args.amount as nat, 8);
                lemma_le_value_of_le_bytes(args.amount as nat, 8);
            },
            InstructionView::Withdraw(args) => {
                lemma_le_bytes_len(args.amount as nat, 8);
                lemma_le_value_of_le_bytes(args.amount as nat, 8);
            },
        }
    }
}

impl KaizenInstruction {
    /// Reads the request that `data` holds.
    pub fn try_from_slice(data: &[u8]) -> (res: Result<KaizenInstruction, VaultError>)
        ensures
            agrees(res, InstructionView::unpack(data@)),
    {
        if data.len() < 4 {
            return Err(VaultError::MalformedInstruction);
        }
        let tag: u32 = read_u32(data, 0);
        let payload = vstd::slice::slice_subrange(data, 4, data.len());
        assert(payload@.subrange(0, payload@.len() as int) =~= payload@);
        if tag == 0 {
            match Settings::unpack_from_slice(payload) {
                Ok(settings) => Ok(KaizenInstruction::Initialize(settings)),
                Err(_) => Err(VaultError::MalformedInstruction),
            }
        } else if tag == 1 && payload.len() == 8 {
            Ok(KaizenInstruction::Swap(SwapArgs { amount: read_u64(payload, 0) }))
        } else if tag == 2 && payload.len() == 8 {
            Ok(KaizenInstruction::Withdraw(WithdrawArgs { amount: read_u64(payload, 0) }))
        } else {
            Err(VaultError::MalformedInstruction)
        }
    }

    /// The bytes of the request.
    pub fn try_to_vec(&self) -> (bytes: Vec<u8>)
        ensures
            bytes@ == self@.pack(),
    {
        let mut bytes: Vec<u8> = Vec::new();
        match self {
            KaizenInstruction::Initialize(settings) => {
                append_le(&mut bytes, 4, 0);
                settings.serialize(&mut bytes);
            },
            KaizenInstruction::Swap(args) => {
                append_le(&mut bytes, 4, 1);
                append_le(&mut bytes, 8, args.amount);
            },
            KaizenInstruction::Withdraw(args) => {
                append_le(&mut bytes, 4, 2);
                append_le(&mut bytes, 8, args.amount);
            },
        }
        assert(bytes@ =~= self@.pack());
        bytes
    }
}

} // verus!
