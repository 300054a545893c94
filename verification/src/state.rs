//! The persisted records and their fixed-width byte layouts.
//!
//! A record is written field after field in declaration order, integers
//! little-endian, the flag as one byte. Each record type has a view, the
//! record as a mathematical value, and the layout is stated on views:
//! `pack` gives the bytes of a view, `unpack` the view that bytes hold.

use crate::error::{agrees, VaultError};
use crate::le::{
    append, le_bytes, le_value, lemma_le_bytes_len, lemma_le_bytes_of_le_value,
    lemma_le_value_bound, lemma_le_value_of_le_bytes, lemma_pow256_values, read_id, read_u32,
    read_u64, splice, write_id, write_le,
};
use vstd::prelude::*;

verus! {

/// How the flag byte of a record is read.
#[derive(Clone, Copy, Debug, PartialEq, Eq, Structural)]
pub enum DecodeMode {
    /// The flag byte must be 0 or 1.
    Strict,
    /// A flag byte of 0 reads as clear, any other byte as set.
    Lenient,
}

/// The byte that a flag is written as.
pub open spec fn flag_byte(flag: bool) -> u8 {
    if flag {
        1
    } else {
        0
    }
}

/// What a flag byte reads as under `mode`, or the error where the mode does
/// not accept it.
pub open spec fn flag_of(byte: u8, mode: DecodeMode) -> Result<bool, VaultError> {
    if byte == 0 {
        Ok(false)
    } else if byte == 1 || mode == DecodeMode::Lenient {
        Ok(true)
    } else {
        Err(VaultError::InvalidAccountData)
    }
}

fn read_flag(byte: u8, mode: DecodeMode) -> (res: Result<bool, VaultError>)
    ensures
        res == flag_of(byte, mode),
{
    if byte == 0 {
        Ok(false)
    } else if byte == 1 {
        Ok(true)
    } else {
        match mode {
            DecodeMode::Lenient => Ok(true),
            DecodeMode::Strict => Err(VaultError::InvalidAccountData),
        }
    }
}

/// The secondary-unit currency of a vault: its identifier and the price that
/// turns a currency amount into vault units.
#[derive(Clone, Copy, Debug, Default, PartialEq, Eq)]
pub struct Token {
    pub address: [u8; 32],
    pub price: u64,
}

/// A [`Token`] as a mathematical value.
pub struct TokenView {
    pub address: Seq<u8>,
    pub price: u64,
}

impl View for Token {
    type V = TokenView;

    open spec fn view(&self) -> TokenView {
        TokenView { address: self.address@, price: self.price }
    }
}

impl TokenView {
    /// The identifier has its 32 bytes.
    pub open spec fn wf(self) -> bool {
        self.address.len() == 32
    }

    /// The 40 bytes of the record: the address, then the price.
    pub open spec fn pack(self) -> Seq<u8> {
        self.address + le_bytes(self.price as nat, 8)
    }

    /// The fields as they stand at their offsets in `bytes`.
    pub open spec fn fields(bytes: Seq<u8>) -> TokenView {
        TokenView {
            address: bytes.subrange(0, 32),
            price: le_value(bytes.subrange(32, 40)) as u64,
        }
    }

    /// The record that `bytes` hold: any 40 bytes hold one, no others do.
    pub open spec fn unpack(bytes: Seq<u8>) -> Result<TokenView, VaultError> {
        if bytes.len() == 40 {
            Ok(Self::fields(bytes))
        } else {
            Err(VaultError::InvalidAccountData)
        }
    }

    /// A record's bytes are 40, and they hold the record.
    pub proof fn lemma_round_trip(self)
        requires
            self.wf(),
        ensures
            self.pack().len() == 40,
            Self::unpack(self.pack()) == Ok::<TokenView, VaultError>(self),
    {
        let bytes = self.pack();
        lemma_le_bytes_len(self.price as nat, 8);
        lemma_pow256_values();
        lemma_le_value_of_le_bytes(self.price as nat, 8);
        assert(bytes.subrange(0, 32) =~= self.address);
        assert(bytes.subrange(32, 40) =~= le_bytes(self.price as nat, 8));
    }

    /// Any 40 bytes are the bytes of the record that they hold.
    pub proof fn lemma_pack_of_unpack(bytes: Seq<u8>)
        requires
            bytes.len() == 40,
        ensures
            Self::fields(bytes).wf(),
            Self::fields(bytes).pack() == bytes,
    {
        let price_bytes = bytes.subrange(32, 40);
        lemma_pow256_values();
        lemma_le_value_bound(price_bytes);
        lemma_le_bytes_of_le_value(price_bytes);
        assert(Self::fields(bytes).pack() =~= bytes);
    }
}

impl Token {
    /// The length of the record in bytes.
    pub const LEN: usize = 40;

    /// Writes the record over the first 40 bytes of `output`.
    pub fn pack_into_slice(&self, output: &mut [u8])
        requires
            old(output)@.len() >= 40,
        ensures
            final(output)@ == splice(old(output)@, 0, self@.pack()),
    {
        write_id(output, 0, &self.address);
        write_le(output, 32, 8, self.price);
        proof {
            lemma_le_bytes_len(self.price as nat, 8);
            assert(output@ =~= splice(old(output)@, 0, self@.pack()));
        }
    }

    /// Reads the record that `input` holds.
    pub fn unpack_from_slice(input: &[u8]) -> (res: Result<Token, VaultError>)
        ensures
            agrees(res, TokenView::unpack(input@)),
            input@.len() != 40 ==> res == Err::<Token, VaultError>(VaultError::InvalidAccountData),
    {
        if input.len() != Token::LEN {
            return Err(VaultError::InvalidAccountData);
        }
        Ok(Token { address: read_id(input, 0), price: read_u64(input, 32) })
    }

    /// Reads the record that `input` holds. A token carries no flag, so
    /// nothing is left unchecked.
    pub fn unpack_unchecked(input: &[u8]) -> (res: Result<Token, VaultError>)
        ensures
            agrees(res, TokenView::unpack(input@)),
            input@.len() != 40 ==> res == Err::<Token, VaultError>(VaultError::InvalidAccountData),
    {
        if input.len() != Token::LEN {
            return Err(VaultError::InvalidAccountData);
        }
        Token::unpack_from_slice(input)
    }

    /// Writes `src` into `dst`, which must be exactly as long as the record.
    pub fn pack(src: Token, dst: &mut [u8]) -> (res: Result<(), VaultError>)
        ensures
            old(dst)@.len() == 40 ==> res is Ok && final(dst)@ == src@.pack(),
            old(dst)@.len() != 40 ==> res == Err::<(), VaultError>(VaultError::InvalidAccountData)
                && final(dst)@ == old(dst)@,
    {
        if dst.len() != Token::LEN {
            return Err(VaultError::InvalidAccountData);
        }
        src.pack_into_slice(dst);
        proof {
            src@.lemma_round_trip();
            assert(dst@ =~= src@.pack());
        }
        Ok(())
    }

    /// Appends the 40 bytes of the record to `writer`.
    pub fn serialize(&self, writer: &mut Vec<u8>)
        ensures
            final(writer)@ == old(writer)@ + self@.pack(),
            final(writer)@.len() == old(writer)@.len() + 40,
    {
        let mut image = [0u8; 40];
        self.pack_into_slice(&mut image);
        proof {
            self@.lemma_round_trip();
            assert(image@ =~= self@.pack());
        }
        append(writer, &image);
    }

    /// Reads a record from the front of `buf` and moves `buf` past it. With
    /// fewer than 40 bytes, `buf` stays where it is.
    pub fn deserialize(buf: &mut &[u8]) -> (res: Result<Token, VaultError>)
        ensures
            old(buf)@.len() >= 40 ==> agrees(res, TokenView::unpack(old(buf)@.subrange(0, 40)))
                && final(buf)@ == old(buf)@.subrange(40, old(buf)@.len() as int),
            old(buf)@.len() < 40 ==> res == Err::<Token, VaultError>(
                VaultError::InvalidAccountData,
            ) && final(buf)@ == old(buf)@,
    {
        if buf.len() < Token::LEN {
            return Err(VaultError::InvalidAccountData);
        }
        let token = Token::unpack_from_slice(vstd::slice::slice_subrange(*buf, 0, Token::LEN));
        *buf = vstd::slice::slice_subrange(*buf, Token::LEN, buf.len());
        token
    }
}

/// The vault's settings: one record per vault.
#[derive(Clone, Copy, Debug, Default, PartialEq, Eq)]
pub struct Settings {
    pub is_initialized: bool,
    pub revenue_owner: [u8; 32],
    pub interest_basis_points: u32,
    pub locked_token: [u8; 32],
    pub locked_token_owner: [u8; 32],
    pub unlock_timestamp: u64,
    pub supply_total: u64,
    pub supply_locked: u64,
    pub token0: Token,
}

/// A [`Settings`] record as a mathematical value.
pub struct SettingsView {
    pub is_initialized: bool,
    pub revenue_owner: Seq<u8>,
    pub interest_basis_points: u32,
    pub locked_token: Seq<u8>,
    pub locked_token_owner: Seq<u8>,
    pub unlock_timestamp: u64,
    pub supply_total: u64,
    pub supply_locked: u64,
    pub token0: TokenView,
}

impl View for Settings {
    type V = SettingsView;

    open spec fn view(&self) -> SettingsView {
        SettingsView {
            is_initialized: self.is_initialized,
            revenue_owner: self.revenue_owner@,
            interest_basis_points: self.interest_basis_points,
            locked_token: self.locked_token@,
            locked_token_owner: self.locked_token_owner@,
            unlock_timestamp: self.unlock_timestamp,
            supply_total: self.supply_total,
            supply_locked: self.supply_locked,
            token0: self.token0@,
        }
    }
}

impl SettingsView {
    /// Every identifier has its 32 bytes.
    pub open spec fn wf(self) -> bool {
        &&& self.revenue_owner.len() == 32
        &&& self.locked_token.len() == 32
        &&& self.locked_token_owner.len() == 32
        &&& self.token0.wf()
    }

    /// No more is reserved than the vault can hold.
    pub open spec fn within_capacity(self) -> bool {
        self.supply_locked <= self.supply_total
    }

    /// The 165 bytes of the record: the fields in declaration order.
    pub open spec fn pack(self) -> Seq<u8> {
        seq![flag_byte(self.is_initialized)] + self.revenue_owner + le_bytes(
            self.interest_basis_points as nat,
            4,
        ) + self.locked_token + self.locked_token_owner + le_bytes(self.unlock_timestamp as nat, 8)
            + le_bytes(self.supply_total as nat, 8) + le_bytes(self.supply_locked as nat, 8)
            + self.token0.pack()
    }

    /// The fields as they stand at their offsets in `bytes`, the flag set by
    /// any byte but 0.
    pub open spec fn fields(bytes: Seq<u8>) -> SettingsView {
        SettingsView {
            is_initialized: bytes[0] != 0,
            revenue_owner: bytes.subrange(1, 33),
            interest_basis_points: le_value(bytes.subrange(33, 37)) as u32,
            locked_token: bytes.subrange(37, 69),
            locked_token_owner: bytes.subrange(69, 101),
            unlock_timestamp: le_value(bytes.subrange(101, 109)) as u64,
            supply_total: le_value(bytes.subrange(109, 117)) as u64,
            supply_locked: le_value(bytes.subrange(117, 125)) as u64,
            token0: TokenView::fields(bytes.subrange(125, 165)),
        }
    }

    /// The record that `bytes` hold under `mode`: 165 bytes whose first the
    /// mode accepts as a flag hold one, no others do.
    pub open spec fn unpack(bytes: Seq<u8>, mode: DecodeMode) -> Result<SettingsView, VaultError> {
        if bytes.len() != 165 {
            Err(VaultError::InvalidAccountData)
        } else {
            match flag_of(bytes[0], mode) {
                Ok(_) => Ok(Self::fields(bytes)),
                Err(e) => Err(e),
            }
        }
    }

    /// The record that `bytes` hold, read strictly and asked to be
    /// initialized.
    pub open spec fn unpack_initialized(bytes: Seq<u8>) -> Result<SettingsView, VaultError> {
        match Self::unpack(bytes, DecodeMode::Strict) {
            Ok(settings) => if settings.is_initialized {
                Ok(settings)
            } else {
                Err(VaultError::Uninitialized)
            },
            Err(e) => Err(e),
        }
    }

    /// A record's bytes are 165, and under either mode they hold the record.
    pub proof fn lemma_round_trip(self, mode: DecodeMode)
        requires
            self.wf(),
        ensures
            self.pack().len() == 165,
            Self::unpack(self.pack(), mode) == Ok::<SettingsView, VaultError>(self),
    {
        let bytes = self.pack();
        lemma_pow256_values();
        lemma_le_bytes_len(self.interest_basis_points as nat, 4);
        lemma_le_bytes_len(self.unlock_timestamp as nat, 8);
        lemma_le_bytes_len(self.supply_total as nat, 8);
        lemma_le_bytes_len(self.supply_locked as nat, 8);
        lemma_le_value_of_le_bytes(self.interest_basis_points as nat, 4);
        lemma_le_value_of_le_bytes(self.unlock_timestamp as nat, 8);
        lemma_le_value_of_le_bytes(self.supply_total as nat, 8);
        lemma_le_value_of_le_bytes(self.supply_locked as nat, 8);
        self.token0.lemma_round_trip();
        assert(bytes.subrange(1, 33) =~= self.revenue_owner);
        assert(bytes.subrange(33, 37) =~= le_bytes(self.interest_basis_points as nat, 4));
        assert(bytes.subrange(37, 69) =~= self.locked_token);
        assert(bytes.subrange(69, 101) =~= self.locked_token_owner);
        assert(bytes.subrange(101, 109) =~= le_bytes(self.unlock_timestamp as nat, 8));
        assert(bytes.subrange(109, 117) =~= le_bytes(self.supply_total as nat, 8));
        assert(bytes.subrange(117, 125) =~= le_bytes(self.supply_locked as nat, 8));
        assert(bytes.subrange(125, 165) =~= self.token0.pack());
    }

    /// Bytes that a strict reading accepts are the bytes of the record that
    /// they hold: what the encoder writes and what the strict decoder takes
    /// are the same 165-byte strings.
    pub proof fn lemma_pack_of_unpack(bytes: Seq<u8>)
        requires
            Self::unpack(bytes, DecodeMode::Strict) is Ok,
        ensures
            Self::fields(bytes).wf(),
            Self::fields(bytes).pack() == bytes,
    {
        lemma_pow256_values();
        lemma_le_value_bound(bytes.subrange(33, 37));
        lemma_le_value_bound(bytes.subrange(101, 109));
        lemma_le_value_bound(bytes.subrange(109, 117));
        lemma_le_value_bound(bytes.subrange(117, 125));
        lemma_le_bytes_of_le_value(bytes.subrange(33, 37));
        lemma_le_bytes_of_le_value(bytes.subrange(101, 109));
        lemma_le_bytes_of_le_value(bytes.subrange(109, 117));
        lemma_le_bytes_of_le_value(bytes.subrange(117, 125));
        TokenView::lemma_pack_of_unpack(bytes.subrange(125, 165));
        assert(Self::fields(bytes).pack() =~= bytes);
    }
}

impl Settings {
    /// The length of the record in bytes.
    pub const LEN: usize = 165;

    /// Whether the record has been created.
    pub fn is_initialized(&self) -> (flag: bool)
        ensures
            flag == self.is_initialized,
    {
        self.is_initialized
    }

    /// Reads the record that `input` holds under `mode`.
    pub fn decode(input: &[u8], mode: DecodeMode) -> (res: Result<Settings, VaultError>)
        ensures
            agrees(res, SettingsView::unpack(input@, mode)),
            input@.len() != 165 ==> res == Err::<Settings, VaultError>(VaultError::InvalidAccountData),
    {
        if input.len() != Settings::LEN {
            return Err(VaultError::InvalidAccountData);
        }
        let is_initialized = match read_flag(input[0], mode) {
            Ok(flag) => flag,
            Err(e) => return Err(e),
        };
        let token0 = match Token::unpack_unchecked(vstd::slice::slice_subrange(input, 125, 165)) {
            Ok(token) => token,
            Err(e) => return Err(e),
        };
        Ok(
            Settings {
                is_initialized,
                revenue_owner: read_id(input, 1),
                interest_basis_points: read_u32(input, 33),
                locked_token: read_id(input, 37),
                locked_token_owner: read_id(input, 69),
                unlock_timestamp: read_u64(input, 101),
                supply_total: read_u64(input, 109),
                supply_locked: read_u64(input, 117),
                token0,
            },
        )
    }

    /// Reads the record that `input` holds, the flag strictly.
    pub fn unpack_from_slice(input: &[u8]) -> (res: Result<Settings, VaultError>)
        ensures
            agrees(res, SettingsView::unpack(input@, DecodeMode::Strict)),
            input@.len() != 165 ==> res == Err::<Settings, VaultError>(VaultError::InvalidAccountData),
    {
        Settings::decode(input, DecodeMode::Strict)
    }

    /// Reads the record that `input` holds, the flag strictly, without
    /// asking that it be set.
    pub fn unpack_unchecked(input: &[u8]) -> (res: Result<Settings, VaultError>)
        ensures
            agrees(res, SettingsView::unpack(input@, DecodeMode::Strict)),
            input@.len() != 165 ==> res == Err::<Settings, VaultError>(VaultError::InvalidAccountData),
    {
        if input.len() != Settings::LEN {
            return Err(VaultError::InvalidAccountData);
        }
        Settings::unpack_from_slice(input)
    }

    /// Reads the record that `input` holds, the flag strictly, and turns an
    /// uninitialized record down.
    pub fn unpack(input: &[u8]) -> (res: Result<Settings, VaultError>)
        ensures
            agrees(res, SettingsView::unpack_initialized(input@)),
            input@.len() != 165 ==> res == Err::<Settings, VaultError>(VaultError::InvalidAccountData),
    {
        let value = match Settings::unpack_unchecked(input) {
            Ok(value) => value,
            Err(e) => return Err(e),
        };
        if value.is_initialized() {
            Ok(value)
        } else {
            Err(VaultError::Uninitialized)
        }
    }

    /// Writes the record over the first 165 bytes of `output`.
    pub fn pack_into_slice(&self, output: &mut [u8])
        requires
            old(output)@.len() >= 165,
        ensures
            final(output)@ == splice(old(output)@, 0, self@.pack()),
    {
        output[0] = if self.is_initialized {
            1
        } else {
            0
        };
        write_id(output, 1, &self.revenue_owner);
        write_le(output, 33, 4, self.interest_basis_points as u64);
        write_id(output, 37, &self.locked_token);
        write_id(output, 69, &self.locked_token_owner);
        write_le(output, 101, 8, self.unlock_timestamp);
        write_le(output, 109, 8, self.supply_total);
        write_le(output, 117, 8, self.supply_locked);
        write_id(output, 125, &self.token0.address);
        write_le(output, 157, 8, self.token0.price);
        proof {
            lemma_le_bytes_len(self.interest_basis_points as nat, 4);
            lemma_le_bytes_len(self.unlock_timestamp as nat, 8);
            lemma_le_bytes_len(self.supply_total as nat, 8);
            lemma_le_bytes_len(self.supply_locked as nat, 8);
            lemma_le_bytes_len(self.token0.price as nat, 8);
            assert(output@ =~= splice(old(output)@, 0, self@.pack()));
        }
    }

    /// Writes `src` into `dst`, which must be exactly as long as the record.
    pub fn pack(src: Settings, dst: &mut [u8]) -> (res: Result<(), VaultError>)
        ensures
            old(dst)@.len() == 165 ==> res is Ok && final(dst)@ == src@.pack(),
            old(dst)@.len() != 165 ==> res == Err::<(), VaultError>(
                VaultError::InvalidAccountData,
            ) && final(dst)@ == old(dst)@,
    {
        if dst.len() != Settings::LEN {
            return Err(VaultError::InvalidAccountData);
        }
        src.pack_into_slice(dst);
        proof {
            src@.lemma_round_trip(DecodeMode::Strict);
            assert(dst@ =~= src@.pack());
        }
        Ok(())
    }
    /// Appends the 165 bytes of the record to `writer`.
    pub fn serialize(&self, writer: &mut Vec<u8>)
        ensures
            final(writer)@ == old(writer)@ + self@.pack(),
            final(writer)@.len() == old(writer)@.len() + 165,
    {
        let mut image = [0u8; 165];
        self.pack_into_slice(&mut image);
        proof {
            self@.lemma_round_trip(DecodeMode::Strict);
            assert(image@ =~= self@.pack());
        }
        append(writer, &image);
    }

    /// Reads a record from the front of `buf`, the flag strictly, and moves
    /// `buf` past it. Where no record is read, `buf` stays where it is.
    pub fn deserialize(buf: &mut &[u8]) -> (res: Result<Settings, VaultError>)
        ensures
            old(buf)@.len() >= 165 ==> agrees(
                res,
                SettingsView::unpack(old(buf)@.subrange(0, 165), DecodeMode::Strict),
            ),
            old(buf)@.len() < 165 ==> res == Err::<Settings, VaultError>(
                VaultError::InvalidAccountData,
            ),
            res is Ok ==> final(buf)@ == old(buf)@.subrange(165, old(buf)@.len() as int),
            res is Err ==> final(buf)@ == old(buf)@,
    {
        if buf.len() < Settings::LEN {
            return Err(VaultError::InvalidAccountData);
        }
        let settings = match Settings::decode(
            vstd::slice::slice_subrange(*buf, 0, Settings::LEN),
            DecodeMode::Strict,
        ) {
            Ok(settings) => settings,
            Err(e) => return Err(e),
        };
        *buf = vstd::slice::slice_subrange(*buf, Settings::LEN, buf.len());
        Ok(settings)
    }
}

/// What a deposit asks for.
#[derive(Clone, Copy, Debug, Default, PartialEq, Eq, Structural)]
pub struct SwapArgs {
    /// The amount of base currency to lock.
    pub amount: u64,
}

/// What a redemption asks for.
#[derive(Clone, Copy, Debug, Default, PartialEq, Eq, Structural)]
pub struct WithdrawArgs {
    /// The amount of credit to redeem, in vault units.
    pub amount: u64,
}

/// A depositor's balance: one record per depositor.
#[derive(Clone, Copy, Debug, Default, PartialEq, Eq, Structural)]
pub struct Savings {
    pub is_initialized: bool,
    /// The credit still locked, interest included.
    pub total_technical: u64,
    /// The credit redeemed so far.
    pub total_original: u64,
}

/// A [`Savings`] record as a mathematical value.
pub struct SavingsView {
    pub is_initialized: bool,
    pub total_technical: u64,
    pub total_original: u64,
}

impl View for Savings {
    type V = SavingsView;

    open spec fn view(&self) -> SavingsView {
        SavingsView {
            is_initialized: self.is_initialized,
            total_technical: self.total_technical,
            total_original: self.total_original,
        }
    }
}

impl SavingsView {
    /// The credit that the record stands for: none before the first deposit.
    pub open spec fn credit(self) -> u64 {
        if self.is_initialized {
            self.total_technical
        } else {
            0
        }
    }

    /// The 17 bytes of the record: the fields in declaration order.
    pub open spec fn pack(self) -> Seq<u8> {
        seq![flag_byte(self.is_initialized)] + le_bytes(self.total_technical as nat, 8) + le_bytes(
            self.total_original as nat,
            8,
        )
    }

    /// The fields as they stand at their offsets in `bytes`, the flag set by
    /// any byte but 0.
    pub open spec fn fields(bytes: Seq<u8>) -> SavingsView {
        SavingsView {
            is_initialized: bytes[0] != 0,
            total_technical: le_value(bytes.subrange(1, 9)) as u64,
            total_original: le_value(bytes.subrange(9, 17)) as u64,
        }
    }

    /// The record that `bytes` hold under `mode`: 17 bytes whose first the
    /// mode accepts as a flag hold one, no others do.
    pub open spec fn unpack(bytes: Seq<u8>, mode: DecodeMode) -> Result<SavingsView, VaultError> {
        if bytes.len() != 17 {
            Err(VaultError::InvalidAccountData)
        } else {
            match flag_of(bytes[0], mode) {
                Ok(_) => Ok(Self::fields(bytes)),
                Err(e) => Err(e),
            }
        }
    }

    /// The record that `bytes` hold, read strictly and asked to be
    /// initialized.
    pub open spec fn unpack_initialized(bytes: Seq<u8>) -> Result<SavingsView, VaultError> {
        match Self::unpack(bytes, DecodeMode::Strict) {
            Ok(savings) => if savings.is_initialized {
                Ok(savings)
            } else {
                Err(VaultError::Uninitialized)
            },
            Err(e) => Err(e),
        }
    }

    /// A record's bytes are 17, and under either mode they hold the record.
    pub proof fn lemma_round_trip(self, mode: DecodeMode)
        ensures
            self.pack().len() == 17,
            Self::unpack(self.pack(), mode) == Ok::<SavingsView, VaultError>(self),
    {
        let bytes = self.pack();
        lemma_pow256_values();
        lemma_le_bytes_len(self.total_technical as nat, 8);
        lemma_le_bytes_len(self.total_original as nat, 8);
        lemma_le_value_of_le_bytes(self.total_technical as nat, 8);
        lemma_le_value_of_le_bytes(self.total_original as nat, 8);
        assert(bytes.subrange(1, 9) =~= le_bytes(self.total_technical as nat, 8));
        assert(bytes.subrange(9, 17) =~= le_bytes(self.total_original as nat, 8));
    }

    /// Bytes that a strict reading accepts are the bytes of the record that
    /// they hold.
    pub proof fn lemma_pack_of_unpack(bytes: Seq<u8>)
        requires
            Self::unpack(bytes, DecodeMode::Strict) is Ok,
        ensures
            Self::fields(bytes).pack() == bytes,
    {
        lemma_pow256_values();
        lemma_le_value_bound(bytes.subrange(1, 9));
        lemma_le_value_bound(bytes.subrange(9, 17));
        lemma_le_bytes_of_le_value(bytes.subrange(1, 9));
        lemma_le_bytes_of_le_value(bytes.subrange(9, 17));
        assert(Self::fields(bytes).pack() =~= bytes);
    }
}

impl Savings {
    /// The length of the record in bytes.
    pub const LEN: usize = 17;

    /// Whether the depositor has made a first deposit.
    pub fn is_initialized(&self) -> (flag: bool)
        ensures
            flag == self.is_initialized,
    {
        self.is_initialized
    }

    /// Reads the record that `input` holds under `mode`.
    pub fn decode(input: &[u8], mode: DecodeMode) -> (res: Result<Savings, VaultError>)
        ensures
            agrees(res, SavingsView::unpack(input@, mode)),
            input@.len() != 17 ==> res == Err::<Savings, VaultError>(VaultError::InvalidAccountData),
    {
        if input.len() != Savings::LEN {
            return Err(VaultError::InvalidAccountData);
        }
        let is_initialized = match read_flag(input[0], mode) {
            Ok(flag) => flag,
            Err(e) => return Err(e),
        };
        Ok(
            Savings {
                is_initialized,
                total_technical: read_u64(input, 1),
                total_original: read_u64(input, 9),
            },
        )
    }

    /// Reads the record that `input` holds, the flag strictly.
    pub fn unpack_from_slice(input: &[u8]) -> (res: Result<Savings, VaultError>)
        ensures
            agrees(res, SavingsView::unpack(input@, DecodeMode::Strict)),
            input@.len() != 17 ==> res == Err::<Savings, VaultError>(VaultError::InvalidAccountData),
    {
        Savings::decode(input, DecodeMode::Strict)
    }

    /// Reads the record that `input` holds, the flag strictly, without
    /// asking that it be set.
    pub fn unpack_unchecked(input: &[u8]) -> (res: Result<Savings, VaultError>)
        ensures
            agrees(res, SavingsView::unpack(input@, DecodeMode::Strict)),
            input@.len() != 17 ==> res == Err::<Savings, VaultError>(VaultError::InvalidAccountData),
    {
        if input.len() != Savings::LEN {
            return Err(VaultError::InvalidAccountData);
        }
        Savings::unpack_from_slice(input)
    }

    /// Reads the record that `input` holds, the flag strictly, and turns an
    /// uninitialized record down.
    pub fn unpack(input: &[u8]) -> (res: Result<Savings, VaultError>)
        ensures
            agrees(res, SavingsView::unpack_initialized(input@)),
            input@.len() != 17 ==> res == Err::<Savings, VaultError>(VaultError::InvalidAccountData),
    {
        let value = match Savings::unpack_unchecked(input) {
            Ok(value) => value,
            Err(e) => return Err(e),
        };
        if value.is_initialized() {
            Ok(value)
        } else {
            Err(VaultError::Uninitialized)
        }
    }

    /// Writes the record over the first 17 bytes of `output`.
    pub fn pack_into_slice(&self, output: &mut [u8])
        requires
            old(output)@.len() >= 17,
        ensures
            final(output)@ == splice(old(output)@, 0, self@.pack()),
    {
        output[0] = if self.is_initialized {
            1
        } else {
            0
        };
        write_le(output, 1, 8, self.total_technical);
        write_le(output, 9, 8, self.total_original);
        proof {
            lemma_le_bytes_len(self.total_technical as nat, 8);
            lemma_le_bytes_len(self.total_original as nat, 8);
            assert(output@ =~= splice(old(output)@, 0, self@.pack()));
        }
    }

    /// Writes `src` into `dst`, which must be exactly as long as the record.
    pub fn pack(src: Savings, dst: &mut [u8]) -> (res: Result<(), VaultError>)
        ensures
            old(dst)@.len() == 17 ==> res is Ok && final(dst)@ == src@.pack(),
            old(dst)@.len() != 17 ==> res == Err::<(), VaultError>(VaultError::InvalidAccountData)
                && final(dst)@ == old(dst)@,
    {
        if dst.len() != Savings::LEN {
            return Err(VaultError::InvalidAccountData);
        }
        src.pack_into_slice(dst);
        proof {
            src@.lemma_round_trip(DecodeMode::Strict);
            assert(dst@ =~= src@.pack());
        }
        Ok(())
    }
}

} // verus!
