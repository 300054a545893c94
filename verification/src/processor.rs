//! The state machine of the vault.
//!
//! An operation takes the accounts that it names by position, the settings
//! account first and the depositor's account after it, and the current time.
//! It either succeeds and leaves the accounts in their next state, or fails
//! and leaves them as they were. What each operation does is stated on the
//! views of the accounts by `spec_initialize`, `spec_swap` and
//! `spec_withdraw`.

use crate::error::VaultError;
use crate::instruction::{InstructionView, KaizenInstruction};
use crate::state::{
    DecodeMode, Savings, SavingsView, Settings, SettingsView, SwapArgs, WithdrawArgs,
};
use vstd::prelude::*;

verus! {

/// An account as an operation sees it: its balance of native value and its
/// data buffer.
#[derive(Clone, Debug, Default, PartialEq, Eq)]
pub struct Account {
    pub lamports: u64,
    pub data: Vec<u8>,
}

/// An [`Account`] as a mathematical value.
pub struct AccountView {
    pub lamports: u64,
    pub data: Seq<u8>,
}

impl View for Account {
    type V = AccountView;

    open spec fn view(&self) -> AccountView {
        AccountView { lamports: self.lamports, data: self.data@ }
    }
}

impl DeepView for Account {
    type V = AccountView;

    open spec fn deep_view(&self) -> AccountView {
        self@
    }
}

/// The operations of the vault.
pub struct Processor {}

impl Processor {
    /// What a deposit is credited as: the amount and its interest, the rate
    /// counted in hundredths.
    pub open spec fn with_interest(amount: u64, rate: u32) -> int {
        amount + amount * rate / 100
    }

    /// The vault units that a deposit of `amount` reserves at the given rate
    /// and price, or the error in which the arithmetic ends.
    pub open spec fn spec_vault_units(amount: u64, rate: u32, price: u64) -> Result<
        u64,
        VaultError,
    > {
        if amount * rate > u64::MAX || Self::with_interest(amount, rate) > u64::MAX {
            Err(VaultError::ArithmeticOverflow)
        } else if price == 0 {
            Err(VaultError::DivisionByZero)
        } else {
            Ok((Self::with_interest(amount, rate) / (price as int)) as u64)
        }
    }

    /// The vault units that a deposit of `amount` reserves at the given rate
    /// and price.
    pub fn vault_units(amount: u64, rate: u32, price: u64) -> (res: Result<u64, VaultError>)
        ensures
            res == Self::spec_vault_units(amount, rate, price),
    {
        let interest: u64 = match amount.checked_mul(rate as u64) {
            Some(product) => product / 100,
            None => return Err(VaultError::ArithmeticOverflow),
        };
        let credited: u64 = match amount.checked_add(interest) {
            Some(sum) => sum,
            None => return Err(VaultError::ArithmeticOverflow),
        };
        if price == 0 {
            return Err(VaultError::DivisionByZero);
        }
        Ok(credited / price)
    }

    /// The accounts after `initialize`, or the error that it ends in.
    pub open spec fn spec_initialize(
        accounts: Seq<AccountView>,
        payload: SettingsView,
        now: u64,
    ) -> Result<Seq<AccountView>, VaultError> {
        if accounts.len() < 1 {
            Err(VaultError::NotEnoughAccountKeys)
        } else {
            match SettingsView::unpack(accounts[0].data, DecodeMode::Lenient) {
                Err(e) => Err(e),
                Ok(stored) => if stored.is_initialized {
                    Err(VaultError::AlreadyInitialized)
                } else if payload.unlock_timestamp <= now {
                    Err(VaultError::InvalidTimestamp)
                } else {
                    Ok(
                        accounts.update(
                            0,
                            AccountView {
                                lamports: accounts[0].lamports,
                                data: SettingsView {
                                    is_initialized: true,
                                    supply_locked: 0,
                                    ..payload
                                }.pack(),
                            },
                        ),
                    )
                },
            }
        }
    }

    /// Creates the vault: stores `settings` in the first account, flagged
    /// initialized and with nothing reserved.
    pub fn initialize(accounts: &mut [Account], settings: &Settings, now: u64) -> (res: Result<
        (),
        VaultError,
    >)
        ensures
            match Self::spec_initialize(old(accounts).deep_view(), settings@, now) {
                Ok(after) => res is Ok && final(accounts).deep_view() == after,
                Err(e) => res == Err::<(), VaultError>(e) && final(accounts).deep_view() == old(
                    accounts,
                ).deep_view(),
            },
            settings.unlock_timestamp <= now ==> res is Err,
            res is Ok ==> Self::initialize_effect(
                old(accounts).deep_view(),
                final(accounts).deep_view(),
                settings@,
                now,
            ),
    {
        proof {
            let before = accounts.deep_view();
            if Self::spec_initialize(before, settings@, now) is Ok {
                Self::lemma_initialize_effect(before, settings@, now);
            }
        }
        if accounts.len() < 1 {
            return Err(VaultError::NotEnoughAccountKeys);
        }
        let stored = match Settings::decode(accounts[0].data.as_slice(), DecodeMode::Lenient) {
            Ok(stored) => stored,
            Err(e) => return Err(e),
        };
        if stored.is_initialized() {
            return Err(VaultError::AlreadyInitialized);
        }
        if settings.unlock_timestamp <= now {
            return Err(VaultError::InvalidTimestamp);
        }
        let created = Settings { is_initialized: true, supply_locked: 0, ..*settings };
        created.pack_into_slice(accounts[0].data.as_mut_slice());
        proof {
            created@.lemma_round_trip(DecodeMode::Strict);
            assert(accounts[0].data@ =~= created@.pack());
            assert(accounts.deep_view() =~= Self::spec_initialize(
                old(accounts).deep_view(),
                settings@,
                now,
            )->Ok_0);
        }
        Ok(())
    }

    /// The accounts after `swap`, or the error that it ends in.
    pub open spec fn spec_swap(accounts: Seq<AccountView>, args: SwapArgs, now: u64) -> Result<
        Seq<AccountView>,
        VaultError,
    > {
        if accounts.len() < 2 {
            Err(VaultError::NotEnoughAccountKeys)
        } else {
            let vault = accounts[0];
            let depositor = accounts[1];
            match SettingsView::unpack_initialized(vault.data) {
                Err(e) => Err(e),
                Ok(settings) => if now >= settings.unlock_timestamp {
                    Err(VaultError::LockWindowClosed)
                } else if depositor.data.len() != 0 && depositor.data.len() != 17 {
                    Err(VaultError::InvalidAccountData)
                } else {
                    match Self::spec_vault_units(
                        args.amount,
                        settings.interest_basis_points,
                        settings.token0.price,
                    ) {
                        Err(e) => Err(e),
                        Ok(units) => if units > settings.supply_total - settings.supply_locked {
                            Err(VaultError::CapacityExceeded)
                        } else if depositor.lamports < args.amount {
                            Err(VaultError::InsufficientFunds)
                        } else if vault.lamports + args.amount > u64::MAX {
                            Err(VaultError::ArithmeticOverflow)
                        } else {
                            match SavingsView::unpack(depositor.data, DecodeMode::Lenient) {
                                Err(e) => Err(e),
                                Ok(savings) => if savings.credit() + units > u64::MAX {
                                    Err(VaultError::ArithmeticOverflow)
                                } else {
                                    Ok(
                                        accounts.update(
                                            0,
                                            AccountView {
                                                lamports: (vault.lamports + args.amount) as u64,
                                                data: SettingsView {
                                                    supply_locked: (settings.supply_locked
                                                        + units) as u64,
                                                    ..settings
                                                }.pack(),
                                            },
                                        ).update(
                                            1,
                                            AccountView {
                                                lamports: (depositor.lamports
                                                    - args.amount) as u64,
                                                data: SavingsView {
                                                    is_initialized: true,
                                                    total_technical: (savings.credit()
                                                        + units) as u64,
                                                    total_original: savings.total_original,
                                                }.pack(),
                                            },
                                        ),
                                    )
                                },
                            }
                        },
                    }
                },
            }
        }
    }

    /// Locks a deposit: moves the amount from the depositor's account, the
    /// second, to the vault's, the first, reserves the vault units that it
    /// buys and credits them to the depositor.
    pub fn swap(accounts: &mut [Account], swap_args: &SwapArgs, now: u64) -> (res: Result<
        (),
        VaultError,
    >)
        ensures
            match Self::spec_swap(old(accounts).deep_view(), *swap_args, now) {
                Ok(after) => res is Ok && final(accounts).deep_view() == after,
                Err(e) => res == Err::<(), VaultError>(e) && final(accounts).deep_view() == old(
                    accounts,
                ).deep_view(),
            },
            Self::vault(old(accounts).deep_view()) matches Ok(settings) && now
                >= settings.unlock_timestamp ==> res is Err,
            Self::vault(old(accounts).deep_view()) matches Ok(settings) && Self::spec_vault_units(
                swap_args.amount,
                settings.interest_basis_points,
                settings.token0.price,
            ) matches Ok(units) && units > settings.supply_total - settings.supply_locked
                ==> res is Err,
            res is Ok ==> Self::swap_effect(
                old(accounts).deep_view(),
                final(accounts).deep_view(),
                *swap_args,
                now,
            ),
    {
        proof {
            let before = accounts.deep_view();
            if Self::spec_swap(before, *swap_args, now) is Ok {
                Self::lemma_swap_effect(before, *swap_args, now);
            }
        }
        if accounts.len() < 2 {
            return Err(VaultError::NotEnoughAccountKeys);
        }
        let mut settings = match Settings::unpack(accounts[0].data.as_slice()) {
            Ok(settings) => settings,
            Err(e) => return Err(e),
        };
        if settings.unlock_timestamp <= now {
            return Err(VaultError::LockWindowClosed);
        }
        if !accounts[1].data.is_empty() && accounts[1].data.len() != Savings::LEN {
            return Err(VaultError::InvalidAccountData);
        }
        let units: u64 = match Self::vault_units(
            swap_args.amount,
            settings.interest_basis_points,
            settings.token0.price,
        ) {
            Ok(units) => units,
            Err(e) => return Err(e),
        };
        if settings.supply_locked > settings.supply_total || units > settings.supply_total
            - settings.supply_locked {
            return Err(VaultError::CapacityExceeded);
        }
        if accounts[1].lamports < swap_args.amount {
            return Err(VaultError::InsufficientFunds);
        }
        let vault_lamports: u64 = match accounts[0].lamports.checked_add(swap_args.amount) {
            Some(sum) => sum,
            None => return Err(VaultError::ArithmeticOverflow),
        };
        let savings = match Savings::decode(accounts[1].data.as_slice(), DecodeMode::Lenient) {
            Ok(savings) => savings,
            Err(e) => return Err(e),
        };
        let credit: u64 = if savings.is_initialized() {
            savings.total_technical
        } else {
            0
        };
        let total_technical: u64 = match credit.checked_add(units) {
            Some(sum) => sum,
            None => return Err(VaultError::ArithmeticOverflow),
        };
        settings.supply_locked = settings.supply_locked + units;
        let credited = Savings { is_initialized: true, total_technical, ..savings };
        accounts[0].lamports = vault_lamports;
        accounts[1].lamports = accounts[1].lamports - swap_args.amount;
        settings.pack_into_slice(accounts[0].data.as_mut_slice());
        credited.pack_into_slice(accounts[1].data.as_mut_slice());
        proof {
            settings@.lemma_round_trip(DecodeMode::Strict);
            credited@.lemma_round_trip(DecodeMode::Strict);
            assert(accounts[0].data@ =~= settings@.pack());
            assert(accounts[1].data@ =~= credited@.pack());
            assert(accounts.deep_view() =~= Self::spec_swap(
                old(accounts).deep_view(),
                *swap_args,
                now,
            )->Ok_0);
        }
        Ok(())
    }

    /// The accounts after `withdraw`, or the error that it ends in.
    pub open spec fn spec_withdraw(
        accounts: Seq<AccountView>,
        args: WithdrawArgs,
        now: u64,
    ) -> Result<Seq<AccountView>, VaultError> {
        if accounts.len() < 2 {
            Err(VaultError::NotEnoughAccountKeys)
        } else {
            let vault = accounts[0];
            let depositor = accounts[1];
            match SettingsView::unpack_initialized(vault.data) {
                Err(e) => Err(e),
                Ok(settings) => if now < settings.unlock_timestamp {
                    Err(VaultError::LockWindowOpen)
                } else if depositor.data.len() != 17 {
                    Err(VaultError::InvalidAccountData)
                } else if args.amount > settings.supply_locked {
                    Err(VaultError::InsufficientLockedSupply)
                } else {
                    match SavingsView::unpack_initialized(depositor.data) {
                        Err(e) => Err(e),
                        Ok(savings) => if args.amount > savings.total_technical {
                            Err(VaultError::InsufficientBalance)
                        } else if savings.total_original + args.amount > u64::MAX {
                            Err(VaultError::ArithmeticOverflow)
                        } else {
                            Ok(
                                accounts.update(
                                    0,
                                    AccountView {
                                        lamports: vault.lamports,
                                        data: SettingsView {
                                            supply_locked: (settings.supply_locked
                                                - args.amount) as u64,
                                            ..settings
                                        }.pack(),
                                    },
                                ).update(
                                    1,
                                    AccountView {
                                        lamports: depositor.lamports,
                                        data: SavingsView {
                                            is_initialized: true,
                                            total_technical: (savings.total_technical
                                                - args.amount) as u64,
                                            total_original: (savings.total_original
                                                + args.amount) as u64,
                                        }.pack(),
                                    },
                                ),
                            )
                        },
                    }
                },
            }
        }
    }

    /// Redeems credit: releases the amount from the vault's reserve and
    /// moves it, in the depositor's record, from locked to redeemed. No
    /// native value moves.
    pub fn withdraw(accounts: &mut [Account], withdraw_args: &WithdrawArgs, now: u64) -> (res:
        Result<(), VaultError>)
        ensures
            match Self::spec_withdraw(old(accounts).deep_view(), *withdraw_args, now) {
                Ok(after) => res is Ok && final(accounts).deep_view() == after,
                Err(e) => res == Err::<(), VaultError>(e) && final(accounts).deep_view() == old(
                    accounts,
                ).deep_view(),
            },
            Self::vault(old(accounts).deep_view()) matches Ok(settings) && now
                < settings.unlock_timestamp ==> res is Err,
            Self::vault(old(accounts).deep_view()) matches Ok(settings) && withdraw_args.amount
                > settings.supply_locked ==> res is Err,
            Self::balance(old(accounts).deep_view(), DecodeMode::Strict) matches Ok(savings)
                && withdraw_args.amount > savings.total_technical ==> res is Err,
            res is Ok ==> Self::withdraw_effect(
                old(accounts).deep_view(),
                final(accounts).deep_view(),
                *withdraw_args,
                now,
            ),
    {
        proof {
            let before = accounts.deep_view();
            if Self::spec_withdraw(before, *withdraw_args, now) is Ok {
                Self::lemma_withdraw_effect(before, *withdraw_args, now);
            }
        }
        if accounts.len() < 2 {
            return Err(VaultError::NotEnoughAccountKeys);
        }
        let mut settings = match Settings::unpack(accounts[0].data.as_slice()) {
            Ok(settings) => settings,
            Err(e) => return Err(e),
        };
        if now < settings.unlock_timestamp {
            return Err(VaultError::LockWindowOpen);
        }
        if accounts[1].data.is_empty() || accounts[1].data.len() != Savings::LEN {
            return Err(VaultError::InvalidAccountData);
        }
        if settings.supply_locked < withdraw_args.amount {
            return Err(VaultError::InsufficientLockedSupply);
        }
        let mut savings = match Savings::unpack(accounts[1].data.as_slice()) {
            Ok(savings) => savings,
            Err(e) => return Err(e),
        };
        if savings.total_technical < withdraw_args.amount {
            return Err(VaultError::InsufficientBalance);
        }
        let total_original: u64 = match savings.total_original.checked_add(withdraw_args.amount) {
            Some(sum) => sum,
            None => return Err(VaultError::ArithmeticOverflow),
        };
        settings.supply_locked = settings.supply_locked - withdraw_args.amount;
        savings.total_technical = savings.total_technical - withdraw_args.amount;
        savings.total_original = total_original;
        settings.pack_into_slice(accounts[0].data.as_mut_slice());
        savings.pack_into_slice(accounts[1].data.as_mut_slice());
        proof {
            settings@.lemma_round_trip(DecodeMode::Strict);
            savings@.lemma_round_trip(DecodeMode::Strict);
            assert(accounts[0].data@ =~= settings@.pack());
            assert(accounts[1].data@ =~= savings@.pack());
            assert(accounts.deep_view() =~= Self::spec_withdraw(
                old(accounts).deep_view(),
                *withdraw_args,
                now,
            )->Ok_0);
        }
        Ok(())
    }

    /// The accounts after the request that `data` holds, or the error that
    /// it ends in.
    pub open spec fn spec_process_instruction(
        accounts: Seq<AccountView>,
        data: Seq<u8>,
        now: u64,
    ) -> Result<Seq<AccountView>, VaultError> {
        match InstructionView::unpack(data) {
            Err(e) => Err(e),
            Ok(InstructionView::Initialize(settings)) => Self::spec_initialize(
                accounts,
                settings,
                now,
            ),
            Ok(InstructionView::Swap(args)) => Self::spec_swap(accounts, args, now),
            Ok(InstructionView::Withdraw(args)) => Self::spec_withdraw(accounts, args, now),
        }
    }

    /// Reads the request in `instruction_data` and applies it to `accounts`
    /// at time `now`.
    pub fn process_instruction(
        _program_id: &[u8; 32],
        accounts: &mut [Account],
        instruction_data: &[u8],
        now: u64,
    ) -> (res: Result<(), VaultError>)
        ensures
            match Self::spec_process_instruction(
                old(accounts).deep_view(),
                instruction_data@,
                now,
            ) {
                Ok(after) => res is Ok && final(accounts).deep_view() == after,
                Err(e) => res == Err::<(), VaultError>(e) && final(accounts).deep_view() == old(
                    accounts,
                ).deep_view(),
            },
    {
        let instruction = match KaizenInstruction::try_from_slice(instruction_data) {
            Ok(instruction) => instruction,
            Err(e) => return Err(e),
        };
        match instruction {
            KaizenInstruction::Initialize(settings) => Self::initialize(accounts, &settings, now),
            KaizenInstruction::Swap(swap_args) => Self::swap(accounts, &swap_args, now),
            KaizenInstruction::Withdraw(withdraw_args) => Self::withdraw(
                accounts,
                &withdraw_args,
                now,
            ),
        }
    }

    /// The settings that the first account holds, read strictly and asked to
    /// be initialized.
    pub open spec fn vault(accounts: Seq<AccountView>) -> Result<SettingsView, VaultError> {
        if accounts.len() < 1 {
            Err(VaultError::NotEnoughAccountKeys)
        } else {
            SettingsView::unpack_initialized(accounts[0].data)
        }
    }

    /// The balance that the second account holds under `mode`.
    pub open spec fn balance(accounts: Seq<AccountView>, mode: DecodeMode) -> Result<
        SavingsView,
        VaultError,
    > {
        if accounts.len() < 2 {
            Err(VaultError::NotEnoughAccountKeys)
        } else {
            SavingsView::unpack(accounts[1].data, mode)
        }
    }

    /// The amount with its interest is the floor of `amount * (100 + rate) /
    /// 100`.
    pub proof fn lemma_with_interest(amount: u64, rate: u32)
        ensures
            Self::with_interest(amount, rate) == amount * (100 + rate) / 100,
    {
        let interest = amount * rate;
        assert(amount * (100 + rate) == 100 * amount + interest) by (nonlinear_arith)
            requires
                interest == amount * rate,
        ;
        assert((100 * amount + interest) / 100 == amount + interest / 100);
    }

    /// `initialize` turns down an unlock time that is not in the future.
    pub proof fn lemma_initialize_needs_future(
        accounts: Seq<AccountView>,
        payload: SettingsView,
        now: u64,
    )
        requires
            payload.unlock_timestamp <= now,
        ensures
            Self::spec_initialize(accounts, payload, now) is Err,
    {
    }

    /// What a successful `initialize` has done. The stored record was not
    /// initialized and the payload's unlock time lay ahead. Whatever the
    /// payload says of them, the vault is now flagged initialized and has
    /// nothing reserved; every other field is the payload's. No native value
    /// moved and no other account changed.
    pub open spec fn initialize_effect(
        before: Seq<AccountView>,
        after: Seq<AccountView>,
        payload: SettingsView,
        now: u64,
    ) -> bool {
        &&& before.len() >= 1
        &&& SettingsView::unpack(before[0].data, DecodeMode::Lenient) matches Ok(stored)
        &&& !stored.is_initialized
        &&& payload.unlock_timestamp > now
        &&& Self::vault(after) == Ok::<SettingsView, VaultError>(
            SettingsView { is_initialized: true, supply_locked: 0, ..payload },
        )
        &&& after.len() == before.len()
        &&& after[0].lamports == before[0].lamports
        &&& forall|i: int| 1 <= i < before.len() ==> after[i] == before[i]
    }

    /// A successful `initialize` has the effect that `initialize_effect`
    /// states.
    pub proof fn lemma_initialize_effect(
        accounts: Seq<AccountView>,
        payload: SettingsView,
        now: u64,
    )
        requires
            payload.wf(),
            Self::spec_initialize(accounts, payload, now) is Ok,
        ensures
            Self::initialize_effect(
                accounts,
                Self::spec_initialize(accounts, payload, now)->Ok_0,
                payload,
                now,
            ),
    {
        SettingsView { is_initialized: true, supply_locked: 0, ..payload }.lemma_round_trip(
            DecodeMode::Strict,
        );
    }

    /// A vault is created once: on the accounts that one `initialize` left,
    /// another fails with `AlreadyInitialized`, whatever its payload and
    /// time.
    pub proof fn lemma_initialize_once(
        accounts: Seq<AccountView>,
        payload: SettingsView,
        now: u64,
        again: SettingsView,
        later: u64,
    )
        requires
            payload.wf(),
            Self::spec_initialize(accounts, payload, now) is Ok,
        ensures
            Self::spec_initialize(
                Self::spec_initialize(accounts, payload, now)->Ok_0,
                again,
                later,
            ) == Err::<Seq<AccountView>, VaultError>(VaultError::AlreadyInitialized),
    {
        SettingsView { is_initialized: true, supply_locked: 0, ..payload }.lemma_round_trip(
            DecodeMode::Lenient,
        );
    }

    /// `swap` turns a deposit down once the unlock time has come.
    pub proof fn lemma_swap_needs_open_window(
        accounts: Seq<AccountView>,
        args: SwapArgs,
        now: u64,
    )
        requires
            Self::vault(accounts) matches Ok(settings) && now >= settings.unlock_timestamp,
        ensures
            Self::spec_swap(accounts, args, now) is Err,
    {
    }

    /// `swap` turns down a deposit that buys more vault units than are free.
    pub proof fn lemma_swap_needs_capacity(accounts: Seq<AccountView>, args: SwapArgs, now: u64)
        requires
            Self::vault(accounts) matches Ok(settings) && Self::spec_vault_units(
                args.amount,
                settings.interest_basis_points,
                settings.token0.price,
            ) matches Ok(units) && units > settings.supply_total - settings.supply_locked,
        ensures
            Self::spec_swap(accounts, args, now) is Err,
    {
    }

    /// What a successful `swap` has done. It came before the unlock time. It
    /// reserved the floor of `amount * (100 + rate) / 100`, divided by the
    /// price and floored again, and changed nothing else in the settings;
    /// the reserve stays within the vault's capacity. The depositor's credit
    /// grew by the same number of units, from nothing where the record was
    /// not yet initialized; the record is initialized now, and what it
    /// counts as redeemed is as before. The amount moved from the
    /// depositor's account to the vault's, and no other account changed.
    pub open spec fn swap_effect(
        before: Seq<AccountView>,
        after: Seq<AccountView>,
        args: SwapArgs,
        now: u64,
    ) -> bool {
        &&& Self::vault(before) matches Ok(settings)
        &&& Self::balance(before, DecodeMode::Lenient) matches Ok(savings)
        &&& now < settings.unlock_timestamp
        &&& settings.token0.price > 0
        &&& {
            let units = args.amount * (100 + settings.interest_basis_points) / 100 / (
            settings.token0.price as int);
            &&& settings.supply_locked + units <= settings.supply_total
            &&& savings.credit() + units <= u64::MAX
            &&& Self::vault(after) == Ok::<SettingsView, VaultError>(
                SettingsView { supply_locked: (settings.supply_locked + units) as u64, ..settings },
            )
            &&& Self::balance(after, DecodeMode::Strict) == Ok::<SavingsView, VaultError>(
                SavingsView {
                    is_initialized: true,
                    total_technical: (savings.credit() + units) as u64,
                    total_original: savings.total_original,
                },
            )
        }
        &&& after.len() == before.len()
        &&& after[0].lamports == before[0].lamports + args.amount
        &&& after[1].lamports == before[1].lamports - args.amount
        &&& forall|i: int| 2 <= i < before.len() ==> after[i] == before[i]
    }

    /// A successful `swap` has the effect that `swap_effect` states.
    pub proof fn lemma_swap_effect(accounts: Seq<AccountView>, args: SwapArgs, now: u64)
        requires
            Self::spec_swap(accounts, args, now) is Ok,
        ensures
            Self::swap_effect(accounts, Self::spec_swap(accounts, args, now)->Ok_0, args, now),
    {
        let settings = Self::vault(accounts)->Ok_0;
        let savings = Self::balance(accounts, DecodeMode::Lenient)->Ok_0;
        let units = Self::spec_vault_units(
            args.amount,
            settings.interest_basis_points,
            settings.token0.price,
        )->Ok_0;
        Self::lemma_with_interest(args.amount, settings.interest_basis_points);
        SettingsView::lemma_pack_of_unpack(accounts[0].data);
        SettingsView {
            supply_locked: (settings.supply_locked + units) as u64,
            ..settings
        }.lemma_round_trip(DecodeMode::Strict);
        SavingsView {
            is_initialized: true,
            total_technical: (savings.credit() + units) as u64,
            total_original: savings.total_original,
        }.lemma_round_trip(DecodeMode::Strict);
    }

    /// `withdraw` turns a redemption down before the unlock time.
    pub proof fn lemma_withdraw_needs_closed_window(
        accounts: Seq<AccountView>,
        args: WithdrawArgs,
        now: u64,
    )
        requires
            Self::vault(accounts) matches Ok(settings) && now < settings.unlock_timestamp,
        ensures
            Self::spec_withdraw(accounts, args, now) is Err,
    {
    }

    /// `withdraw` turns down a redemption of more than the vault has
    /// reserved.
    pub proof fn lemma_withdraw_needs_reserve(
        accounts: Seq<AccountView>,
        args: WithdrawArgs,
        now: u64,
    )
        requires
            Self::vault(accounts) matches Ok(settings) && args.amount > settings.supply_locked,
        ensures
            Self::spec_withdraw(accounts, args, now) is Err,
    {
    }

    /// `withdraw` turns down a redemption of more than the depositor's
    /// locked credit.
    pub proof fn lemma_withdraw_needs_credit(
        accounts: Seq<AccountView>,
        args: WithdrawArgs,
        now: u64,
    )
        requires
            Self::balance(accounts, DecodeMode::Strict) matches Ok(savings) && args.amount
                > savings.total_technical,
        ensures
            Self::spec_withdraw(accounts, args, now) is Err,
    {
    }

    /// What a successful `withdraw` has done. It came at or after the unlock
    /// time and asked for no more than the reserve and the depositor's
    /// locked credit. The reserve and the locked credit each fell by the
    /// amount, the redeemed credit rose by it, and nothing else changed in
    /// either record. No account's native value changed, and no other
    /// account changed at all.
    pub open spec fn withdraw_effect(
        before: Seq<AccountView>,
        after: Seq<AccountView>,
        args: WithdrawArgs,
        now: u64,
    ) -> bool {
        &&& Self::vault(before) matches Ok(settings)
        &&& Self::balance(before, DecodeMode::Strict) matches Ok(savings)
        &&& savings.is_initialized
        &&& now >= settings.unlock_timestamp
        &&& args.amount <= settings.supply_locked
        &&& args.amount <= savings.total_technical
        &&& savings.total_original + args.amount <= u64::MAX
        &&& Self::vault(after) == Ok::<SettingsView, VaultError>(
            SettingsView { supply_locked: (settings.supply_locked - args.amount) as u64, ..settings },
        )
        &&& Self::balance(after, DecodeMode::Strict) == Ok::<SavingsView, VaultError>(
            SavingsView {
                is_initialized: true,
                total_technical: (savings.total_technical - args.amount) as u64,
                total_original: (savings.total_original + args.amount) as u64,
            },
        )
        &&& after.len() == before.len()
        &&& after[0].lamports == before[0].lamports
        &&& after[1].lamports == before[1].lamports
        &&& forall|i: int| 2 <= i < before.len() ==> after[i] == before[i]
    }

    /// A successful `withdraw` has the effect that `withdraw_effect` states.
    pub proof fn lemma_withdraw_effect(accounts: Seq<AccountView>, args: WithdrawArgs, now: u64)
        requires
            Self::spec_withdraw(accounts, args, now) is Ok,
        ensures
            Self::withdraw_effect(
                accounts,
                Self::spec_withdraw(accounts, args, now)->Ok_0,
                args,
                now,
            ),
    {
        let settings = Self::vault(accounts)->Ok_0;
        let savings = Self::balance(accounts, DecodeMode::Strict)->Ok_0;
        SettingsView::lemma_pack_of_unpack(accounts[0].data);
        SettingsView {
            supply_locked: (settings.supply_locked - args.amount) as u64,
            ..settings
        }.lemma_round_trip(DecodeMode::Strict);
        SavingsView {
            is_initialized: true,
            total_technical: (savings.total_technical - args.amount) as u64,
            total_original: (savings.total_original + args.amount) as u64,
        }.lemma_round_trip(DecodeMode::Strict);
    }

    /// No operation takes the reserve above the vault's capacity: after
    /// `initialize` and after `swap` it is within capacity, and `withdraw`
    /// keeps it there.
    pub proof fn lemma_reserve_within_capacity(
        accounts: Seq<AccountView>,
        data: Seq<u8>,
        now: u64,
    )
        requires
            Self::spec_process_instruction(accounts, data, now) is Ok,
            InstructionView::unpack(data) is Ok,
            InstructionView::unpack(data) matches Ok(InstructionView::Withdraw(_))
                ==> Self::vault(accounts) matches Ok(settings) && settings.within_capacity(),
        ensures
            Self::vault(Self::spec_process_instruction(accounts, data, now)->Ok_0) matches Ok(
                settings,
            ) && settings.within_capacity(),
    {
        match InstructionView::unpack(data)->Ok_0 {
            InstructionView::Initialize(payload) => {
                SettingsView::lemma_pack_of_unpack(data.subrange(4, data.len() as int));
                Self::lemma_initialize_effect(accounts, payload, now);
            },
            InstructionView::Swap(args) => {
                Self::lemma_swap_effect(accounts, args, now);
            },
            InstructionView::Withdraw(args) => {
                Self::lemma_withdraw_effect(accounts, args, now);
            },
        }
    }
}

} // verus!
