use kaizen::error::VaultError;
use kaizen::instruction::KaizenInstruction;
use kaizen::processor::{Account, Processor};
use kaizen::state::{Savings, Settings, SwapArgs, Token, WithdrawArgs};

const T: u64 = 1_629_999_999;

fn payload() -> Settings {
    Settings {
        is_initialized: false,
        revenue_owner: [1; 32],
        interest_basis_points: 10,
        locked_token: [2; 32],
        locked_token_owner: [3; 32],
        unlock_timestamp: T,
        supply_total: 1_000_000,
        supply_locked: 999,
        token0: Token { address: [4; 32], price: 2 },
    }
}

fn stored(settings: Settings) -> Vec<u8> {
    let mut data = vec![0u8; 165];
    assert_eq!(Settings::pack(settings, &mut data), Ok(()));
    data
}

fn saved(savings: Savings) -> Vec<u8> {
    let mut data = vec![0u8; 17];
    assert_eq!(Savings::pack(savings, &mut data), Ok(()));
    data
}

fn vault(settings: Settings, lamports: u64) -> Account {
    Account { lamports, data: stored(settings) }
}

fn open_vault() -> Account {
    vault(Settings { is_initialized: true, supply_locked: 0, ..payload() }, 5_000)
}

fn fresh_depositor() -> Account {
    Account { lamports: 7_000, data: vec![0u8; 17] }
}

fn depositor(savings: Savings) -> Account {
    Account { lamports: 7_000, data: saved(savings) }
}

fn settings_of(account: &Account) -> Settings {
    Settings::unpack(&account.data).unwrap()
}

fn savings_of(account: &Account) -> Savings {
    Savings::unpack(&account.data).unwrap()
}

fn swap(accounts: &mut [Account], amount: u64, now: u64) -> Result<(), VaultError> {
    Processor::swap(accounts, &SwapArgs { amount }, now)
}

fn withdraw(accounts: &mut [Account], amount: u64, now: u64) -> Result<(), VaultError> {
    Processor::withdraw(accounts, &WithdrawArgs { amount }, now)
}

#[test]
fn vault_units_of_the_example() {
    assert_eq!(Processor::vault_units(100, 10, 2), Ok(55));
}

#[test]
fn vault_units_floor_twice() {
    // 105 + 1050 / 100 = 115, and 115 / 2 = 57
    assert_eq!(Processor::vault_units(105, 10, 2), Ok(57));
    // 9 + 9 * 15 / 100 = 10, and 10 / 3 = 3
    assert_eq!(Processor::vault_units(9, 15, 3), Ok(3));
    assert_eq!(Processor::vault_units(0, 10, 2), Ok(0));
    assert_eq!(Processor::vault_units(1, 0, 2), Ok(0));
    assert_eq!(Processor::vault_units(1_000, 250, 1), Ok(3_500));
}

#[test]
fn vault_units_agree_with_the_closed_formula() {
    for (amount, rate, price) in [(100u64, 10u32, 2u64), (105, 10, 2), (9, 15, 3), (12_345, 37, 11), (1, 99, 1)] {
        let expected = (amount as u128 * (100 + rate as u128) / 100 / price as u128) as u64;
        assert_eq!(Processor::vault_units(amount, rate, price), Ok(expected));
    }
}

#[test]
fn vault_units_overflow_in_the_product() {
    // 2^60 * 20 leaves 64 bits though the sum with interest would fit
    assert_eq!(Processor::vault_units(1 << 60, 20, 1), Err(VaultError::ArithmeticOverflow));
    assert_eq!(Processor::vault_units(u64::MAX, 2, 1), Err(VaultError::ArithmeticOverflow));
}

#[test]
fn vault_units_overflow_in_the_sum() {
    // the product fits, the amount with its interest does not
    assert_eq!(Processor::vault_units(u64::MAX, 1, 1), Err(VaultError::ArithmeticOverflow));
    assert_eq!(Processor::vault_units(u64::MAX, 0, 1), Ok(u64::MAX));
}

#[test]
fn vault_units_at_a_zero_price() {
    assert_eq!(Processor::vault_units(100, 10, 0), Err(VaultError::DivisionByZero));
    // overflow is found before the price is looked at
    assert_eq!(Processor::vault_units(u64::MAX, 2, 0), Err(VaultError::ArithmeticOverflow));
}

#[test]
fn initialize_stores_the_payload() {
    let mut accounts = vec![Account { lamports: 5_000, data: vec![0u8; 165] }];
    assert_eq!(Processor::initialize(&mut accounts, &payload(), T - 1), Ok(()));
    assert_eq!(accounts[0].lamports, 5_000);
    assert_eq!(
        settings_of(&accounts[0]),
        Settings { is_initialized: true, supply_locked: 0, ..payload() }
    );
}

#[test]
fn initialize_resets_the_reserve() {
    for supply_locked in [0u64, 1, 999, 1_000_000, u64::MAX] {
        let mut accounts = vec![Account { lamports: 0, data: vec![0u8; 165] }];
        let request = Settings { supply_locked, ..payload() };
        assert_eq!(Processor::initialize(&mut accounts, &request, 0), Ok(()));
        assert_eq!(settings_of(&accounts[0]).supply_locked, 0);
    }
}

#[test]
fn initialize_sets_the_flag_whatever_the_payload_says() {
    for is_initialized in [false, true] {
        let mut accounts = vec![Account { lamports: 0, data: vec![0u8; 165] }];
        let request = Settings { is_initialized, ..payload() };
        assert_eq!(Processor::initialize(&mut accounts, &request, 0), Ok(()));
        assert!(settings_of(&accounts[0]).is_initialized);
    }
}

#[test]
fn initialize_rejects_an_unlock_time_that_is_not_ahead() {
    for now in [T, T + 1, u64::MAX] {
        let mut accounts = vec![Account { lamports: 5_000, data: vec![0u8; 165] }];
        assert_eq!(
            Processor::initialize(&mut accounts, &payload(), now),
            Err(VaultError::InvalidTimestamp)
        );
        assert_eq!(accounts, vec![Account { lamports: 5_000, data: vec![0u8; 165] }]);
    }
}

#[test]
fn initialize_rejects_a_second_call() {
    let mut accounts = vec![Account { lamports: 5_000, data: vec![0u8; 165] }];
    assert_eq!(Processor::initialize(&mut accounts, &payload(), T - 1), Ok(()));
    let after_first = accounts.clone();
    let other = Settings { supply_total: 5, unlock_timestamp: u64::MAX, ..payload() };
    assert_eq!(
        Processor::initialize(&mut accounts, &other, 0),
        Err(VaultError::AlreadyInitialized)
    );
    assert_eq!(accounts, after_first);
}

#[test]
fn initialize_reads_the_stored_flag_leniently() {
    let mut data = vec![0u8; 165];
    data[0] = 7;
    let mut accounts = vec![Account { lamports: 0, data: data.clone() }];
    assert_eq!(
        Processor::initialize(&mut accounts, &payload(), 0),
        Err(VaultError::AlreadyInitialized)
    );
    assert_eq!(accounts[0].data, data);
}

#[test]
fn initialize_overwrites_what_lies_behind_a_clear_flag() {
    let mut data = vec![0xabu8; 165];
    data[0] = 0;
    let mut accounts = vec![Account { lamports: 0, data }];
    assert_eq!(Processor::initialize(&mut accounts, &payload(), 0), Ok(()));
    assert_eq!(
        settings_of(&accounts[0]),
        Settings { is_initialized: true, supply_locked: 0, ..payload() }
    );
}

#[test]
fn initialize_rejects_a_buffer_of_another_length() {
    for len in [0usize, 17, 164, 166] {
        let mut accounts = vec![Account { lamports: 0, data: vec![0u8; len] }];
        assert_eq!(
            Processor::initialize(&mut accounts, &payload(), 0),
            Err(VaultError::InvalidAccountData)
        );
        assert_eq!(accounts[0].data, vec![0u8; len]);
    }
}

#[test]
fn initialize_needs_the_settings_account() {
    let mut accounts: Vec<Account> = Vec::new();
    assert_eq!(
        Processor::initialize(&mut accounts, &payload(), 0),
        Err(VaultError::NotEnoughAccountKeys)
    );
}

#[test]
fn initialize_finds_a_used_record_before_a_late_unlock_time() {
    let mut accounts = vec![open_vault()];
    assert_eq!(
        Processor::initialize(&mut accounts, &payload(), T + 1),
        Err(VaultError::AlreadyInitialized)
    );
}

#[test]
fn initialize_leaves_further_accounts_alone() {
    let mut accounts = vec![Account { lamports: 1, data: vec![0u8; 165] }, fresh_depositor()];
    assert_eq!(Processor::initialize(&mut accounts, &payload(), 0), Ok(()));
    assert_eq!(accounts[1], fresh_depositor());
}

#[test]
fn swap_of_the_example() {
    let mut accounts = vec![open_vault(), fresh_depositor()];
    assert_eq!(swap(&mut accounts, 100, T - 1), Ok(()));
    assert_eq!(
        settings_of(&accounts[0]),
        Settings { is_initialized: true, supply_locked: 55, ..payload() }
    );
    assert_eq!(
        savings_of(&accounts[1]),
        Savings { is_initialized: true, total_technical: 55, total_original: 0 }
    );
    assert_eq!(accounts[0].lamports, 5_100);
    assert_eq!(accounts[1].lamports, 6_900);
}

#[test]
fn swap_adds_to_what_is_there() {
    let mut accounts = vec![
        vault(Settings { is_initialized: true, supply_locked: 1_000, ..payload() }, 0),
        depositor(Savings { is_initialized: true, total_technical: 40, total_original: 9 }),
    ];
    assert_eq!(swap(&mut accounts, 105, 0), Ok(()));
    assert_eq!(settings_of(&accounts[0]).supply_locked, 1_057);
    assert_eq!(
        savings_of(&accounts[1]),
        Savings { is_initialized: true, total_technical: 97, total_original: 9 }
    );
}

#[test]
fn swap_changes_only_the_reserve_in_the_settings() {
    let before = Settings { is_initialized: true, supply_locked: 3, ..payload() };
    let mut accounts = vec![vault(before, 0), fresh_depositor()];
    assert_eq!(swap(&mut accounts, 100, 0), Ok(()));
    assert_eq!(settings_of(&accounts[0]), Settings { supply_locked: 58, ..before });
}

#[test]
fn swap_seeds_an_uninitialized_record() {
    // behind a clear flag the stored credit does not count; what was
    // redeemed stays
    let mut accounts = vec![
        open_vault(),
        depositor(Savings { is_initialized: false, total_technical: 1_000, total_original: 4 }),
    ];
    assert_eq!(swap(&mut accounts, 100, 0), Ok(()));
    assert_eq!(
        savings_of(&accounts[1]),
        Savings { is_initialized: true, total_technical: 55, total_original: 4 }
    );
}

#[test]
fn swap_reads_the_depositor_flag_leniently() {
    let mut data = saved(Savings { is_initialized: true, total_technical: 5, total_original: 0 });
    data[0] = 0xff;
    let mut accounts = vec![open_vault(), Account { lamports: 7_000, data }];
    assert_eq!(swap(&mut accounts, 100, 0), Ok(()));
    assert_eq!(
        savings_of(&accounts[1]),
        Savings { is_initialized: true, total_technical: 60, total_original: 0 }
    );
    assert_eq!(accounts[1].data[0], 1);
}

#[test]
fn swap_rejects_at_and_after_the_unlock_time() {
    for now in [T, T + 1, u64::MAX] {
        let mut accounts = vec![open_vault(), fresh_depositor()];
        assert_eq!(swap(&mut accounts, 100, now), Err(VaultError::LockWindowClosed));
        assert_eq!(accounts, vec![open_vault(), fresh_depositor()]);
    }
}

#[test]
fn swap_rejects_more_than_the_free_capacity() {
    let full = Settings { is_initialized: true, supply_total: 100, supply_locked: 46, ..payload() };
    // 100 buys 55 units, 54 are free
    let mut accounts = vec![vault(full, 0), fresh_depositor()];
    assert_eq!(swap(&mut accounts, 100, 0), Err(VaultError::CapacityExceeded));
    assert_eq!(accounts, vec![vault(full, 0), fresh_depositor()]);
    // 98 buys 53
    assert_eq!(swap(&mut accounts, 98, 0), Ok(()));
    assert_eq!(settings_of(&accounts[0]).supply_locked, 99);
}

#[test]
fn swap_fills_the_vault_to_the_brim() {
    let nearly = Settings { is_initialized: true, supply_total: 100, supply_locked: 45, ..payload() };
    let mut accounts = vec![vault(nearly, 0), fresh_depositor()];
    assert_eq!(swap(&mut accounts, 100, 0), Ok(()));
    assert_eq!(settings_of(&accounts[0]).supply_locked, 100);
    assert_eq!(swap(&mut accounts, 2, 0), Err(VaultError::CapacityExceeded));
    // a deposit that buys nothing still fits
    assert_eq!(swap(&mut accounts, 1, 0), Ok(()));
    assert_eq!(settings_of(&accounts[0]).supply_locked, 100);
}

#[test]
fn swap_rejects_when_more_is_reserved_than_the_vault_holds() {
    let broken = Settings { is_initialized: true, supply_total: 10, supply_locked: 11, ..payload() };
    let mut accounts = vec![vault(broken, 0), fresh_depositor()];
    assert_eq!(swap(&mut accounts, 0, 0), Err(VaultError::CapacityExceeded));
}

#[test]
fn swap_needs_an_initialized_vault() {
    let mut accounts = vec![Account { lamports: 0, data: vec![0u8; 165] }, fresh_depositor()];
    assert_eq!(swap(&mut accounts, 100, 0), Err(VaultError::Uninitialized));
}

#[test]
fn swap_reads_the_vault_strictly() {
    let mut data = stored(Settings { is_initialized: true, ..payload() });
    data[0] = 2;
    let mut accounts = vec![Account { lamports: 0, data }, fresh_depositor()];
    assert_eq!(swap(&mut accounts, 100, 0), Err(VaultError::InvalidAccountData));
    let mut accounts = vec![Account { lamports: 0, data: vec![1u8; 164] }, fresh_depositor()];
    assert_eq!(swap(&mut accounts, 100, 0), Err(VaultError::InvalidAccountData));
}

#[test]
fn swap_rejects_a_depositor_buffer_of_another_length() {
    for len in [1usize, 16, 18, 165] {
        let mut accounts = vec![open_vault(), Account { lamports: 7_000, data: vec![0u8; len] }];
        assert_eq!(swap(&mut accounts, 100, 0), Err(VaultError::InvalidAccountData));
        assert_eq!(accounts[0], open_vault());
        assert_eq!(accounts[1].lamports, 7_000);
    }
}

#[test]
fn swap_cannot_credit_an_empty_buffer() {
    let mut accounts = vec![open_vault(), Account { lamports: 7_000, data: Vec::new() }];
    assert_eq!(swap(&mut accounts, 100, 0), Err(VaultError::InvalidAccountData));
    assert_eq!(accounts, vec![open_vault(), Account { lamports: 7_000, data: Vec::new() }]);
}

#[test]
fn swap_checks_an_empty_buffer_last() {
    // an empty buffer passes the first look at the depositor, so what is
    // found on the way to the credit comes first
    let full = Settings { is_initialized: true, supply_total: 10, ..payload() };
    let mut accounts = vec![vault(full, 0), Account { lamports: 7_000, data: Vec::new() }];
    assert_eq!(swap(&mut accounts, 100, 0), Err(VaultError::CapacityExceeded));
    let mut accounts = vec![open_vault(), Account { lamports: 99, data: Vec::new() }];
    assert_eq!(swap(&mut accounts, 100, 0), Err(VaultError::InsufficientFunds));
    // a buffer of a wrong length is found before either
    let mut accounts = vec![vault(full, 0), Account { lamports: 99, data: vec![0u8; 3] }];
    assert_eq!(swap(&mut accounts, 100, 0), Err(VaultError::InvalidAccountData));
}

#[test]
fn swap_rejects_arithmetic_that_overflows() {
    let mut accounts = vec![open_vault(), Account { lamports: u64::MAX, data: vec![0u8; 17] }];
    assert_eq!(swap(&mut accounts, u64::MAX, 0), Err(VaultError::ArithmeticOverflow));
    assert_eq!(accounts[0], open_vault());
}

#[test]
fn swap_rejects_a_zero_price() {
    let free = Settings {
        is_initialized: true,
        supply_locked: 0,
        token0: Token { address: [4; 32], price: 0 },
        ..payload()
    };
    let mut accounts = vec![vault(free, 0), fresh_depositor()];
    assert_eq!(swap(&mut accounts, 100, 0), Err(VaultError::DivisionByZero));
    assert_eq!(accounts, vec![vault(free, 0), fresh_depositor()]);
}

#[test]
fn swap_needs_the_amount_in_the_depositor_account() {
    let mut accounts = vec![open_vault(), Account { lamports: 99, data: vec![0u8; 17] }];
    assert_eq!(swap(&mut accounts, 100, 0), Err(VaultError::InsufficientFunds));
    assert_eq!(accounts, vec![open_vault(), Account { lamports: 99, data: vec![0u8; 17] }]);
    accounts[1].lamports = 100;
    assert_eq!(swap(&mut accounts, 100, 0), Ok(()));
    assert_eq!(accounts[1].lamports, 0);
    assert_eq!(accounts[0].lamports, 5_100);
}

#[test]
fn swap_rejects_a_vault_balance_that_overflows() {
    let rich = vault(Settings { is_initialized: true, supply_locked: 0, ..payload() }, u64::MAX - 99);
    let mut accounts = vec![rich.clone(), fresh_depositor()];
    assert_eq!(swap(&mut accounts, 100, 0), Err(VaultError::ArithmeticOverflow));
    assert_eq!(accounts, vec![rich, fresh_depositor()]);
}

#[test]
fn swap_rejects_a_credit_that_overflows() {
    let wide = Settings {
        is_initialized: true,
        supply_total: u64::MAX,
        supply_locked: 0,
        ..payload()
    };
    let held = Savings { is_initialized: true, total_technical: u64::MAX - 54, total_original: 0 };
    let mut accounts = vec![vault(wide, 0), depositor(held)];
    assert_eq!(swap(&mut accounts, 100, 0), Err(VaultError::ArithmeticOverflow));
    assert_eq!(accounts, vec![vault(wide, 0), depositor(held)]);
    assert_eq!(swap(&mut accounts, 98, 0), Ok(()));
    assert_eq!(savings_of(&accounts[1]).total_technical, u64::MAX - 1);
}

#[test]
fn swap_needs_two_accounts() {
    let mut accounts = vec![open_vault()];
    assert_eq!(swap(&mut accounts, 100, 0), Err(VaultError::NotEnoughAccountKeys));
    let mut accounts: Vec<Account> = Vec::new();
    assert_eq!(swap(&mut accounts, 100, 0), Err(VaultError::NotEnoughAccountKeys));
}

#[test]
fn swap_leaves_further_accounts_alone() {
    let bystander = Account { lamports: 3, data: vec![1, 2, 3] };
    let mut accounts = vec![open_vault(), fresh_depositor(), bystander.clone()];
    assert_eq!(swap(&mut accounts, 100, 0), Ok(()));
    assert_eq!(accounts[2], bystander);
}

#[test]
fn swap_keeps_the_sum_of_native_value() {
    let mut accounts = vec![open_vault(), fresh_depositor()];
    assert_eq!(swap(&mut accounts, 1_234, 0), Ok(()));
    assert_eq!(accounts[0].lamports + accounts[1].lamports, 12_000);
}

fn locked_vault(supply_locked: u64) -> Account {
    vault(Settings { is_initialized: true, supply_locked, ..payload() }, 5_000)
}

fn holder(total_technical: u64, total_original: u64) -> Account {
    depositor(Savings { is_initialized: true, total_technical, total_original })
}

#[test]
fn withdraw_of_the_example() {
    let mut accounts = vec![locked_vault(55), holder(55, 0)];
    assert_eq!(withdraw(&mut accounts, 55, T), Ok(()));
    assert_eq!(settings_of(&accounts[0]).supply_locked, 0);
    assert_eq!(
        savings_of(&accounts[1]),
        Savings { is_initialized: true, total_technical: 0, total_original: 55 }
    );
}

#[test]
fn withdraw_moves_exactly_the_amount() {
    let mut accounts = vec![locked_vault(500), holder(80, 7)];
    assert_eq!(withdraw(&mut accounts, 30, T + 10), Ok(()));
    assert_eq!(
        settings_of(&accounts[0]),
        Settings { is_initialized: true, supply_locked: 470, ..payload() }
    );
    assert_eq!(
        savings_of(&accounts[1]),
        Savings { is_initialized: true, total_technical: 50, total_original: 37 }
    );
}

#[test]
fn withdraw_moves_no_native_value() {
    let mut accounts = vec![locked_vault(500), holder(80, 7)];
    assert_eq!(withdraw(&mut accounts, 30, T), Ok(()));
    assert_eq!(accounts[0].lamports, 5_000);
    assert_eq!(accounts[1].lamports, 7_000);
}

#[test]
fn withdraw_of_nothing_changes_nothing() {
    let mut accounts = vec![locked_vault(500), holder(80, 7)];
    assert_eq!(withdraw(&mut accounts, 0, T), Ok(()));
    assert_eq!(accounts, vec![locked_vault(500), holder(80, 7)]);
}

#[test]
fn withdraw_rejects_before_the_unlock_time() {
    for now in [0u64, 1, T - 1] {
        let mut accounts = vec![locked_vault(55), holder(55, 0)];
        assert_eq!(withdraw(&mut accounts, 55, now), Err(VaultError::LockWindowOpen));
        assert_eq!(accounts, vec![locked_vault(55), holder(55, 0)]);
    }
}

#[test]
fn withdraw_rejects_more_than_the_reserve() {
    let mut accounts = vec![locked_vault(54), holder(55, 0)];
    assert_eq!(withdraw(&mut accounts, 55, T), Err(VaultError::InsufficientLockedSupply));
    assert_eq!(accounts, vec![locked_vault(54), holder(55, 0)]);
}

#[test]
fn withdraw_rejects_more_than_the_credit() {
    let mut accounts = vec![locked_vault(500), holder(54, 0)];
    assert_eq!(withdraw(&mut accounts, 55, T), Err(VaultError::InsufficientBalance));
    assert_eq!(accounts, vec![locked_vault(500), holder(54, 0)]);
}

#[test]
fn withdraw_looks_at_the_reserve_before_the_credit() {
    let mut accounts = vec![locked_vault(10), holder(5, 0)];
    assert_eq!(withdraw(&mut accounts, 20, T), Err(VaultError::InsufficientLockedSupply));
}

#[test]
fn withdraw_needs_an_initialized_vault() {
    let mut accounts = vec![Account { lamports: 0, data: vec![0u8; 165] }, holder(55, 0)];
    assert_eq!(withdraw(&mut accounts, 55, T), Err(VaultError::Uninitialized));
}

#[test]
fn withdraw_needs_an_initialized_depositor() {
    let mut accounts = vec![locked_vault(55), fresh_depositor()];
    assert_eq!(withdraw(&mut accounts, 0, T), Err(VaultError::Uninitialized));
    assert_eq!(accounts, vec![locked_vault(55), fresh_depositor()]);
}

#[test]
fn withdraw_reads_the_depositor_strictly() {
    let mut data = saved(Savings { is_initialized: true, total_technical: 55, total_original: 0 });
    data[0] = 2;
    let mut accounts = vec![locked_vault(55), Account { lamports: 7_000, data }];
    assert_eq!(withdraw(&mut accounts, 55, T), Err(VaultError::InvalidAccountData));
}

#[test]
fn withdraw_rejects_a_depositor_buffer_of_another_length() {
    for len in [0usize, 1, 16, 18, 165] {
        let mut accounts = vec![locked_vault(55), Account { lamports: 7_000, data: vec![1u8; len] }];
        assert_eq!(withdraw(&mut accounts, 55, T), Err(VaultError::InvalidAccountData));
        assert_eq!(accounts[0], locked_vault(55));
    }
}

#[test]
fn withdraw_rejects_a_redeemed_total_that_overflows() {
    let mut accounts = vec![locked_vault(500), holder(80, u64::MAX - 29)];
    assert_eq!(withdraw(&mut accounts, 30, T), Err(VaultError::ArithmeticOverflow));
    assert_eq!(accounts, vec![locked_vault(500), holder(80, u64::MAX - 29)]);
    assert_eq!(withdraw(&mut accounts, 29, T), Ok(()));
    assert_eq!(savings_of(&accounts[1]).total_original, u64::MAX);
}

#[test]
fn withdraw_needs_two_accounts() {
    let mut accounts = vec![locked_vault(55)];
    assert_eq!(withdraw(&mut accounts, 55, T), Err(VaultError::NotEnoughAccountKeys));
}

#[test]
fn the_reserve_stays_within_capacity() {
    let mut accounts = vec![Account { lamports: 0, data: vec![0u8; 165] }, fresh_depositor()];
    let small = Settings { supply_total: 120, ..payload() };
    assert_eq!(Processor::initialize(&mut accounts, &small, 0), Ok(()));
    for amount in [100u64, 100, 100, 20, 7, 1] {
        let _ = swap(&mut accounts, amount, 0);
        let settings = settings_of(&accounts[0]);
        assert!(settings.supply_locked <= settings.supply_total);
    }
    for amount in [5u64, 500, 50] {
        let _ = withdraw(&mut accounts, amount, T);
        let settings = settings_of(&accounts[0]);
        assert!(settings.supply_locked <= settings.supply_total);
    }
}

#[test]
fn end_to_end_scenario() {
    let mut accounts = vec![
        Account { lamports: 5_000, data: vec![0u8; 165] },
        Account { lamports: 7_000, data: vec![0u8; 17] },
    ];

    let request = Settings { supply_locked: 12, ..payload() };
    assert_eq!(Processor::initialize(&mut accounts, &request, T - 100), Ok(()));
    assert_eq!(settings_of(&accounts[0]).supply_locked, 0);
    assert_eq!(settings_of(&accounts[0]).supply_total, 1_000_000);

    assert_eq!(Processor::vault_units(100, 10, 2), Ok(55));
    assert_eq!(swap(&mut accounts, 100, T - 1), Ok(()));
    assert_eq!(settings_of(&accounts[0]).supply_locked, 55);
    assert_eq!(savings_of(&accounts[1]).total_technical, 55);

    assert_eq!(withdraw(&mut accounts, 55, T - 1), Err(VaultError::LockWindowOpen));
    assert_eq!(withdraw(&mut accounts, 55, T), Ok(()));
    assert_eq!(settings_of(&accounts[0]).supply_locked, 0);
    assert_eq!(
        savings_of(&accounts[1]),
        Savings { is_initialized: true, total_technical: 0, total_original: 55 }
    );
    assert_eq!(accounts[0].lamports, 5_100);
    assert_eq!(accounts[1].lamports, 6_900);
}

#[test]
fn process_instruction_dispatches_on_the_variant() {
    let program_id = [9u8; 32];
    let mut accounts = vec![
        Account { lamports: 5_000, data: vec![0u8; 165] },
        Account { lamports: 7_000, data: vec![0u8; 17] },
    ];
    let initialize = KaizenInstruction::Initialize(payload()).try_to_vec();
    assert_eq!(Processor::process_instruction(&program_id, &mut accounts, &initialize, T - 2), Ok(()));
    assert_eq!(
        settings_of(&accounts[0]),
        Settings { is_initialized: true, supply_locked: 0, ..payload() }
    );
    let swap = KaizenInstruction::Swap(SwapArgs { amount: 100 }).try_to_vec();
    assert_eq!(Processor::process_instruction(&program_id, &mut accounts, &swap, T - 1), Ok(()));
    assert_eq!(settings_of(&accounts[0]).supply_locked, 55);
    let withdraw = KaizenInstruction::Withdraw(WithdrawArgs { amount: 55 }).try_to_vec();
    assert_eq!(Processor::process_instruction(&program_id, &mut accounts, &withdraw, T), Ok(()));
    assert_eq!(settings_of(&accounts[0]).supply_locked, 0);
    assert_eq!(savings_of(&accounts[1]).total_original, 55);
}

#[test]
fn process_instruction_rejects_a_malformed_request() {
    let program_id = [9u8; 32];
    for data in [vec![], vec![0u8, 0, 0], vec![3, 0, 0, 0, 1, 0, 0, 0, 0, 0, 0, 0], vec![1, 0, 0, 0, 1]] {
        let mut accounts = vec![open_vault(), fresh_depositor()];
        assert_eq!(
            Processor::process_instruction(&program_id, &mut accounts, &data, 0),
            Err(VaultError::MalformedInstruction)
        );
        assert_eq!(accounts, vec![open_vault(), fresh_depositor()]);
    }
}

#[test]
fn process_instruction_hands_the_error_of_the_operation_on() {
    let program_id = [0u8; 32];
    let mut accounts = vec![open_vault(), fresh_depositor()];
    let swap = KaizenInstruction::Swap(SwapArgs { amount: 100 }).try_to_vec();
    assert_eq!(
        Processor::process_instruction(&program_id, &mut accounts, &swap, T),
        Err(VaultError::LockWindowClosed)
    );
    let withdraw = KaizenInstruction::Withdraw(WithdrawArgs { amount: 1 }).try_to_vec();
    assert_eq!(
        Processor::process_instruction(&program_id, &mut accounts, &withdraw, 0),
        Err(VaultError::LockWindowOpen)
    );
    let initialize = KaizenInstruction::Initialize(payload()).try_to_vec();
    assert_eq!(
        Processor::process_instruction(&program_id, &mut accounts, &initialize, 0),
        Err(VaultError::AlreadyInitialized)
    );
}
