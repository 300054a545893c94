use vstd::prelude::*;

verus! {

/// Why a request was turned down. Every error aborts the request: the
/// accounts are left as they were found.
#[derive(Clone, Copy, Debug, PartialEq, Eq, Structural)]
pub enum VaultError {
    /// The accounts list is shorter than the operation needs.
    NotEnoughAccountKeys,
    /// `initialize` on a settings record that is already flagged initialized.
    AlreadyInitialized,
    /// `swap` or `withdraw` on a record whose flag is clear.
    Uninitialized,
    /// `initialize` with an unlock time that is not in the future.
    InvalidTimestamp,
    /// `swap` at or after the unlock time.
    LockWindowClosed,
    /// `withdraw` before the unlock time.
    LockWindowOpen,
    /// `swap` would reserve more than the vault's free capacity.
    CapacityExceeded,
    /// `withdraw` of more than the vault holds in reserve.
    InsufficientLockedSupply,
    /// `withdraw` of more than the depositor's credit.
    InsufficientBalance,
    /// A buffer of the wrong length, or a flag byte that a strict decode
    /// does not accept.
    InvalidAccountData,
    /// An instruction with an unknown discriminant or a payload of the wrong
    /// length or content.
    MalformedInstruction,
    /// A sum or product left the range of 64 bits.
    ArithmeticOverflow,
    /// The stored price is zero.
    DivisionByZero,
    /// The depositor holds less native value than the deposit moves.
    InsufficientFunds,
}

/// `res` is what the model asks for: the error itself, or a value with the
/// view that the model gives.
pub open spec fn agrees<T: View>(res: Result<T, VaultError>, model: Result<T::V, VaultError>) -> bool {
    match model {
        Ok(v) => res matches Ok(r) && r@ == v,
        Err(e) => res matches Err(f) && f == e,
    }
}

} // verus!
