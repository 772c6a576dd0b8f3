//! Coin amounts and their checked arithmetic.
//!
//! A coin value is a number of lovelace, never above [`MAX_COIN`]. All
//! arithmetic is checked: exceeding the bound is reported as an error,
//! never wrapped or saturated.

use vstd::prelude::*;

verus! {

/// Maximum number of lovelace that can ever exist.
pub const MAX_COIN: u64 = 45_000_000_000_000_000;

/// Errors of coin arithmetic and coin construction.
#[derive(Clone, Copy, Debug, PartialEq, Eq, Structural)]
pub enum CoinError {
    /// The amount exceeds [`MAX_COIN`].
    OutOfBound,
}

/// A non-negative amount of coin, bounded by [`MAX_COIN`].
#[derive(Clone, Copy, Debug, PartialEq, Eq, Structural)]
pub struct Coin {
    pub value: u64,
}

impl Coin {
    /// Invariant carried by every well-formed coin value.
    pub open spec fn wf(self) -> bool {
        self.value <= MAX_COIN
    }

    /// The zero coin value.
    pub fn zero() -> (r: Coin)
        ensures
            r.wf(),
            r.value == 0,
    {
        Coin { value: 0 }
    }

    /// Makes a coin value out of an amount of lovelace; rejects amounts
    /// over [`MAX_COIN`].
    pub fn new(value: u64) -> (r: Result<Coin, CoinError>)
        ensures
            value <= MAX_COIN ==> r == Ok::<Coin, CoinError>(Coin { value }),
            value > MAX_COIN ==> r == Err::<Coin, CoinError>(CoinError::OutOfBound),
    {
        if value <= MAX_COIN {
            Ok(Coin { value })
        } else {
            Err(CoinError::OutOfBound)
        }
    }

    /// The amount of lovelace this value stands for.
    pub fn amount(&self) -> (r: u64)
        ensures
            r == self.value,
    {
        self.value
    }

    /// Checked addition: fails exactly when the sum exceeds [`MAX_COIN`].
    pub fn add(self, other: Coin) -> (r: Result<Coin, CoinError>)
        requires
            self.wf(),
            other.wf(),
        ensures
            self.value + other.value <= MAX_COIN ==> r == Ok::<Coin, CoinError>(
                Coin { value: (self.value + other.value) as u64 },
            ),
            self.value + other.value > MAX_COIN ==> r == Err::<Coin, CoinError>(
                CoinError::OutOfBound,
            ),
            r is Ok ==> r.unwrap().wf(),
    {
        let sum = self.value + other.value;
        if sum <= MAX_COIN {
            Ok(Coin { value: sum })
        } else {
            Err(CoinError::OutOfBound)
        }
    }

    /// Checked subtraction: fails exactly when `other` is larger than `self`.
    pub fn sub(self, other: Coin) -> (r: Result<Coin, CoinError>)
        requires
            self.wf(),
            other.wf(),
        ensures
            other.value <= self.value ==> r == Ok::<Coin, CoinError>(
                Coin { value: (self.value - other.value) as u64 },
            ),
            other.value > self.value ==> r == Err::<Coin, CoinError>(CoinError::OutOfBound),
            r is Ok ==> r.unwrap().wf(),
    {
        if other.value <= self.value {
            Ok(Coin { value: self.value - other.value })
        } else {
            Err(CoinError::OutOfBound)
        }
    }
}

} // verus!
