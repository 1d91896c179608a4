use vstd::prelude::*;
use crate::error::ContractError;

verus! {

/// One whole unit of a decimal, in atomics: 10^18.
pub const DECIMAL_FRACTIONAL: u128 = 1_000_000_000_000_000_000u128;

/// Atomics in one step of the price grid: prices are indexed with three
/// fractional digits, so one step is 10^15 atomics.
pub const TICK_ATOMICS: u128 = 1_000_000_000_000_000u128;

#[verifier::external_type_specification]
#[verifier::external_body]
pub struct ExCheckedMultiplyRatioError(cosmwasm_std::CheckedMultiplyRatioError);

/// `amount * numerator / denominator`, floored, over the unbounded integers.
pub open spec fn ratio_floor(amount: u128, numerator: u128, denominator: u128) -> int {
    (amount as int * numerator as int) / (denominator as int)
}

/// Calls `cosmwasm_std::Uint128::checked_multiply_ratio`. Trusted: the call
/// succeeds exactly when the denominator is not zero and the floored quotient
/// of the full 256-bit product fits in 128 bits, and then returns that quotient.
#[verifier::external_body]
fn checked_multiply_ratio(amount: u128, numerator: u128, denominator: u128) -> (r: Result<u128, cosmwasm_std::CheckedMultiplyRatioError>)
    ensures
        r.is_ok() == (denominator != 0 && ratio_floor(amount, numerator, denominator) <= u128::MAX),
        r.is_ok() ==> r.unwrap() == ratio_floor(amount, numerator, denominator),
{
    match cosmwasm_std::Uint128::new(amount).checked_multiply_ratio(numerator, denominator) {
        Ok(v) => Ok(v.u128()),
        Err(e) => Err(e),
    }
}

/// What `multiply_ratio` returns, as a value of the mathematical integers.
pub open spec fn spec_multiply_ratio(amount: u128, numerator: u128, denominator: u128) -> Result<u128, ContractError> {
    if denominator == 0 {
        Err(ContractError::DivideByZero)
    } else if ratio_floor(amount, numerator, denominator) > u128::MAX {
        Err(ContractError::Overflow)
    } else {
        Ok(ratio_floor(amount, numerator, denominator) as u128)
    }
}

/// `amount * numerator / denominator`, floored, with a 256-bit product.
pub fn multiply_ratio(amount: u128, numerator: u128, denominator: u128) -> (r: Result<u128, ContractError>)
    ensures
        r == spec_multiply_ratio(amount, numerator, denominator),
{
    match checked_multiply_ratio(amount, numerator, denominator) {
        Ok(v) => Ok(v),
        Err(_) => {
            if denominator == 0 {
                Err(ContractError::DivideByZero)
            } else {
                Err(ContractError::Overflow)
            }
        },
    }
}

/// A non-negative fixed-point number with 18 fractional digits.
#[derive(Clone, Copy, Debug, PartialEq, Eq, Structural)]
pub struct Decimal {
    pub atomics: u128,
}

impl Decimal {
    pub open spec fn spec_from_ratio(numerator: u128, denominator: u128) -> Result<Decimal, ContractError> {
        match spec_multiply_ratio(numerator, DECIMAL_FRACTIONAL, denominator) {
            Ok(a) => Ok(Decimal { atomics: a }),
            Err(e) => Err(e),
        }
    }

    /// The decimal `numerator / denominator`, floored to 18 fractional digits.
    pub fn from_ratio(numerator: u128, denominator: u128) -> (r: Result<Decimal, ContractError>)
        ensures
            r == Self::spec_from_ratio(numerator, denominator),
    {
        match multiply_ratio(numerator, DECIMAL_FRACTIONAL, denominator) {
            Ok(a) => Ok(Decimal { atomics: a }),
            Err(e) => Err(e),
        }
    }

    /// The price of a grid step: `tick` thousandths.
    pub open spec fn spec_from_tick(tick: u128) -> Result<Decimal, ContractError> {
        if tick * TICK_ATOMICS > u128::MAX {
            Err(ContractError::Overflow)
        } else {
            Ok(Decimal { atomics: (tick * TICK_ATOMICS) as u128 })
        }
    }

    pub fn from_tick(tick: u128) -> (r: Result<Decimal, ContractError>)
        ensures
            r == Self::spec_from_tick(tick),
            r is Ok ==> r->Ok_0.spec_tick() == tick,
    {
        match tick.checked_mul(TICK_ATOMICS) {
            Some(a) => Ok(Decimal { atomics: a }),
            None => Err(ContractError::Overflow),
        }
    }

    /// The grid step this decimal falls on: its value cut to three
    /// fractional digits, counted in thousandths.
    pub open spec fn spec_tick(self) -> u128 {
        self.atomics / TICK_ATOMICS
    }

    pub fn tick(&self) -> (t: u128)
        ensures
            t == self.spec_tick(),
            Self::spec_from_tick(t) is Ok,
    {
        self.atomics / TICK_ATOMICS
    }

    pub open spec fn spec_mul_floor(amount: u128, price: Decimal) -> Result<u128, ContractError> {
        spec_multiply_ratio(amount, price.atomics, DECIMAL_FRACTIONAL)
    }

    /// `amount * price`, floored.
    pub fn mul_floor(amount: u128, price: Decimal) -> (r: Result<u128, ContractError>)
        ensures
            r == Self::spec_mul_floor(amount, price),
            r is Err ==> r == Err::<u128, ContractError>(ContractError::Overflow),
    {
        multiply_ratio(amount, price.atomics, DECIMAL_FRACTIONAL)
    }

    pub open spec fn spec_div_floor(amount: u128, price: Decimal) -> Result<u128, ContractError> {
        spec_multiply_ratio(amount, DECIMAL_FRACTIONAL, price.atomics)
    }

    /// `amount / price`, floored.
    pub fn div_floor(amount: u128, price: Decimal) -> (r: Result<u128, ContractError>)
        ensures
            r == Self::spec_div_floor(amount, price),
    {
        multiply_ratio(amount, DECIMAL_FRACTIONAL, price.atomics)
    }
}

/// A product with a factor of at most one whole never exceeds the amount.
pub proof fn lemma_mul_floor_bounded(amount: u128, price: Decimal)
    requires
        price.atomics <= DECIMAL_FRACTIONAL,
    ensures
        Decimal::spec_mul_floor(amount, price) is Ok,
        Decimal::spec_mul_floor(amount, price)->Ok_0 <= amount,
{
    assert(ratio_floor(amount, price.atomics, DECIMAL_FRACTIONAL) <= amount) by (nonlinear_arith)
        requires
            price.atomics <= DECIMAL_FRACTIONAL,
            DECIMAL_FRACTIONAL == 1_000_000_000_000_000_000u128,
    ;
    assert(ratio_floor(amount, price.atomics, DECIMAL_FRACTIONAL) >= 0) by (nonlinear_arith)
        requires
            DECIMAL_FRACTIONAL == 1_000_000_000_000_000_000u128,
    ;
}

} // verus!
