use vstd::prelude::*;

verus! {

/// The ways an engine call can fail. Every failure aborts the whole call.
#[derive(Clone, Copy, Debug, PartialEq, Eq, Structural)]
pub enum ContractError {
    /// The caller is not the owner of the order, or not the administrator.
    Unauthorized,
    /// No order book is registered under the storage.
    PairNotFound,
    /// A pair is already registered under the storage.
    OrderBookAlreadyExists,
    /// The two assets of a pair are the same.
    InvalidPair,
    /// The order table has no row with the requested id.
    OrderNotFound,
    /// An order was submitted with a zero offer or a zero ask.
    AssetMustNotBeZero,
    /// The funds delivered with an order are not the amount it offers.
    FundMismatch,
    /// The quote leg of a submitted order is below the pair's minimum.
    BelowMinQuote,
    /// An order is changed to offer no more than it has already spent, or
    /// it is no longer open.
    InsufficientOrderAmountLeft,
    /// An intermediate or final amount does not fit in 128 bits.
    Overflow,
    /// A subtraction would have gone below zero.
    Underflow,
    /// A division by a zero amount or a zero price.
    DivideByZero,
    /// An index key is not the 8 bytes of an order id.
    CorruptedIndex,
}

impl ContractError {
    /// The errors of arithmetic: a result that does not fit, a subtraction
    /// below zero, a division by zero.
    pub open spec fn is_arithmetic(self) -> bool {
        self == ContractError::Overflow || self == ContractError::Underflow || self == ContractError::DivideByZero
    }

    /// The message the host shows for this error.
    pub open spec fn spec_message(self) -> Seq<char> {
        match self {
            ContractError::Unauthorized => "Unauthorized"@,
            ContractError::PairNotFound => "Pair not found"@,
            ContractError::OrderBookAlreadyExists => "Orderbook pair already exists"@,
            ContractError::InvalidPair => "The assets of a pair must differ"@,
            ContractError::OrderNotFound => "Order not found"@,
            ContractError::AssetMustNotBeZero => "Asset must not be zero"@,
            ContractError::FundMismatch => "Native token balance mismatch between the argument and the transferred"@,
            ContractError::BelowMinQuote => "Amount of quote asset is below the minimum"@,
            ContractError::InsufficientOrderAmountLeft => "Insufficient order amount left"@,
            ContractError::Overflow => "Multiplication overflow"@,
            ContractError::Underflow => "Cannot subtract below zero"@,
            ContractError::DivideByZero => "Denominator must not be zero"@,
            ContractError::CorruptedIndex => "Corrupted data found. 8 byte expected."@,
        }
    }

    pub fn message(&self) -> (s: &'static str)
        ensures
            s@ == self.spec_message(),
    {
        match self {
            ContractError::Unauthorized => "Unauthorized",
            ContractError::PairNotFound => "Pair not found",
            ContractError::OrderBookAlreadyExists => "Orderbook pair already exists",
            ContractError::InvalidPair => "The assets of a pair must differ",
            ContractError::OrderNotFound => "Order not found",
            ContractError::AssetMustNotBeZero => "Asset must not be zero",
            ContractError::FundMismatch => "Native token balance mismatch between the argument and the transferred",
            ContractError::BelowMinQuote => "Amount of quote asset is below the minimum",
            ContractError::InsufficientOrderAmountLeft => "Insufficient order amount left",
            ContractError::Overflow => "Multiplication overflow",
            ContractError::Underflow => "Cannot subtract below zero",
            ContractError::DivideByZero => "Denominator must not be zero",
            ContractError::CorruptedIndex => "Corrupted data found. 8 byte expected.",
        }
    }
}

} // verus!
