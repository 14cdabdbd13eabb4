use vstd::prelude::*;

verus! {

/// Why an operation on the pool was refused.
#[derive(Clone, Copy, Debug, PartialEq, Eq, Structural)]
pub enum ErrorCode {
    MathOverflow,
    TooManyHolders,
    Unauthorized,
    InsufficientAccounts,
    InvalidRecipient,
    InvalidMint,
    InvalidTokenProgram,
    InsufficientBalance,
}

impl ErrorCode {
    /// The wording of the refusal.
    pub open spec fn text(self) -> Seq<char> {
        match self {
            ErrorCode::MathOverflow => "Math operation overflow"@,
            ErrorCode::TooManyHolders => "Too many holders provided"@,
            ErrorCode::Unauthorized => "Unauthorized access"@,
            ErrorCode::InsufficientAccounts => "Insufficient accounts provided for distribution"@,
            ErrorCode::InvalidRecipient => "Invalid recipient account"@,
            ErrorCode::InvalidMint => "Invalid mint for this pool"@,
            ErrorCode::InvalidTokenProgram => "Invalid token program"@,
            ErrorCode::InsufficientBalance => "Insufficient balance for withdrawal"@,
        }
    }

    /// A sentence that says what went wrong.
    pub fn message(&self) -> (text: &'static str)
        ensures
            text@ == self.text(),
    {
        match self {
            ErrorCode::MathOverflow => "Math operation overflow",
            ErrorCode::TooManyHolders => "Too many holders provided",
            ErrorCode::Unauthorized => "Unauthorized access",
            ErrorCode::InsufficientAccounts => "Insufficient accounts provided for distribution",
            ErrorCode::InvalidRecipient => "Invalid recipient account",
            ErrorCode::InvalidMint => "Invalid mint for this pool",
            ErrorCode::InvalidTokenProgram => "Invalid token program",
            ErrorCode::InsufficientBalance => "Insufficient balance for withdrawal",
        }
    }
}

} // verus!
