use vstd::prelude::*;

verus! {

/// An account on the ledger: a lender, a borrower, the admin, the vault or the pool itself.
pub type Address = u64;

/// Whether a lender may fund new loans.
#[derive(Clone, Copy, Debug, PartialEq, Eq, Structural)]
pub enum LenderStatus {
    Enabled,
    Disabled,
    PendingRemoval,
}

/// A lender's record: its claim on the pool and the number of open loans it funds.
#[derive(Clone, Copy, Debug, PartialEq, Eq, Structural)]
pub struct Lender {
    pub status: LenderStatus,
    pub balance: i128,
    pub active_loans: u32,
}

/// A borrower's record: whether it may borrow, and the bounds on a single loan.
#[derive(Clone, Copy, Debug, PartialEq, Eq, Structural)]
pub struct Borrower {
    pub active: bool,
    pub min_withdraw: i128,
    pub max_withdraw: i128,
}

/// An open loan: outstanding principal, issuance time, and each funding lender's
/// fixed-point share of it, in the order the lenders were charged.
#[derive(Clone, Debug)]
pub struct Loan {
    pub amount: i128,
    pub start_time: u64,
    pub contributions: Vec<(Address, i64)>,
}

/// A loan as plain values.
pub struct LoanState {
    pub amount: i128,
    pub start_time: u64,
    pub contributions: Seq<(Address, i64)>,
}

impl View for Loan {
    type V = LoanState;

    open spec fn view(&self) -> LoanState {
        LoanState {
            amount: self.amount,
            start_time: self.start_time,
            contributions: self.contributions@,
        }
    }
}

/// A movement of the pool's token that an operation asks its host to perform.
#[derive(Clone, Copy, Debug, PartialEq, Eq, Structural)]
pub struct Transfer {
    pub from: Address,
    pub to: Address,
    pub amount: i128,
}

} // verus!
