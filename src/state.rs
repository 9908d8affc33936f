use vstd::prelude::*;

use crate::errors::LPError;
use crate::operations::{checked, checked_quotient};
use crate::percentage::{contribute, fees_of, share_of};
use crate::types::{Address, Borrower, Lender, LenderStatus, LoanState, Transfer};

verus! {

/// The number of distinct loan ids, by which a borrower's address is scaled in a loan key.
pub const LOAN_KEY_SHIFT: u128 = 0x1_0000_0000_0000_0000;

/// The key under which a borrower's loan is stored: one key per (borrower, id) pair.
pub open spec fn loan_key(borrower: Address, loan_id: u64) -> u128 {
    (borrower * LOAN_KEY_SHIFT + loan_id) as u128
}

/// `s` with every occurrence of `a` taken out.
pub open spec fn excluding(s: Seq<Address>, a: Address) -> Seq<Address> {
    s.filter(|x: Address| x != a)
}

/// `s` with `a` appended, unless it is there already.
pub open spec fn including(s: Seq<Address>, a: Address) -> Seq<Address> {
    if s.contains(a) {
        s
    } else {
        s.push(a)
    }
}

/// Whether `lender` funded `loan`.
pub open spec fn holds_stake(loan: LoanState, lender: Address) -> bool {
    exists|i: int| 0 <= i < loan.contributions.len() && #[trigger] loan.contributions[i].0 == lender
}

/// A pair of bounds put in increasing order.
pub open spec fn ordered(a: i128, b: i128) -> (i128, i128) {
    if a <= b {
        (a, b)
    } else {
        (b, a)
    }
}

/// `Err(AmountMustBePositive)` for a negative amount.
pub open spec fn nonnegative(amount: i128) -> Result<(), LPError> {
    if amount < 0 {
        Err(LPError::AmountMustBePositive)
    } else {
        Ok(())
    }
}

/// The whole ledger as plain values.
pub struct PoolState {
    /// The pool's own account, one end of every transfer it makes.
    pub contract: Address,
    pub admin: Option<Address>,
    pub token: Option<Address>,
    pub vault: Option<Address>,
    /// Liquidity not lent out.
    pub total_balance: i128,
    pub lenders: Map<Address, Lender>,
    pub borrowers: Map<Address, Borrower>,
    /// Open loans, under `loan_key(borrower, id)`.
    pub loans: Map<u128, LoanState>,
    /// Lenders that fund new loans, in the order they joined.
    pub contributors: Seq<Address>,
}

/// What the lenders' side of a repayment has reached, lender by lender.
pub struct Settlement {
    pub lenders: Map<Address, Lender>,
    pub contributors: Seq<Address>,
    /// What is left of the repayment for the lenders and the pool.
    pub amount_for_lenders: i128,
    /// Payouts to lenders whose removal completes.
    pub transfers: Seq<Transfer>,
}

/// Credits, in order, each lender of `shares` its part of the repayment and releases it
/// from the loan. A lender pending removal whose last loan this was is paid out its
/// whole balance, which leaves the repayment, and is deleted.
pub open spec fn settle(st: Settlement, contract: Address, shares: Seq<(Address, i64)>) -> Result<
    Settlement,
    LPError,
>
    decreases shares.len(),
{
    if shares.len() == 0 {
        Ok(st)
    } else {
        let (a, p) = shares[0];
        if !st.lenders.contains_key(a) {
            Err(LPError::LenderNotFound)
        } else if st.lenders[a].active_loans == 0 {
            Err(LPError::UnderflowError)
        } else {
            let l = st.lenders[a];
            let active = (l.active_loans - 1) as u32;
            match share_of(st.amount_for_lenders, p) {
                Err(e) => Err(e),
                Ok(credit) => match checked(l.balance + credit, LPError::OverflowError) {
                    Err(e) => Err(e),
                    Ok(balance) => if active == 0 && l.status == LenderStatus::PendingRemoval {
                        match checked(st.amount_for_lenders - balance, LPError::UnderflowError) {
                            Err(e) => Err(e),
                            Ok(rest) => settle(
                                Settlement {
                                    lenders: st.lenders.remove(a),
                                    contributors: excluding(st.contributors, a),
                                    amount_for_lenders: rest,
                                    transfers: st.transfers.push(
                                        Transfer { from: contract, to: a, amount: balance },
                                    ),
                                },
                                contract,
                                shares.skip(1),
                            ),
                        }
                    } else {
                        settle(
                            Settlement {
                                lenders: st.lenders.insert(
                                    a,
                                    Lender { status: l.status, balance, active_loans: active },
                                ),
                                ..st
                            },
                            contract,
                            shares.skip(1),
                        )
                    },
                },
            }
        }
    }
}

/// An operation that moves funds, as it was specified and as it ran: on success the
/// ledger is the specified one and the transfers are the specified ones; on failure
/// the error is the specified one and the ledger is untouched.
pub open spec fn realizes(
    expected: Result<(PoolState, Seq<Transfer>), LPError>,
    pre: PoolState,
    post: PoolState,
    r: Result<Vec<Transfer>, LPError>,
) -> bool {
    match expected {
        Ok((s, t)) => r is Ok && r->Ok_0@ == t && post == s,
        Err(e) => r == Err::<Vec<Transfer>, LPError>(e) && post == pre,
    }
}

/// An operation that moves no funds, as it was specified and as it ran.
pub open spec fn realizes_unit(
    expected: Result<PoolState, LPError>,
    pre: PoolState,
    post: PoolState,
    r: Result<(), LPError>,
) -> bool {
    match expected {
        Ok(s) => r is Ok && post == s,
        Err(e) => r == Err::<(), LPError>(e) && post == pre,
    }
}

impl PoolState {
    /// The ledger of a pool that has not been initialized.
    pub open spec fn empty(contract: Address) -> PoolState {
        PoolState {
            contract,
            admin: None,
            token: None,
            vault: None,
            total_balance: 0,
            lenders: Map::empty(),
            borrowers: Map::empty(),
            loans: Map::empty(),
            contributors: Seq::empty(),
        }
    }

    /// The admin, if one was set.
    pub open spec fn admin_check(self) -> Result<Address, LPError> {
        match self.admin {
            Some(a) => Ok(a),
            None => Err(LPError::AdminNotFound),
        }
    }

    pub open spec fn initialize(self, admin: Address, token: Address, vault: Address) -> Result<
        PoolState,
        LPError,
    > {
        if self.admin is Some {
            Err(LPError::AlreadyInitialized)
        } else {
            Ok(
                PoolState {
                    admin: Some(admin),
                    token: Some(token),
                    vault: Some(vault),
                    total_balance: 0,
                    ..self
                },
            )
        }
    }

    /// The admin sees the pool's liquidity, a lender its own balance.
    pub open spec fn balance(self, address: Address) -> Result<i128, LPError> {
        match self.admin {
            None => Err(LPError::AdminNotFound),
            Some(admin) => if address == admin {
                Ok(self.total_balance)
            } else if self.lenders.contains_key(address) {
                Ok(self.lenders[address].balance)
            } else {
                Err(LPError::AddressNotRegistered)
            },
        }
    }

    pub open spec fn deposit(self, address: Address, amount: i128) -> Result<
        (PoolState, Seq<Transfer>),
        LPError,
    > {
        if amount < 0 {
            Err(LPError::AmountMustBePositive)
        } else if !self.lenders.contains_key(address) {
            Err(LPError::LenderNotRegistered)
        } else if self.lenders[address].status != LenderStatus::Enabled {
            Err(LPError::LenderDisabled)
        } else {
            let lender = self.lenders[address];
            match checked(self.total_balance + amount, LPError::OverflowError) {
                Err(e) => Err(e),
                Ok(total) => match checked(lender.balance + amount, LPError::OverflowError) {
                    Err(e) => Err(e),
                    Ok(balance) => if self.token is None {
                        Err(LPError::TokenNotFound)
                    } else {
                        Ok(
                            (
                                PoolState {
                                    total_balance: total,
                                    lenders: self.lenders.insert(
                                        address,
                                        Lender { balance, ..lender },
                                    ),
                                    contributors: including(self.contributors, address),
                                    ..self
                                },
                                seq![Transfer { from: address, to: self.contract, amount }],
                            ),
                        )
                    },
                },
            }
        }
    }

    pub open spec fn withdraw(self, address: Address, amount: i128) -> Result<
        (PoolState, Seq<Transfer>),
        LPError,
    > {
        if !self.lenders.contains_key(address) {
            Err(LPError::LenderNotRegistered)
        } else if amount < 0 {
            Err(LPError::AmountMustBePositive)
        } else if amount > self.lenders[address].balance {
            Err(LPError::InsufficientBalance)
        } else if amount > self.total_balance {
            Err(LPError::BalanceNotAvailableForAmountRequested)
        } else {
            let lender = self.lenders[address];
            match checked(self.total_balance - amount, LPError::UnderflowError) {
                Err(e) => Err(e),
                Ok(total) => match checked(lender.balance - amount, LPError::UnderflowError) {
                    Err(e) => Err(e),
                    Ok(balance) => if self.token is None {
                        Err(LPError::TokenNotFound)
                    } else {
                        Ok(
                            (
                                PoolState {
                                    total_balance: total,
                                    lenders: self.lenders.insert(
                                        address,
                                        Lender { balance, ..lender },
                                    ),
                                    contributors: if balance <= 0 {
                                        excluding(self.contributors, address)
                                    } else {
                                        self.contributors
                                    },
                                    ..self
                                },
                                seq![Transfer { from: self.contract, to: address, amount }],
                            ),
                        )
                    },
                },
            }
        }
    }

    /// A borrower's bounds on a single loan.
    pub open spec fn loan_withdraw_limit(self, address: Address) -> Result<(i128, i128), LPError> {
        if !self.borrowers.contains_key(address) {
            Err(LPError::BorrowerNotRegistered)
        } else {
            Ok((self.borrowers[address].min_withdraw, self.borrowers[address].max_withdraw))
        }
    }

    pub open spec fn add_borrower(self, address: Address, min_amount: i128, max_amount: i128) -> Result<
        PoolState,
        LPError,
    > {
        match self.admin_check() {
            Err(e) => Err(e),
            Ok(_) => if min_amount < 0 || max_amount < 0 {
                Err(LPError::AmountMustBePositive)
            } else if self.borrowers.contains_key(address) {
                Err(LPError::BorrowerAlreadyRegistered)
            } else {
                let (lo, hi) = ordered(min_amount, max_amount);
                Ok(
                    PoolState {
                        borrowers: self.borrowers.insert(
                            address,
                            Borrower { active: true, min_withdraw: lo, max_withdraw: hi },
                        ),
                        ..self
                    },
                )
            },
        }
    }

    pub open spec fn set_borrower_status(self, address: Address, active: bool) -> Result<
        PoolState,
        LPError,
    > {
        match self.admin_check() {
            Err(e) => Err(e),
            Ok(_) => if !self.borrowers.contains_key(address) {
                Err(LPError::BorrowerNotRegistered)
            } else {
                Ok(
                    PoolState {
                        borrowers: self.borrowers.insert(
                            address,
                            Borrower { active, ..self.borrowers[address] },
                        ),
                        ..self
                    },
                )
            },
        }
    }

    pub open spec fn set_borrower_limits(
        self,
        address: Address,
        min_amount: i128,
        max_amount: i128,
    ) -> Result<PoolState, LPError> {
        match self.admin_check() {
            Err(e) => Err(e),
            Ok(_) => if min_amount < 0 || max_amount < 0 {
                Err(LPError::AmountMustBePositive)
            } else if !self.borrowers.contains_key(address) {
                Err(LPError::BorrowerNotRegistered)
            } else {
                let (lo, hi) = ordered(min_amount, max_amount);
                Ok(
                    PoolState {
                        borrowers: self.borrowers.insert(
                            address,
                            Borrower {
                                active: self.borrowers[address].active,
                                min_withdraw: lo,
                                max_withdraw: hi,
                            },
                        ),
                        ..self
                    },
                )
            },
        }
    }

    pub open spec fn remove_borrower(self, address: Address) -> Result<PoolState, LPError> {
        match self.admin_check() {
            Err(e) => Err(e),
            Ok(_) => if !self.borrowers.contains_key(address) {
                Err(LPError::BorrowerNotRegistered)
            } else {
                Ok(PoolState { borrowers: self.borrowers.remove(address), ..self })
            },
        }
    }

    pub open spec fn add_lender(self, address: Address) -> Result<PoolState, LPError> {
        match self.admin_check() {
            Err(e) => Err(e),
            Ok(_) => if self.lenders.contains_key(address) {
                Err(LPError::LenderAlreadyRegistered)
            } else {
                Ok(
                    PoolState {
                        lenders: self.lenders.insert(
                            address,
                            Lender { status: LenderStatus::Enabled, balance: 0, active_loans: 0 },
                        ),
                        ..self
                    },
                )
            },
        }
    }

    pub open spec fn set_lender_status(self, address: Address, active: bool) -> Result<
        PoolState,
        LPError,
    > {
        match self.admin_check() {
            Err(e) => Err(e),
            Ok(_) => if !self.lenders.contains_key(address) {
                Err(LPError::LenderNotRegistered)
            } else {
                let status = if active {
                    LenderStatus::Enabled
                } else {
                    LenderStatus::Disabled
                };
                Ok(
                    PoolState {
                        lenders: self.lenders.insert(
                            address,
                            Lender { status, ..self.lenders[address] },
                        ),
                        contributors: if active {
                            including(self.contributors, address)
                        } else {
                            excluding(self.contributors, address)
                        },
                        ..self
                    },
                )
            },
        }
    }

    /// A borrower draws `amount` from the pool as loan `loan_id` at time `now`; each
    /// enabled contributor funds its stake in the pool.
    pub open spec fn loan(self, address: Address, amount: i128, loan_id: u64, now: u64) -> Result<
        (PoolState, Seq<Transfer>),
        LPError,
    > {
        if amount < 0 {
            Err(LPError::AmountMustBePositive)
        } else if !self.borrowers.contains_key(address) {
            Err(LPError::BorrowerNotRegistered)
        } else if !self.borrowers[address].active {
            Err(LPError::BorrowerDisabled)
        } else if amount < self.borrowers[address].min_withdraw || amount
            > self.borrowers[address].max_withdraw {
            Err(LPError::LoanAmountOutsideWithdrawalLimits)
        } else if amount > self.total_balance {
            Err(LPError::BalanceNotAvailableForAmountRequested)
        } else if self.loans.contains_key(loan_key(address, loan_id)) {
            Err(LPError::LoanNotFoundOrExists)
        } else {
            match contribute(self.lenders, seq![], self.contributors, amount, self.total_balance) {
                Err(e) => Err(e),
                Ok((lenders, shares)) => match checked(
                    self.total_balance - amount,
                    LPError::UnderflowError,
                ) {
                    Err(e) => Err(e),
                    Ok(total) => if self.token is None {
                        Err(LPError::TokenNotFound)
                    } else {
                        Ok(
                            (
                                PoolState {
                                    total_balance: total,
                                    lenders,
                                    loans: self.loans.insert(
                                        loan_key(address, loan_id),
                                        LoanState { amount, start_time: now, contributions: shares },
                                    ),
                                    ..self
                                },
                                seq![Transfer { from: self.contract, to: address, amount }],
                            ),
                        )
                    },
                },
            }
        }
    }

    /// What settles a borrower's loan in full at time `now`: principal and fee.
    pub open spec fn repay_loan_amount(self, borrower: Address, loan_id: u64, now: u64) -> Result<
        i128,
        LPError,
    > {
        if !self.borrowers.contains_key(borrower) {
            Err(LPError::BorrowerNotRegistered)
        } else if !self.loans.contains_key(loan_key(borrower, loan_id)) {
            Err(LPError::LoanNotFoundOrExists)
        } else {
            let loan = self.loans[loan_key(borrower, loan_id)];
            match fees_of(loan.amount, loan.start_time, now) {
                Err(e) => Err(e),
                Ok(fees) => checked(loan.amount + fees, LPError::OverflowError),
            }
        }
    }

    /// A borrower pays `amount` on a loan at time `now`. A tenth of the fee goes to the
    /// vault, the rest of the payment to the loan's lenders by their stakes and to the
    /// pool; the loan shrinks to what is still due, or is closed when nothing is.
    pub open spec fn repay_loan(self, borrower: Address, loan_id: u64, amount: i128, now: u64) -> Result<
        (PoolState, Seq<Transfer>),
        LPError,
    > {
        let key = loan_key(borrower, loan_id);
        if amount < 0 {
            Err(LPError::AmountMustBePositive)
        } else if !self.borrowers.contains_key(borrower) {
            Err(LPError::BorrowerNotRegistered)
        } else if !self.loans.contains_key(key) {
            Err(LPError::LoanNotFoundOrExists)
        } else if self.vault is None {
            Err(LPError::VaultNotFound)
        } else if self.token is None {
            Err(LPError::TokenNotFound)
        } else {
            let loan = self.loans[key];
            match fees_of(loan.amount, loan.start_time, now) {
                Err(e) => Err(e),
                Ok(fees) => match checked_quotient(fees as int, 10) {
                    Err(e) => Err(e),
                    Ok(admin_fee) => match checked(amount - admin_fee, LPError::UnderflowError) {
                        Err(e) => Err(e),
                        Ok(for_lenders) => match settle(
                            Settlement {
                                lenders: self.lenders,
                                contributors: self.contributors,
                                amount_for_lenders: for_lenders,
                                transfers: seq![],
                            },
                            self.contract,
                            loan.contributions,
                        ) {
                            Err(e) => Err(e),
                            Ok(st) => match checked(loan.amount + fees, LPError::OverflowError) {
                                Err(e) => Err(e),
                                Ok(due) => match checked(due - amount, LPError::UnderflowError) {
                                    Err(e) => Err(e),
                                    Ok(diff) => match checked(
                                        self.total_balance + st.amount_for_lenders,
                                        LPError::OverflowError,
                                    ) {
                                        Err(e) => Err(e),
                                        Ok(total) => Ok(
                                            (
                                                PoolState {
                                                    total_balance: total,
                                                    lenders: st.lenders,
                                                    contributors: st.contributors,
                                                    loans: if diff > 0 {
                                                        self.loans.insert(
                                                            key,
                                                            LoanState { amount: diff, ..loan },
                                                        )
                                                    } else {
                                                        self.loans.remove(key)
                                                    },
                                                    ..self
                                                },
                                                st.transfers + seq![
                                                    Transfer {
                                                        from: borrower,
                                                        to: self.contract,
                                                        amount,
                                                    },
                                                    Transfer {
                                                        from: self.contract,
                                                        to: self.vault->Some_0,
                                                        amount: admin_fee,
                                                    },
                                                ],
                                            ),
                                        ),
                                    },
                                },
                            },
                        },
                    },
                },
            }
        }
    }

    /// Pays a lender out and takes it off the pool; one that still funds open loans
    /// stays on record, pending removal, until they are repaid.
    pub open spec fn remove_lender(self, address: Address) -> Result<
        (PoolState, Seq<Transfer>),
        LPError,
    > {
        match self.admin_check() {
            Err(e) => Err(e),
            Ok(_) => if !self.lenders.contains_key(address) {
                Err(LPError::LenderNotRegistered)
            } else if self.lenders[address].balance > self.total_balance {
                Err(LPError::BalanceNotAvailableForAmountRequested)
            } else {
                let lender = self.lenders[address];
                match checked(self.total_balance - lender.balance, LPError::UnderflowError) {
                    Err(e) => Err(e),
                    Ok(total) => if self.token is None {
                        Err(LPError::TokenNotFound)
                    } else {
                        Ok(
                            (
                                PoolState {
                                    total_balance: total,
                                    lenders: if lender.active_loans > 0 {
                                        self.lenders.insert(
                                            address,
                                            Lender {
                                                status: LenderStatus::PendingRemoval,
                                                balance: 0,
                                                active_loans: lender.active_loans,
                                            },
                                        )
                                    } else {
                                        self.lenders.remove(address)
                                    },
                                    contributors: excluding(self.contributors, address),
                                    ..self
                                },
                                seq![
                                    Transfer {
                                        from: self.contract,
                                        to: address,
                                        amount: lender.balance,
                                    },
                                ],
                            ),
                        )
                    },
                }
            },
        }
    }
}

} // verus!
