use vstd::prelude::*;

use std::collections::HashMap;

use crate::errors::LPError;
use crate::operations::{checked, checked_quotient, divide, multiply, subtract};
use crate::types::{Address, Lender, LenderStatus, Loan};

verus! {

broadcast use vstd::std_specs::hash::group_hash_axioms;

/// Subdivisions of one whole unit of the token.
pub const ONE_XLM_IN_STROOPS: i64 = 10_000_000;

/// Fee per elapsed day, in units of `TOTAL_BASIS_PERCENTAGE`.
pub const INTEREST_RATE_PER_DAY: u64 = 10;

pub const SECONDS_PER_DAY: u64 = 86400;

pub const TOTAL_BASIS_PERCENTAGE: u64 = 100_000;

/// The denominator of every fixed-point percentage: 100 percent.
pub open spec fn fixed_point() -> int {
    100 * ONE_XLM_IN_STROOPS
}

/// `amount`'s stake in `total_balance`, as a fixed-point percentage.
pub open spec fn percentage_of(amount: i128, total_balance: i128) -> Result<i64, LPError> {
    match checked(amount * fixed_point(), LPError::OverflowError) {
        Err(e) => Err(e),
        Ok(scaled) => match checked_quotient(scaled as int, total_balance as int) {
            Err(e) => Err(e),
            Ok(q) => if i64::MIN <= q <= i64::MAX {
                Ok(q as i64)
            } else {
                Err(LPError::OverflowError)
            },
        },
    }
}

/// The part of `amount` that a fixed-point `percentage` stands for, rounded toward zero.
pub open spec fn share_of(amount: i128, percentage: i64) -> Result<i128, LPError> {
    match checked(amount * percentage, LPError::OverflowError) {
        Err(e) => Err(e),
        Ok(scaled) => checked_quotient(scaled as int, fixed_point()),
    }
}

/// A lender's balance after it funds its share of a loan.
pub open spec fn debited_balance(loan_amount: i128, balance: i128, percentage: i64) -> Result<
    i128,
    LPError,
> {
    match share_of(loan_amount, percentage) {
        Err(e) => Err(e),
        Ok(debit) => checked(balance - debit, LPError::UnderflowError),
    }
}

/// The fee accrued on `amount` from `start_time` to `now`: a fixed rate per whole day.
pub open spec fn fees_of(amount: i128, start_time: u64, now: u64) -> Result<i128, LPError> {
    if now < start_time {
        Err(LPError::UnderflowError)
    } else {
        let days = (now - start_time) / (SECONDS_PER_DAY as int);
        match checked(amount * (INTEREST_RATE_PER_DAY * days), LPError::OverflowError) {
            Err(e) => Err(e),
            Ok(scaled) => checked_quotient(scaled as int, TOTAL_BASIS_PERCENTAGE as int),
        }
    }
}

/// Returns the fixed-point scale, 100 percent.
pub fn to_fixed_point() -> (r: Result<i128, LPError>)
    ensures
        r == Ok::<i128, LPError>(fixed_point() as i128),
{
    multiply(&100, &(ONE_XLM_IN_STROOPS as i128))
}

/// The fee that `loan` has accrued at time `now`.
pub fn calculate_fees(loan: &Loan, now: u64) -> (r: Result<i128, LPError>)
    ensures
        r == fees_of(loan.amount, loan.start_time, now),
{
    let elapsed = match now.checked_sub(loan.start_time) {
        Some(v) => v,
        None => return Err(LPError::UnderflowError),
    };
    let duration_days = elapsed / SECONDS_PER_DAY;
    assert(INTEREST_RATE_PER_DAY * duration_days <= u64::MAX) by (nonlinear_arith)
        requires
            duration_days == elapsed / 86400,
            INTEREST_RATE_PER_DAY == 10,
    ;
    let interest_loan = INTEREST_RATE_PER_DAY * duration_days;
    let fees_fixed_point = multiply(&loan.amount, &(interest_loan as i128))?;
    divide(&fees_fixed_point, &(TOTAL_BASIS_PERCENTAGE as i128))
}

/// `amount`'s fixed-point stake in `total_balance`.
pub fn calculate_percentage(amount: &i128, total_balance: &i128) -> (r: Result<i64, LPError>)
    ensures
        r == percentage_of(*amount, *total_balance),
{
    let divisor = multiply(amount, &(to_fixed_point()?))?;
    let percentage = divide(&divisor, total_balance)?;
    if percentage < i64::MIN as i128 || percentage > i64::MAX as i128 {
        return Err(LPError::OverflowError);
    }
    Ok(percentage as i64)
}

/// A lender's balance after it funds `percentage` of a loan of `loan_amount`.
pub fn calculate_new_lender_amount(loan_amount: &i128, lender_balance: &i128, percentage: i64) -> (r:
    Result<i128, LPError>)
    ensures
        r == debited_balance(*loan_amount, *lender_balance, percentage),
{
    let amount = calculate_repayment_amount(*loan_amount, percentage)?;
    subtract(lender_balance, &amount)
}

/// The part of `amount` that `percentage` stands for: what a lender is charged of a
/// loan, or credited of a repayment.
pub fn calculate_repayment_amount(amount: i128, percentage: i64) -> (r: Result<i128, LPError>)
    ensures
        r == share_of(amount, percentage),
{
    let divisor = multiply(&amount, &(percentage as i128))?;
    divide(&divisor, &(to_fixed_point()?))
}

/// One lender's part in a new loan: its stake in the pool, and its record once charged.
pub open spec fn contribution_step(lender: Lender, loan_amount: i128, total_balance: i128) -> Result<
    (Lender, i64),
    LPError,
> {
    match percentage_of(lender.balance, total_balance) {
        Err(e) => Err(e),
        Ok(percentage) => match debited_balance(loan_amount, lender.balance, percentage) {
            Err(e) => Err(e),
            Ok(balance) => if lender.active_loans < u32::MAX {
                Ok(
                    (
                        Lender {
                            status: lender.status,
                            balance,
                            active_loans: (lender.active_loans + 1) as u32,
                        },
                        percentage,
                    ),
                )
            } else {
                Err(LPError::OverflowError)
            },
        },
    }
}

/// Charges, in order, each enabled lender of `addrs` for its share of a loan, starting
/// from the records `lenders` and the shares already fixed `shares`. Lenders that are
/// not enabled are passed over; an unknown address fails.
pub open spec fn contribute(
    lenders: Map<Address, Lender>,
    shares: Seq<(Address, i64)>,
    addrs: Seq<Address>,
    loan_amount: i128,
    total_balance: i128,
) -> Result<(Map<Address, Lender>, Seq<(Address, i64)>), LPError>
    decreases addrs.len(),
{
    if addrs.len() == 0 {
        Ok((lenders, shares))
    } else {
        let a = addrs[0];
        if !lenders.contains_key(a) {
            Err(LPError::LenderNotFound)
        } else if lenders[a].status != LenderStatus::Enabled {
            contribute(lenders, shares, addrs.skip(1), loan_amount, total_balance)
        } else {
            match contribution_step(lenders[a], loan_amount, total_balance) {
                Err(e) => Err(e),
                Ok((l, p)) => contribute(
                    lenders.insert(a, l),
                    shares.push((a, p)),
                    addrs.skip(1),
                    loan_amount,
                    total_balance,
                ),
            }
        }
    }
}

/// Charges every enabled lender of `contributions` its share of a loan of `loan_amount`
/// drawn from a pool of `total_balance`, and returns each charged lender's stake.
pub fn process_lender_contribution(
    lenders: &mut HashMap<Address, Lender>,
    contributions: &Vec<Address>,
    loan_amount: &i128,
    total_balance: &i128,
) -> (r: Result<Vec<(Address, i64)>, LPError>)
    ensures
        match contribute(old(lenders)@, seq![], contributions@, *loan_amount, *total_balance) {
            Ok((m, s)) => r is Ok && r->Ok_0@ == s && final(lenders)@ == m,
            Err(e) => r == Err::<Vec<(Address, i64)>, LPError>(e),
        },
{
    let mut shares: Vec<(Address, i64)> = Vec::new();
    let mut i: usize = 0;
    assert(contributions@.skip(0) =~= contributions@);
    assert(shares@ =~= Seq::<(Address, i64)>::empty());
    while i < contributions.len()
        invariant
            i <= contributions.len(),
            contribute(old(lenders)@, seq![], contributions@, *loan_amount, *total_balance)
                == contribute(
                lenders@,
                shares@,
                contributions@.skip(i as int),
                *loan_amount,
                *total_balance,
            ),
        decreases contributions.len() - i,
    {
        let address = contributions[i];
        assert(contributions@.skip(i as int).skip(1) =~= contributions@.skip(i + 1));
        let lender: Lender = match lenders.get(&address) {
            Some(l) => *l,
            None => return Err(LPError::LenderNotFound),
        };
        if lender.status == LenderStatus::Enabled {
            let percentage = calculate_percentage(&lender.balance, total_balance)?;
            let balance = calculate_new_lender_amount(loan_amount, &lender.balance, percentage)?;
            if lender.active_loans == u32::MAX {
                return Err(LPError::OverflowError);
            }
            let updated = Lender {
                status: lender.status,
                balance,
                active_loans: lender.active_loans + 1,
            };
            lenders.insert(address, updated);
            shares.push((address, percentage));
        }
        i += 1;
    }
    assert(contributions@.skip(i as int) =~= Seq::<Address>::empty());
    Ok(shares)
}

} // verus!
