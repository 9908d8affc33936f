use vstd::prelude::*;

use std::collections::HashMap;

use crate::errors::LPError;
use crate::operations::{divide, subtract, sum};
use crate::percentage::{calculate_fees, calculate_repayment_amount, process_lender_contribution};
use crate::state::{
    excluding, holds_stake, including, loan_key, nonnegative, realizes, realizes_unit, settle,
    PoolState, Settlement, LOAN_KEY_SHIFT,
};
use crate::types::{Address, Borrower, Lender, LenderStatus, Loan, LoanState, Transfer};

verus! {

broadcast use vstd::std_specs::hash::group_hash_axioms;

/// Fails with `AmountMustBePositive` on a negative amount.
pub fn check_nonnegative_amount(amount: i128) -> (r: Result<(), LPError>)
    ensures
        r == nonnegative(amount),
{
    if amount < 0 {
        return Err(LPError::AmountMustBePositive);
    }
    Ok(())
}

/// Whether `a` is among `contributions`.
pub fn contains_address(contributions: &Vec<Address>, a: Address) -> (r: bool)
    ensures
        r == contributions@.contains(a),
{
    let mut i: usize = 0;
    while i < contributions.len()
        invariant
            i <= contributions.len(),
            forall|j: int| 0 <= j < i ==> contributions@[j] != a,
        decreases contributions.len() - i,
    {
        if contributions[i] == a {
            return true;
        }
        i += 1;
    }
    false
}

/// Takes `lender` off the list of contributors.
pub fn remove_lender_contribution(contributions: &mut Vec<Address>, lender: Address)
    ensures
        final(contributions)@ == excluding(old(contributions)@, lender),
{
    let mut kept: Vec<Address> = Vec::new();
    let mut i: usize = 0;
    assert(contributions@.take(0) =~= Seq::<Address>::empty());
    while i < contributions.len()
        invariant
            i <= contributions.len(),
            kept@ == excluding(contributions@.take(i as int), lender),
        decreases contributions.len() - i,
    {
        let a = contributions[i];
        assert(contributions@.take(i + 1).drop_last() =~= contributions@.take(i as int));
        reveal(Seq::filter);
        if a != lender {
            kept.push(a);
        }
        i += 1;
    }
    assert(contributions@.take(i as int) =~= contributions@);
    *contributions = kept;
}

/// Adds `lender` at the end of the list of contributors, unless it is there already.
pub fn add_lender_contribution(contributions: &mut Vec<Address>, lender: Address)
    ensures
        final(contributions)@ == including(old(contributions)@, lender),
{
    if !contains_address(contributions, lender) {
        contributions.push(lender);
    }
}

/// The key of a borrower's loan.
pub fn loan_key_of(borrower: Address, loan_id: u64) -> (r: u128)
    ensures
        r == loan_key(borrower, loan_id),
{
    assert(borrower * LOAN_KEY_SHIFT + loan_id <= u128::MAX) by (nonlinear_arith)
        requires
            borrower <= u64::MAX,
            loan_id <= u64::MAX,
            LOAN_KEY_SHIFT == 0x1_0000_0000_0000_0000u128,
    ;
    (borrower as u128) * LOAN_KEY_SHIFT + (loan_id as u128)
}

/// The ledger of a lending pool: its configuration, its liquidity, its lenders and
/// borrowers, and the open loans with each lender's stake in them.
///
/// Operations that move funds do not move them: they return the transfers of the
/// pool's token that their host performs.
pub struct LiquidityPoolContract {
    contract: Address,
    admin: Option<Address>,
    token: Option<Address>,
    vault: Option<Address>,
    total_balance: i128,
    lenders: HashMap<Address, Lender>,
    borrowers: HashMap<Address, Borrower>,
    loans: HashMap<u128, Loan>,
    contributions: Vec<Address>,
}

impl View for LiquidityPoolContract {
    type V = PoolState;

    closed spec fn view(&self) -> PoolState {
        PoolState {
            contract: self.contract,
            admin: self.admin,
            token: self.token,
            vault: self.vault,
            total_balance: self.total_balance,
            lenders: self.lenders@,
            borrowers: self.borrowers@,
            loans: self.loans@.map_values(|l: Loan| l@),
            contributors: self.contributions@,
        }
    }
}

impl LiquidityPoolContract {
    /// An uninitialized pool whose own account is `contract`.
    pub fn new(contract: Address) -> (r: Self)
        ensures
            r@ == PoolState::empty(contract),
    {
        let pool = LiquidityPoolContract {
            contract,
            admin: None,
            token: None,
            vault: None,
            total_balance: 0,
            lenders: HashMap::new(),
            borrowers: HashMap::new(),
            loans: HashMap::new(),
            contributions: Vec::new(),
        };
        assert(pool@.loans =~= Map::<u128, LoanState>::empty());
        assert(pool@.contributors =~= Seq::<Address>::empty());
        pool
    }

    /// The admin, whom the host authenticates before any administrative call.
    pub fn check_admin(&self) -> (r: Result<Address, LPError>)
        ensures
            r == self@.admin_check(),
    {
        match self.admin {
            Some(a) => Ok(a),
            None => Err(LPError::AdminNotFound),
        }
    }

    /// Sets the admin, the token and the vault, once.
    pub fn initialize(&mut self, admin: Address, token: Address, vault: Address) -> (r: Result<
        (),
        LPError,
    >)
        ensures
            realizes_unit(old(self)@.initialize(admin, token, vault), old(self)@, final(self)@, r),
    {
        if self.admin.is_some() {
            return Err(LPError::AlreadyInitialized);
        }
        self.admin = Some(admin);
        self.token = Some(token);
        self.vault = Some(vault);
        self.total_balance = 0;
        Ok(())
    }

    /// The pool's liquidity for the admin, a lender's balance for that lender.
    pub fn balance(&self, address: Address) -> (r: Result<i128, LPError>)
        ensures
            r == self@.balance(address),
    {
        let admin = self.check_admin()?;
        if address == admin {
            return Ok(self.total_balance);
        }
        match self.lenders.get(&address) {
            Some(lender) => Ok(lender.balance),
            None => Err(LPError::AddressNotRegistered),
        }
    }

    /// A lender puts `amount` into the pool.
    pub fn deposit(&mut self, address: Address, amount: i128) -> (r: Result<Vec<Transfer>, LPError>)
        ensures
            realizes(old(self)@.deposit(address, amount), old(self)@, final(self)@, r),
    {
        check_nonnegative_amount(amount)?;
        let lender: Lender = match self.lenders.get(&address) {
            Some(l) => *l,
            None => return Err(LPError::LenderNotRegistered),
        };
        if lender.status != LenderStatus::Enabled {
            return Err(LPError::LenderDisabled);
        }
        let total_balance = sum(&self.total_balance, &amount)?;
        let balance = sum(&lender.balance, &amount)?;
        if self.token.is_none() {
            return Err(LPError::TokenNotFound);
        }
        let transfers = vec![Transfer { from: address, to: self.contract, amount }];
        self.total_balance = total_balance;
        self.lenders.insert(address, Lender { balance, ..lender });
        add_lender_contribution(&mut self.contributions, address);
        proof {
            assert(transfers@ =~= seq![Transfer { from: address, to: self.contract, amount }]);
        }
        Ok(transfers)
    }

    /// A lender takes `amount` out of the pool.
    pub fn withdraw(&mut self, address: Address, amount: i128) -> (r: Result<Vec<Transfer>, LPError>)
        ensures
            realizes(old(self)@.withdraw(address, amount), old(self)@, final(self)@, r),
    {
        let lender: Lender = match self.lenders.get(&address) {
            Some(l) => *l,
            None => return Err(LPError::LenderNotRegistered),
        };
        check_nonnegative_amount(amount)?;
        if amount > lender.balance {
            return Err(LPError::InsufficientBalance);
        }
        if amount > self.total_balance {
            return Err(LPError::BalanceNotAvailableForAmountRequested);
        }
        let total_balance = subtract(&self.total_balance, &amount)?;
        let balance = subtract(&lender.balance, &amount)?;
        if self.token.is_none() {
            return Err(LPError::TokenNotFound);
        }
        let transfers = vec![Transfer { from: self.contract, to: address, amount }];
        self.total_balance = total_balance;
        self.lenders.insert(address, Lender { balance, ..lender });
        if balance <= 0 {
            remove_lender_contribution(&mut self.contributions, address);
        }
        proof {
            assert(transfers@ =~= seq![Transfer { from: self.contract, to: address, amount }]);
        }
        Ok(transfers)
    }

    /// A borrower's bounds on a single loan.
    pub fn get_loan_withdraw_limit(&self, address: Address) -> (r: Result<(i128, i128), LPError>)
        ensures
            r == self@.loan_withdraw_limit(address),
    {
        match self.borrowers.get(&address) {
            Some(b) => Ok((b.min_withdraw, b.max_withdraw)),
            None => Err(LPError::BorrowerNotRegistered),
        }
    }

    /// Registers an active borrower with the given bounds, in either order.
    pub fn add_borrower(&mut self, address: Address, min_amount: i128, max_amount: i128) -> (r:
        Result<(), LPError>)
        ensures
            realizes_unit(
                old(self)@.add_borrower(address, min_amount, max_amount),
                old(self)@,
                final(self)@,
                r,
            ),
    {
        self.check_admin()?;
        check_nonnegative_amount(min_amount)?;
        check_nonnegative_amount(max_amount)?;
        if self.borrowers.contains_key(&address) {
            return Err(LPError::BorrowerAlreadyRegistered);
        }
        let (min_withdraw, max_withdraw) = if min_amount <= max_amount {
            (min_amount, max_amount)
        } else {
            (max_amount, min_amount)
        };
        self.borrowers.insert(address, Borrower { active: true, min_withdraw, max_withdraw });
        Ok(())
    }

    /// Allows or stops new loans to a borrower.
    pub fn set_borrower_status(&mut self, address: Address, active: bool) -> (r: Result<
        (),
        LPError,
    >)
        ensures
            realizes_unit(
                old(self)@.set_borrower_status(address, active),
                old(self)@,
                final(self)@,
                r,
            ),
    {
        self.check_admin()?;
        let borrower: Borrower = match self.borrowers.get(&address) {
            Some(b) => *b,
            None => return Err(LPError::BorrowerNotRegistered),
        };
        self.borrowers.insert(address, Borrower { active, ..borrower });
        Ok(())
    }

    /// Sets a borrower's bounds on a single loan, in either order.
    pub fn set_borrower_limits(&mut self, address: Address, min_amount: i128, max_amount: i128) -> (r:
        Result<(), LPError>)
        ensures
            realizes_unit(
                old(self)@.set_borrower_limits(address, min_amount, max_amount),
                old(self)@,
                final(self)@,
                r,
            ),
    {
        self.check_admin()?;
        check_nonnegative_amount(min_amount)?;
        check_nonnegative_amount(max_amount)?;
        let borrower: Borrower = match self.borrowers.get(&address) {
            Some(b) => *b,
            None => return Err(LPError::BorrowerNotRegistered),
        };
        let (min_withdraw, max_withdraw) = if min_amount <= max_amount {
            (min_amount, max_amount)
        } else {
            (max_amount, min_amount)
        };
        self.borrowers.insert(
            address,
            Borrower { active: borrower.active, min_withdraw, max_withdraw },
        );
        Ok(())
    }

    /// Deregisters a borrower.
    pub fn remove_borrower(&mut self, address: Address) -> (r: Result<(), LPError>)
        ensures
            realizes_unit(old(self)@.remove_borrower(address), old(self)@, final(self)@, r),
    {
        self.check_admin()?;
        if !self.borrowers.contains_key(&address) {
            return Err(LPError::BorrowerNotRegistered);
        }
        self.borrowers.remove(&address);
        Ok(())
    }

    /// Registers an enabled lender with nothing deposited.
    pub fn add_lender(&mut self, address: Address) -> (r: Result<(), LPError>)
        ensures
            realizes_unit(old(self)@.add_lender(address), old(self)@, final(self)@, r),
    {
        self.check_admin()?;
        if self.lenders.contains_key(&address) {
            return Err(LPError::LenderAlreadyRegistered);
        }
        self.lenders.insert(
            address,
            Lender { status: LenderStatus::Enabled, balance: 0, active_loans: 0 },
        );
        Ok(())
    }

    /// Enables a lender, who then funds new loans, or disables it.
    pub fn set_lender_status(&mut self, address: Address, active: bool) -> (r: Result<
        (),
        LPError,
    >)
        ensures
            realizes_unit(
                old(self)@.set_lender_status(address, active),
                old(self)@,
                final(self)@,
                r,
            ),
    {
        self.check_admin()?;
        let lender: Lender = match self.lenders.get(&address) {
            Some(l) => *l,
            None => return Err(LPError::LenderNotRegistered),
        };
        let status = if active {
            LenderStatus::Enabled
        } else {
            LenderStatus::Disabled
        };
        if active {
            add_lender_contribution(&mut self.contributions, address);
        } else {
            remove_lender_contribution(&mut self.contributions, address);
        }
        self.lenders.insert(address, Lender { status, ..lender });
        Ok(())
    }

    /// Pays a lender its balance and takes it off the pool; a lender that still funds
    /// open loans stays on record, pending removal, until they are repaid.
    pub fn remove_lender(&mut self, address: Address) -> (r: Result<Vec<Transfer>, LPError>)
        ensures
            realizes(old(self)@.remove_lender(address), old(self)@, final(self)@, r),
    {
        self.check_admin()?;
        let lender: Lender = match self.lenders.get(&address) {
            Some(l) => *l,
            None => return Err(LPError::LenderNotRegistered),
        };
        if lender.balance > self.total_balance {
            return Err(LPError::BalanceNotAvailableForAmountRequested);
        }
        let total_balance = subtract(&self.total_balance, &lender.balance)?;
        if self.token.is_none() {
            return Err(LPError::TokenNotFound);
        }
        let transfers = vec![Transfer { from: self.contract, to: address, amount: lender.balance }];
        if lender.active_loans > 0 {
            self.lenders.insert(
                address,
                Lender {
                    status: LenderStatus::PendingRemoval,
                    balance: 0,
                    active_loans: lender.active_loans,
                },
            );
        } else {
            self.lenders.remove(&address);
        }
        self.total_balance = total_balance;
        remove_lender_contribution(&mut self.contributions, address);
        proof {
            assert(transfers@ =~= seq![
                Transfer { from: self.contract, to: address, amount: lender.balance },
            ]);
        }
        Ok(transfers)
    }
    /// A borrower draws `amount` from the pool as loan `loan_id` at time `now`. The id
    /// comes from the host's source of randomness, and must be new for this borrower.
    pub fn loan(&mut self, address: Address, amount: i128, loan_id: u64, now: u64) -> (r: Result<
        Vec<Transfer>,
        LPError,
    >)
        ensures
            realizes(old(self)@.loan(address, amount, loan_id, now), old(self)@, final(self)@, r),
    {
        check_nonnegative_amount(amount)?;
        let borrower: Borrower = match self.borrowers.get(&address) {
            Some(b) => *b,
            None => return Err(LPError::BorrowerNotRegistered),
        };
        if !borrower.active {
            return Err(LPError::BorrowerDisabled);
        }
        if amount < borrower.min_withdraw || amount > borrower.max_withdraw {
            return Err(LPError::LoanAmountOutsideWithdrawalLimits);
        }
        if amount > self.total_balance {
            return Err(LPError::BalanceNotAvailableForAmountRequested);
        }
        let key = loan_key_of(address, loan_id);
        if self.loans.contains_key(&key) {
            return Err(LPError::LoanNotFoundOrExists);
        }
        let mut lenders = self.lenders.clone();
        let shares = process_lender_contribution(
            &mut lenders,
            &self.contributions,
            &amount,
            &self.total_balance,
        )?;
        let total_balance = subtract(&self.total_balance, &amount)?;
        if self.token.is_none() {
            return Err(LPError::TokenNotFound);
        }
        let transfers = vec![Transfer { from: self.contract, to: address, amount }];
        let new_loan = Loan { amount, start_time: now, contributions: shares };
        let ghost old_loans = self.loans@;
        self.lenders = lenders;
        self.total_balance = total_balance;
        self.loans.insert(key, new_loan);
        proof {
            assert(self.loans@.map_values(|l: Loan| l@) =~= old_loans.map_values(
                |l: Loan| l@,
            ).insert(key, new_loan@));
            assert(transfers@ =~= seq![Transfer { from: self.contract, to: address, amount }]);
        }
        Ok(transfers)
    }

    /// What settles a borrower's loan in full at time `now`.
    pub fn repay_loan_amount(&self, borrower: Address, loan_id: u64, now: u64) -> (r: Result<
        i128,
        LPError,
    >)
        ensures
            r == self@.repay_loan_amount(borrower, loan_id, now),
    {
        if !self.borrowers.contains_key(&borrower) {
            return Err(LPError::BorrowerNotRegistered);
        }
        let key = loan_key_of(borrower, loan_id);
        let loan = match self.loans.get(&key) {
            Some(l) => l,
            None => return Err(LPError::LoanNotFoundOrExists),
        };
        let fees = calculate_fees(loan, now)?;
        sum(&loan.amount, &fees)
    }

    /// A borrower pays `amount` on loan `loan_id` at time `now`.
    pub fn repay_loan(&mut self, borrower: Address, loan_id: u64, amount: i128, now: u64) -> (r:
        Result<Vec<Transfer>, LPError>)
        ensures
            realizes(
                old(self)@.repay_loan(borrower, loan_id, amount, now),
                old(self)@,
                final(self)@,
                r,
            ),
    {
        check_nonnegative_amount(amount)?;
        if !self.borrowers.contains_key(&borrower) {
            return Err(LPError::BorrowerNotRegistered);
        }
        let key = loan_key_of(borrower, loan_id);
        let loan = match self.loans.get(&key) {
            Some(l) => l,
            None => return Err(LPError::LoanNotFoundOrExists),
        };
        assert(self@.loans[key] == loan@);
        let vault = match self.vault {
            Some(v) => v,
            None => return Err(LPError::VaultNotFound),
        };
        if self.token.is_none() {
            return Err(LPError::TokenNotFound);
        }
        let total_fees = calculate_fees(loan, now)?;
        let admin_fees = divide(&total_fees, &10)?;
        let mut amount_for_lenders = subtract(&amount, &admin_fees)?;
        let mut lenders = self.lenders.clone();
        let mut contributions = self.contributions.clone();
        assert(contributions@ =~= self.contributions@);
        let mut transfers: Vec<Transfer> = Vec::new();
        let ghost start = Settlement {
            lenders: self.lenders@,
            contributors: self.contributions@,
            amount_for_lenders,
            transfers: seq![],
        };
        let mut i: usize = 0;
        assert(loan.contributions@.skip(0) =~= loan.contributions@);
        assert(transfers@ =~= Seq::<Transfer>::empty());
        while i < loan.contributions.len()
            invariant
                i <= loan.contributions.len(),
                self@.loans.contains_key(key),
                self@.loans[key] == loan@,
                self@ == old(self)@,
                settle(start, self.contract, loan.contributions@) is Err ==> old(self)@.repay_loan(
                    borrower,
                    loan_id,
                    amount,
                    now,
                ) == Err::<(PoolState, Seq<Transfer>), LPError>(
                    settle(start, self.contract, loan.contributions@)->Err_0,
                ),
                settle(start, self.contract, loan.contributions@) == settle(
                    Settlement {
                        lenders: lenders@,
                        contributors: contributions@,
                        amount_for_lenders,
                        transfers: transfers@,
                    },
                    self.contract,
                    loan.contributions@.skip(i as int),
                ),
            decreases loan.contributions.len() - i,
        {
            let (address, percentage) = loan.contributions[i];
            assert(loan.contributions@.skip(i as int).skip(1) =~= loan.contributions@.skip(i + 1));
            let lender: Lender = match lenders.get(&address) {
                Some(l) => *l,
                None => return Err(LPError::LenderNotFound),
            };
            if lender.active_loans == 0 {
                return Err(LPError::UnderflowError);
            }
            let active_loans = lender.active_loans - 1;
            let credit = calculate_repayment_amount(amount_for_lenders, percentage)?;
            let balance = sum(&lender.balance, &credit)?;
            if active_loans == 0 && lender.status == LenderStatus::PendingRemoval {
                amount_for_lenders = subtract(&amount_for_lenders, &balance)?;
                transfers.push(Transfer { from: self.contract, to: address, amount: balance });
                lenders.remove(&address);
                remove_lender_contribution(&mut contributions, address);
            } else {
                lenders.insert(address, Lender { status: lender.status, balance, active_loans });
            }
            i += 1;
        }
        assert(loan.contributions@.skip(i as int) =~= Seq::<(Address, i64)>::empty());
        let loan_amount = loan.amount;
        let repay_loan_amount = sum(&loan_amount, &total_fees)?;
        let repay_amount_diff = subtract(&repay_loan_amount, &amount)?;
        let total_balance = sum(&self.total_balance, &amount_for_lenders)?;
        let ghost settled = transfers@;
        transfers.push(Transfer { from: borrower, to: self.contract, amount });
        transfers.push(Transfer { from: self.contract, to: vault, amount: admin_fees });
        let ghost old_loans = self.loans@;
        if repay_amount_diff > 0 {
            match self.loans.remove(&key) {
                Some(mut l) => {
                    l.amount = repay_amount_diff;
                    self.loans.insert(key, l);
                    proof {
                        assert(self.loans@.map_values(|l: Loan| l@) =~= old_loans.map_values(
                            |l: Loan| l@,
                        ).insert(key, LoanState { amount: repay_amount_diff, ..old_loans[key]@ }));
                    }
                },
                None => {},
            }
        } else {
            self.loans.remove(&key);
            proof {
                assert(self.loans@.map_values(|l: Loan| l@) =~= old_loans.map_values(
                    |l: Loan| l@,
                ).remove(key));
            }
        }
        self.lenders = lenders;
        self.contributions = contributions;
        self.total_balance = total_balance;
        proof {
            assert(transfers@ =~= settled + seq![
                Transfer { from: borrower, to: self.contract, amount },
                Transfer { from: self.contract, to: vault, amount: admin_fees },
            ]);
        }
        Ok(transfers)
    }

    /// The admin, when the pool is initialized.
    pub fn read_admin(&self) -> (r: Result<Address, LPError>)
        ensures
            r == self@.admin_check(),
    {
        self.check_admin()
    }

    /// Whether the pool is initialized.
    pub fn has_admin(&self) -> (r: bool)
        ensures
            r == self@.admin is Some,
    {
        self.admin.is_some()
    }

    /// The token contract, when the pool is initialized.
    pub fn read_token(&self) -> (r: Result<Address, LPError>)
        ensures
            r == match self@.token {
                Some(t) => Ok::<Address, LPError>(t),
                None => Err(LPError::TokenNotFound),
            },
    {
        match self.token {
            Some(t) => Ok(t),
            None => Err(LPError::TokenNotFound),
        }
    }

    /// The vault, when the pool is initialized.
    pub fn read_vault(&self) -> (r: Result<Address, LPError>)
        ensures
            r == match self@.vault {
                Some(v) => Ok::<Address, LPError>(v),
                None => Err(LPError::VaultNotFound),
            },
    {
        match self.vault {
            Some(v) => Ok(v),
            None => Err(LPError::VaultNotFound),
        }
    }

    /// The pool's own account.
    pub fn contract_address(&self) -> (r: Address)
        ensures
            r == self@.contract,
    {
        self.contract
    }

    /// Liquidity not lent out.
    pub fn read_contract_balance(&self) -> (r: i128)
        ensures
            r == self@.total_balance,
    {
        self.total_balance
    }

    pub fn has_lender(&self, address: Address) -> (r: bool)
        ensures
            r == self@.lenders.contains_key(address),
    {
        self.lenders.contains_key(&address)
    }

    pub fn has_borrower(&self, address: Address) -> (r: bool)
        ensures
            r == self@.borrowers.contains_key(address),
    {
        self.borrowers.contains_key(&address)
    }

    pub fn read_lender(&self, address: Address) -> (r: Result<Lender, LPError>)
        ensures
            r == if self@.lenders.contains_key(address) {
                Ok::<Lender, LPError>(self@.lenders[address])
            } else {
                Err(LPError::LenderNotFound)
            },
    {
        match self.lenders.get(&address) {
            Some(l) => Ok(*l),
            None => Err(LPError::LenderNotFound),
        }
    }

    pub fn read_lender_status(&self, address: Address) -> (r: Result<LenderStatus, LPError>)
        ensures
            r == if self@.lenders.contains_key(address) {
                Ok::<LenderStatus, LPError>(self@.lenders[address].status)
            } else {
                Err(LPError::LenderNotFound)
            },
    {
        match self.lenders.get(&address) {
            Some(l) => Ok(l.status),
            None => Err(LPError::LenderNotFound),
        }
    }

    pub fn read_borrower(&self, address: Address) -> (r: Result<Borrower, LPError>)
        ensures
            r == if self@.borrowers.contains_key(address) {
                Ok::<Borrower, LPError>(self@.borrowers[address])
            } else {
                Err(LPError::BorrowerNotFound)
            },
    {
        match self.borrowers.get(&address) {
            Some(b) => Ok(*b),
            None => Err(LPError::BorrowerNotFound),
        }
    }

    /// The lenders that fund new loans, in order.
    pub fn read_contributions(&self) -> (r: Vec<Address>)
        ensures
            r@ == self@.contributors,
    {
        let r = self.contributions.clone();
        assert(r@ =~= self.contributions@);
        r
    }

    pub fn has_loan(&self, borrower: Address, loan_id: u64) -> (r: bool)
        ensures
            r == self@.loans.contains_key(loan_key(borrower, loan_id)),
    {
        self.loans.contains_key(&loan_key_of(borrower, loan_id))
    }

    /// The principal still outstanding on a loan.
    pub fn read_loan_amount(&self, borrower: Address, loan_id: u64) -> (r: Result<i128, LPError>)
        ensures
            r == if self@.loans.contains_key(loan_key(borrower, loan_id)) {
                Ok::<i128, LPError>(self@.loans[loan_key(borrower, loan_id)].amount)
            } else {
                Err(LPError::LoanNotFoundOrExists)
            },
    {
        match self.loans.get(&loan_key_of(borrower, loan_id)) {
            Some(l) => Ok(l.amount),
            None => Err(LPError::LoanNotFoundOrExists),
        }
    }

    /// Whether `lender` holds a stake in a loan.
    pub fn is_lender_in_contributions(&self, borrower: Address, loan_id: u64, lender: Address) -> (r:
        bool)
        ensures
            r == (self@.loans.contains_key(loan_key(borrower, loan_id)) && holds_stake(
                self@.loans[loan_key(borrower, loan_id)],
                lender,
            )),
    {
        let key = loan_key_of(borrower, loan_id);
        let loan = match self.loans.get(&key) {
            Some(l) => l,
            None => return false,
        };
        assert(self@.loans.contains_key(key));
        assert(self@.loans[key] == loan@);
        let mut i: usize = 0;
        while i < loan.contributions.len()
            invariant
                i <= loan.contributions.len(),
                key == loan_key(borrower, loan_id),
                self@.loans.contains_key(key),
                self@.loans[key] == loan@,
                forall|j: int| 0 <= j < i ==> loan.contributions@[j].0 != lender,
            decreases loan.contributions.len() - i,
        {
            if loan.contributions[i].0 == lender {
                assert(loan@.contributions[i as int].0 == lender);
                return true;
            }
            i += 1;
        }
        false
    }
    /// A pool rebuilt from stored configuration and contributors; records are added
    /// back one by one with the `restore_*` methods.
    pub fn restore(
        contract: Address,
        admin: Option<Address>,
        token: Option<Address>,
        vault: Option<Address>,
        total_balance: i128,
        contributions: Vec<Address>,
    ) -> (r: Self)
        ensures
            r@ == (PoolState {
                contract,
                admin,
                token,
                vault,
                total_balance,
                lenders: Map::empty(),
                borrowers: Map::empty(),
                loans: Map::empty(),
                contributors: contributions@,
            }),
    {
        let pool = LiquidityPoolContract {
            contract,
            admin,
            token,
            vault,
            total_balance,
            lenders: HashMap::new(),
            borrowers: HashMap::new(),
            loans: HashMap::new(),
            contributions,
        };
        assert(pool@.loans =~= Map::<u128, LoanState>::empty());
        pool
    }

    /// Puts a stored lender record back.
    pub fn restore_lender(&mut self, address: Address, lender: Lender)
        ensures
            final(self)@ == (PoolState {
                lenders: old(self)@.lenders.insert(address, lender),
                ..old(self)@
            }),
    {
        self.lenders.insert(address, lender);
    }

    /// Puts a stored borrower record back.
    pub fn restore_borrower(&mut self, address: Address, borrower: Borrower)
        ensures
            final(self)@ == (PoolState {
                borrowers: old(self)@.borrowers.insert(address, borrower),
                ..old(self)@
            }),
    {
        self.borrowers.insert(address, borrower);
    }

    /// Puts a stored loan back.
    pub fn restore_loan(&mut self, borrower: Address, loan_id: u64, loan: Loan)
        ensures
            final(self)@ == (PoolState {
                loans: old(self)@.loans.insert(loan_key(borrower, loan_id), loan@),
                ..old(self)@
            }),
    {
        let key = loan_key_of(borrower, loan_id);
        let ghost old_loans = self.loans@;
        let ghost v = loan@;
        self.loans.insert(key, loan);
        assert(self.loans@.map_values(|l: Loan| l@) =~= old_loans.map_values(|l: Loan| l@).insert(
            key,
            v,
        ));
    }

    /// A copy of an open loan.
    pub fn read_loan(&self, borrower: Address, loan_id: u64) -> (r: Result<Loan, LPError>)
        ensures
            match r {
                Ok(l) => self@.loans.contains_key(loan_key(borrower, loan_id)) && l@ == self@.loans[loan_key(
                    borrower,
                    loan_id,
                )],
                Err(e) => !self@.loans.contains_key(loan_key(borrower, loan_id)) && e
                    == LPError::LoanNotFoundOrExists,
            },
    {
        let key = loan_key_of(borrower, loan_id);
        let loan = match self.loans.get(&key) {
            Some(l) => l,
            None => return Err(LPError::LoanNotFoundOrExists),
        };
        assert(self@.loans[key] == loan@);
        let mut contributions: Vec<(Address, i64)> = Vec::new();
        let mut i: usize = 0;
        while i < loan.contributions.len()
            invariant
                i <= loan.contributions.len(),
                contributions@ == loan.contributions@.take(i as int),
            decreases loan.contributions.len() - i,
        {
            let (a, p) = loan.contributions[i];
            contributions.push((a, p));
            assert(loan.contributions@.take(i + 1) =~= loan.contributions@.take(i as int).push(
                (a, p),
            ));
            i += 1;
        }
        assert(loan.contributions@.take(i as int) =~= loan.contributions@);
        Ok(Loan { amount: loan.amount, start_time: loan.start_time, contributions })
    }
}

} // verus!
