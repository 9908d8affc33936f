use liquidity_pool::errors::LPError;
use liquidity_pool::pool::LiquidityPoolContract;
use liquidity_pool::types::{Address, LenderStatus, Transfer};

const CONTRACT: Address = 1;
const ADMIN: Address = 2;
const TOKEN: Address = 3;
const VAULT: Address = 4;
const TWENTY_DAYS: u64 = 20 * 86400;

fn setup() -> LiquidityPoolContract {
    let mut pool = LiquidityPoolContract::new(CONTRACT);
    pool.initialize(ADMIN, TOKEN, VAULT).unwrap();
    pool
}

fn lender_balance(pool: &LiquidityPoolContract, lender: Address) -> i128 {
    pool.read_lender(lender).unwrap().balance
}

#[test]
fn test_test_initialize() {
    let pool = setup();
    assert_eq!(pool.read_contract_balance(), 0i128);
    assert_eq!(pool.read_admin(), Ok(ADMIN));
    assert_eq!(pool.read_token(), Ok(TOKEN));
    assert_eq!(pool.read_vault(), Ok(VAULT));
}

#[test]
fn test_test_already_initialize() {
    let mut pool = setup();
    assert_eq!(pool.initialize(20, 21, 22), Err(LPError::AlreadyInitialized));
    assert_eq!(pool.read_admin(), Ok(ADMIN));
    assert_eq!(pool.read_token(), Ok(TOKEN));
    assert_eq!(pool.read_vault(), Ok(VAULT));
    assert_eq!(pool.read_contract_balance(), 0i128);
}

#[test]
fn test_balance_with_admin() {
    let pool = setup();
    let balance = pool.balance(ADMIN).unwrap();
    assert_eq!(pool.read_contract_balance(), balance);
}

#[test]
fn test_balance_with_lender() {
    let mut pool = setup();
    let lender = 10;
    pool.add_lender(lender).unwrap();
    let balance = pool.balance(lender).unwrap();
    assert_eq!(lender_balance(&pool, lender), balance);
}

#[test]
fn test_balance_without_registered_address() {
    let pool = setup();
    assert_eq!(pool.balance(10), Err(LPError::AddressNotRegistered));
}

#[test]
fn test_deposit() {
    let mut pool = setup();
    let lender1 = 10;
    let lender2 = 11;
    pool.add_lender(lender1).unwrap();
    pool.add_lender(lender2).unwrap();
    let t1 = pool.deposit(lender1, 4i128).unwrap();
    let t2 = pool.deposit(lender2, 7i128).unwrap();
    assert_eq!(t1, vec![Transfer { from: lender1, to: CONTRACT, amount: 4 }]);
    assert_eq!(t2, vec![Transfer { from: lender2, to: CONTRACT, amount: 7 }]);
    assert_eq!(pool.read_contract_balance(), 11i128);
    assert_eq!(lender_balance(&pool, lender1), 4i128);
    assert!(pool.read_contributions().contains(&lender1));
    assert_eq!(lender_balance(&pool, lender2), 7i128);
    assert!(pool.read_contributions().contains(&lender2));
}

#[test]
fn test_deposit_without_lender() {
    let mut pool = setup();
    assert_eq!(pool.deposit(10, 10i128), Err(LPError::LenderNotRegistered));
}

#[test]
fn test_deposit_with_negative_amount() {
    let mut pool = setup();
    pool.add_lender(10).unwrap();
    assert_eq!(pool.deposit(10, -10i128), Err(LPError::AmountMustBePositive));
}

#[test]
fn test_withdraw() {
    let mut pool = setup();
    let lender1 = 10;
    let lender2 = 11;
    pool.add_lender(lender1).unwrap();
    pool.add_lender(lender2).unwrap();
    pool.deposit(lender1, 10i128).unwrap();
    pool.deposit(lender2, 10i128).unwrap();
    assert_eq!(pool.read_contract_balance(), 20i128);
    assert!(pool.read_contributions().contains(&lender1));
    assert!(pool.read_contributions().contains(&lender2));
    let t1 = pool.withdraw(lender1, 5i128).unwrap();
    pool.withdraw(lender2, 7i128).unwrap();
    assert_eq!(t1, vec![Transfer { from: CONTRACT, to: lender1, amount: 5 }]);
    assert_eq!(pool.read_contract_balance(), 8i128);
    assert_eq!(lender_balance(&pool, lender1), 5i128);
    assert_eq!(lender_balance(&pool, lender2), 3i128);
    assert!(pool.read_contributions().contains(&lender1));
    assert!(pool.read_contributions().contains(&lender2));
}

#[test]
fn test_withdraw_by_remove_contribution() {
    let mut pool = setup();
    let lender = 10;
    pool.add_lender(lender).unwrap();
    pool.deposit(lender, 10i128).unwrap();
    assert_eq!(pool.read_contract_balance(), 10i128);
    assert!(pool.read_contributions().contains(&lender));
    pool.withdraw(lender, 10i128).unwrap();
    assert_eq!(pool.read_contract_balance(), 0i128);
    assert_eq!(lender_balance(&pool, lender), 0i128);
    assert!(!pool.read_contributions().contains(&lender));
}

#[test]
fn test_withdraw_without_lender() {
    let mut pool = setup();
    assert_eq!(pool.withdraw(10, 7i128), Err(LPError::LenderNotRegistered));
}

#[test]
fn test_withdraw_negative_amount() {
    let mut pool = setup();
    pool.add_lender(10).unwrap();
    pool.deposit(10, 7i128).unwrap();
    assert_eq!(pool.withdraw(10, -7i128), Err(LPError::AmountMustBePositive));
}

#[test]
fn test_withdraw_amount_greater_lender_balance() {
    let mut pool = setup();
    pool.add_lender(10).unwrap();
    pool.deposit(10, 7i128).unwrap();
    assert_eq!(pool.withdraw(10, 10i128), Err(LPError::InsufficientBalance));
    assert_eq!(lender_balance(&pool, 10), 7i128);
    assert_eq!(pool.read_contract_balance(), 7i128);
}

#[test]
fn test_loan() {
    let mut pool = setup();
    let borrower = 20;
    let lender1 = 10;
    let lender2 = 11;
    pool.add_lender(lender1).unwrap();
    pool.add_lender(lender2).unwrap();
    pool.deposit(lender1, 10i128).unwrap();
    pool.deposit(lender2, 10i128).unwrap();
    assert_eq!(pool.read_contract_balance(), 20i128);
    pool.add_borrower(borrower, 0, 100).unwrap();
    let loan_id = 7u64;
    let t = pool.loan(borrower, 10i128, loan_id, 0).unwrap();
    assert_eq!(t, vec![Transfer { from: CONTRACT, to: borrower, amount: 10 }]);
    assert_eq!(pool.read_contract_balance(), 10i128);
    assert!(pool.has_loan(borrower, loan_id));
    assert_eq!(lender_balance(&pool, lender1), 5i128);
    assert_eq!(lender_balance(&pool, lender2), 5i128);
}

#[test]
fn test_loan_negative_amount() {
    let mut pool = setup();
    pool.add_borrower(20, 0, 100).unwrap();
    assert_eq!(pool.loan(20, -10i128, 1, 0), Err(LPError::AmountMustBePositive));
}

#[test]
fn test_loan_without_borrower() {
    let mut pool = setup();
    assert_eq!(pool.loan(20, 10i128, 1, 0), Err(LPError::BorrowerNotRegistered));
}

#[test]
fn test_request_two_loans() {
    let mut pool = setup();
    let borrower = 20;
    let lender = 10;
    pool.add_lender(lender).unwrap();
    pool.deposit(lender, 20i128).unwrap();
    assert_eq!(pool.read_contract_balance(), 20i128);
    pool.add_borrower(borrower, 0, 100).unwrap();
    pool.loan(borrower, 10i128, 1, 0).unwrap();
    assert_eq!(pool.read_contract_balance(), 10i128);
    assert!(pool.has_loan(borrower, 1));
    pool.loan(borrower, 10i128, 2, 0).unwrap();
    assert_eq!(pool.read_contract_balance(), 0i128);
    assert!(pool.has_loan(borrower, 2));
}

#[test]
fn test_repay_loan_with_repayment_total_amount() {
    let mut pool = setup();
    let borrower = 20;
    let lender1 = 10;
    let lender2 = 11;
    pool.add_lender(lender1).unwrap();
    pool.add_lender(lender2).unwrap();
    pool.deposit(lender1, 5000i128).unwrap();
    pool.deposit(lender2, 5000i128).unwrap();
    assert_eq!(pool.read_contract_balance(), 10000i128);
    pool.add_borrower(borrower, 0, 10000).unwrap();
    let loan_id = 1u64;
    pool.loan(borrower, 10000i128, loan_id, 0).unwrap();
    assert_eq!(pool.read_contract_balance(), 0i128);
    assert!(pool.has_loan(borrower, loan_id));
    assert_eq!(lender_balance(&pool, lender1), 0i128);
    assert_eq!(lender_balance(&pool, lender2), 0i128);
    let t = pool.repay_loan(borrower, loan_id, 10020i128, TWENTY_DAYS).unwrap();
    assert_eq!(
        t,
        vec![
            Transfer { from: borrower, to: CONTRACT, amount: 10020 },
            Transfer { from: CONTRACT, to: VAULT, amount: 2 },
        ]
    );
    // The vault's tenth of the fee leaves the pool.
    assert_eq!(pool.read_contract_balance(), 10018i128);
    assert_eq!(lender_balance(&pool, lender1), 5009i128);
    assert_eq!(lender_balance(&pool, lender2), 5009i128);
    assert!(!pool.has_loan(borrower, loan_id));
}

#[test]
fn test_repay_loan_without_repayment_total_amount() {
    let mut pool = setup();
    let borrower = 20;
    let lender1 = 10;
    let lender2 = 11;
    pool.add_lender(lender1).unwrap();
    pool.add_lender(lender2).unwrap();
    pool.deposit(lender1, 500i128).unwrap();
    pool.deposit(lender2, 500i128).unwrap();
    assert_eq!(pool.read_contract_balance(), 1000i128);
    pool.add_borrower(borrower, 0, 1000).unwrap();
    let loan_id = 1u64;
    pool.loan(borrower, 1000i128, loan_id, 0).unwrap();
    assert_eq!(pool.read_contract_balance(), 0i128);
    assert!(pool.has_loan(borrower, loan_id));
    assert_eq!(lender_balance(&pool, lender1), 0i128);
    assert_eq!(lender_balance(&pool, lender2), 0i128);
    pool.repay_loan(borrower, loan_id, 1000i128, TWENTY_DAYS).unwrap();
    assert_eq!(pool.read_contract_balance(), 1000i128);
    assert_eq!(lender_balance(&pool, lender1), 500i128);
    assert_eq!(lender_balance(&pool, lender2), 500i128);
    assert!(pool.has_loan(borrower, loan_id));
    assert_eq!(pool.read_loan_amount(borrower, loan_id), Ok(2i128));
}

#[test]
fn test_repay_loan_negative_amount() {
    let mut pool = setup();
    pool.add_borrower(20, 0, 100).unwrap();
    assert_eq!(pool.repay_loan(20, 1, -10i128, 0), Err(LPError::AmountMustBePositive));
}

#[test]
fn test_repay_loan_without_borrower() {
    let mut pool = setup();
    assert_eq!(pool.repay_loan(20, 1, 10i128, 0), Err(LPError::BorrowerNotRegistered));
}

#[test]
fn test_repay_loan_without_active_loan() {
    let mut pool = setup();
    pool.add_borrower(20, 0, 100).unwrap();
    assert_eq!(pool.repay_loan(20, 1, 10i128, 0), Err(LPError::LoanNotFoundOrExists));
}

#[test]
fn test_repay_loan_amount() {
    let mut pool = setup();
    let borrower = 20;
    let lender = 10;
    pool.add_lender(lender).unwrap();
    pool.deposit(lender, 1000i128).unwrap();
    assert_eq!(pool.read_contract_balance(), 1000i128);
    pool.add_borrower(borrower, 0, 1000).unwrap();
    let loan_id = 1u64;
    pool.loan(borrower, 1000i128, loan_id, 0).unwrap();
    assert!(pool.has_loan(borrower, loan_id));
    let loan_amount = pool.repay_loan_amount(borrower, loan_id, TWENTY_DAYS).unwrap();
    assert_eq!(loan_amount, 1002i128);
}

#[test]
fn test_repay_loan_amount_without_borrower() {
    let pool = setup();
    assert_eq!(pool.repay_loan_amount(20, 1, 0), Err(LPError::BorrowerNotRegistered));
}

#[test]
fn test_repay_loan_amount_without_active_loan() {
    let mut pool = setup();
    pool.add_borrower(20, 0, 100).unwrap();
    assert_eq!(pool.repay_loan_amount(20, 1, 0), Err(LPError::LoanNotFoundOrExists));
}

#[test]
fn test_add_borrower() {
    let mut pool = setup();
    pool.add_borrower(20, 0, 100).unwrap();
    assert!(pool.has_borrower(20));
}

#[test]
fn test_add_registered_borrower() {
    let mut pool = setup();
    pool.add_borrower(20, 0, 100).unwrap();
    assert_eq!(pool.add_borrower(20, 0, 100), Err(LPError::BorrowerAlreadyRegistered));
}

#[test]
fn test_remove_borrower() {
    let mut pool = setup();
    pool.add_borrower(20, 0, 100).unwrap();
    assert!(pool.has_borrower(20));
    pool.remove_borrower(20).unwrap();
    assert!(!pool.has_borrower(20));
}

#[test]
fn test_remove_without_borrower() {
    let mut pool = setup();
    assert_eq!(pool.remove_borrower(20), Err(LPError::BorrowerNotRegistered));
}

#[test]
fn test_add_lender() {
    let mut pool = setup();
    pool.add_lender(10).unwrap();
    assert!(pool.has_lender(10));
}

#[test]
fn test_add_registered_lender() {
    let mut pool = setup();
    pool.add_lender(10).unwrap();
    assert!(pool.has_lender(10));
    assert_eq!(pool.add_lender(10), Err(LPError::LenderAlreadyRegistered));
}

#[test]
fn test_remove_lender() {
    let mut pool = setup();
    pool.add_lender(10).unwrap();
    assert!(pool.has_lender(10));
    pool.remove_lender(10).unwrap();
    assert!(!pool.has_lender(10));
}

#[test]
fn test_remove_without_lender() {
    let mut pool = setup();
    assert_eq!(pool.remove_lender(10), Err(LPError::LenderNotRegistered));
}

#[test]
fn concrete_two_lender_loan_and_full_repayment() {
    let mut pool = setup();
    pool.add_lender(10).unwrap();
    pool.add_lender(11).unwrap();
    pool.deposit(10, 500).unwrap();
    pool.deposit(11, 500).unwrap();
    pool.add_borrower(20, 0, 1000).unwrap();
    pool.loan(20, 1000, 9, 0).unwrap();
    assert_eq!(pool.read_contract_balance(), 0);
    assert_eq!(lender_balance(&pool, 10), 0);
    assert_eq!(lender_balance(&pool, 11), 0);
    assert!(pool.is_lender_in_contributions(20, 9, 10));
    assert!(pool.is_lender_in_contributions(20, 9, 11));
    assert_eq!(pool.repay_loan_amount(20, 9, TWENTY_DAYS), Ok(1002));
    let t = pool.repay_loan(20, 9, 1002, TWENTY_DAYS).unwrap();
    assert_eq!(
        t,
        vec![
            Transfer { from: 20, to: CONTRACT, amount: 1002 },
            Transfer { from: CONTRACT, to: VAULT, amount: 0 },
        ]
    );
    assert_eq!(pool.read_contract_balance(), 1002);
    assert_eq!(lender_balance(&pool, 10), 501);
    assert_eq!(lender_balance(&pool, 11), 501);
    assert!(!pool.has_loan(20, 9));
    assert_eq!(pool.read_lender(10).unwrap().active_loans, 0);
}

#[test]
fn repay_amount_right_after_loan_is_the_principal() {
    let mut pool = setup();
    pool.add_lender(10).unwrap();
    pool.deposit(10, 5000).unwrap();
    pool.add_borrower(20, 0, 5000).unwrap();
    pool.loan(20, 3000, 4, 86_000).unwrap();
    assert_eq!(pool.repay_loan_amount(20, 4, 86_000), Ok(3000));
    assert_eq!(pool.repay_loan_amount(20, 4, 86_000 + 86_399), Ok(3000));
    assert_eq!(pool.repay_loan_amount(20, 4, 86_000 + 10 * 86_400), Ok(3003));
}

#[test]
fn partial_repayment_leaves_the_rest_due() {
    let mut pool = setup();
    pool.add_lender(10).unwrap();
    pool.deposit(10, 10000).unwrap();
    pool.add_borrower(20, 0, 10000).unwrap();
    pool.loan(20, 10000, 3, 0).unwrap();
    pool.repay_loan(20, 3, 4000, TWENTY_DAYS).unwrap();
    assert_eq!(pool.read_loan_amount(20, 3), Ok(10020 - 4000));
    // Every repayment releases the loan's lenders, partial or not.
    assert_eq!(pool.read_lender(10).unwrap().active_loans, 0);
}

#[test]
fn lender_removed_with_open_loan_is_paid_out_when_it_closes() {
    let mut pool = setup();
    pool.add_lender(10).unwrap();
    pool.add_lender(11).unwrap();
    pool.deposit(10, 600).unwrap();
    pool.deposit(11, 400).unwrap();
    pool.add_borrower(20, 0, 1000).unwrap();
    pool.loan(20, 500, 5, 0).unwrap();
    assert_eq!(lender_balance(&pool, 10), 300);
    assert_eq!(lender_balance(&pool, 11), 200);
    let t = pool.remove_lender(10).unwrap();
    assert_eq!(t, vec![Transfer { from: CONTRACT, to: 10, amount: 300 }]);
    assert!(pool.has_lender(10));
    assert_eq!(pool.read_lender_status(10), Ok(LenderStatus::PendingRemoval));
    assert_eq!(lender_balance(&pool, 10), 0);
    assert!(!pool.read_contributions().contains(&10));
    assert_eq!(pool.read_contract_balance(), 200);
    let t = pool.repay_loan(20, 5, 500, 0).unwrap();
    assert_eq!(
        t,
        vec![
            Transfer { from: CONTRACT, to: 10, amount: 300 },
            Transfer { from: 20, to: CONTRACT, amount: 500 },
            Transfer { from: CONTRACT, to: VAULT, amount: 0 },
        ]
    );
    assert!(!pool.has_lender(10));
    // The payout leaves what is credited to the lenders that come after.
    assert_eq!(lender_balance(&pool, 11), 200 + 80);
    assert_eq!(pool.read_contract_balance(), 200 + 200);
}

#[test]
fn disabled_lender_funds_no_loan() {
    let mut pool = setup();
    pool.add_lender(10).unwrap();
    pool.add_lender(11).unwrap();
    pool.deposit(10, 500).unwrap();
    pool.deposit(11, 500).unwrap();
    pool.set_lender_status(11, false).unwrap();
    assert_eq!(pool.read_lender_status(11), Ok(LenderStatus::Disabled));
    assert_eq!(pool.deposit(11, 1), Err(LPError::LenderDisabled));
    pool.add_borrower(20, 0, 1000).unwrap();
    pool.loan(20, 100, 1, 0).unwrap();
    assert_eq!(lender_balance(&pool, 10), 450);
    assert_eq!(lender_balance(&pool, 11), 500);
    assert!(!pool.is_lender_in_contributions(20, 1, 11));
    pool.set_lender_status(11, true).unwrap();
    assert!(pool.read_contributions().contains(&11));
}

#[test]
fn borrower_limits_and_status() {
    let mut pool = setup();
    pool.add_lender(10).unwrap();
    pool.deposit(10, 1000).unwrap();
    pool.add_borrower(20, 300, 100).unwrap();
    assert_eq!(pool.get_loan_withdraw_limit(20), Ok((100, 300)));
    assert_eq!(pool.loan(20, 50, 1, 0), Err(LPError::LoanAmountOutsideWithdrawalLimits));
    assert_eq!(pool.loan(20, 301, 1, 0), Err(LPError::LoanAmountOutsideWithdrawalLimits));
    pool.set_borrower_limits(20, 2000, 0).unwrap();
    assert_eq!(pool.read_borrower(20).map(|b| (b.min_withdraw, b.max_withdraw)), Ok((0, 2000)));
    assert_eq!(
        pool.loan(20, 1500, 1, 0),
        Err(LPError::BalanceNotAvailableForAmountRequested)
    );
    assert_eq!(pool.set_borrower_limits(20, -1, 5), Err(LPError::AmountMustBePositive));
    pool.set_borrower_status(20, false).unwrap();
    assert_eq!(pool.loan(20, 10, 1, 0), Err(LPError::BorrowerDisabled));
    pool.set_borrower_status(20, true).unwrap();
    pool.loan(20, 10, 1, 0).unwrap();
    assert_eq!(pool.loan(20, 10, 1, 0), Err(LPError::LoanNotFoundOrExists));
}

#[test]
fn administration_needs_an_admin() {
    let mut pool = LiquidityPoolContract::new(CONTRACT);
    assert_eq!(pool.add_lender(10), Err(LPError::AdminNotFound));
    assert_eq!(pool.add_borrower(20, 0, 1), Err(LPError::AdminNotFound));
    assert_eq!(pool.balance(10), Err(LPError::AdminNotFound));
    assert_eq!(pool.read_token(), Err(LPError::TokenNotFound));
    assert_eq!(pool.read_vault(), Err(LPError::VaultNotFound));
}

#[test]
fn withdraw_beyond_pool_liquidity() {
    let mut pool = setup();
    pool.add_lender(10).unwrap();
    pool.add_lender(11).unwrap();
    pool.deposit(10, 100).unwrap();
    pool.deposit(11, 100).unwrap();
    pool.add_borrower(20, 0, 1000).unwrap();
    pool.loan(20, 150, 1, 0).unwrap();
    pool.remove_lender(11).unwrap();
    assert_eq!(lender_balance(&pool, 10), 25);
    assert_eq!(pool.read_contract_balance(), 25);
    pool.deposit(10, 10).unwrap();
    assert_eq!(pool.withdraw(10, 36), Err(LPError::InsufficientBalance));
}

#[test]
fn deposit_overflow_fails() {
    let mut pool = setup();
    pool.add_lender(10).unwrap();
    pool.deposit(10, i128::MAX).unwrap();
    assert_eq!(pool.deposit(10, 1), Err(LPError::OverflowError));
    assert_eq!(pool.read_contract_balance(), i128::MAX);
}

#[test]
fn deposits_and_withdrawals_keep_the_pool_equal_to_its_lenders() {
    let mut pool = setup();
    let lenders = [10, 11, 12];
    for l in lenders {
        pool.add_lender(l).unwrap();
    }
    pool.deposit(10, 300).unwrap();
    pool.deposit(11, 50).unwrap();
    pool.withdraw(10, 120).unwrap();
    pool.deposit(12, 7).unwrap();
    pool.deposit(10, 1).unwrap();
    pool.withdraw(11, 50).unwrap();
    let held: i128 = lenders.iter().map(|l| lender_balance(&pool, *l)).sum();
    assert_eq!(pool.read_contract_balance(), held);
    assert_eq!(pool.read_contract_balance(), 300 + 50 - 120 + 7 + 1 - 50);
    assert!(!pool.read_contributions().contains(&11));
}

#[test]
fn rounding_charges_lenders_no_more_than_the_loan() {
    let mut pool = setup();
    for l in [10, 11, 12] {
        pool.add_lender(l).unwrap();
        pool.deposit(l, 1).unwrap();
    }
    pool.add_borrower(20, 0, 10).unwrap();
    pool.loan(20, 2, 1, 0).unwrap();
    // Each holds a third; a third of 2 rounds down to nothing.
    assert_eq!(lender_balance(&pool, 10), 1);
    assert_eq!(lender_balance(&pool, 11), 1);
    assert_eq!(lender_balance(&pool, 12), 1);
    assert_eq!(pool.read_contract_balance(), 1);
    assert_eq!(pool.read_lender(12).unwrap().active_loans, 1);
}
