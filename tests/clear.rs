use liquidity_pool::clear::ClearContract;

#[test]
fn test_initialize() {
    let mut contract = ClearContract::new();
    assert!(!contract.is_initialized());
    contract.initialize(2, 3);
    assert!(contract.is_initialized());
    let total_balance = contract.get_total_balance();
    assert_eq!(total_balance, 0i128);
}
