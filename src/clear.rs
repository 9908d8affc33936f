use vstd::prelude::*;

use crate::types::Address;

verus! {

/// A clearing pool's configuration and liquidity as plain values.
pub struct ClearState {
    pub admin: Option<Address>,
    pub token: Option<Address>,
    pub total_balance: i128,
}

/// A clearing pool: it records, once, its admin and its token, and holds liquidity.
pub struct ClearContract {
    admin: Option<Address>,
    token: Option<Address>,
    total_balance: i128,
}

impl View for ClearContract {
    type V = ClearState;

    closed spec fn view(&self) -> ClearState {
        ClearState { admin: self.admin, token: self.token, total_balance: self.total_balance }
    }
}

impl ClearContract {
    /// A clearing pool that has not been initialized.
    pub fn new() -> (r: Self)
        ensures
            r@ == (ClearState { admin: None, token: None, total_balance: 0 }),
    {
        ClearContract { admin: None, token: None, total_balance: 0 }
    }

    /// Whether an admin has been recorded.
    pub fn is_initialized(&self) -> (r: bool)
        ensures
            r == self@.admin is Some,
    {
        self.admin.is_some()
    }

    /// Records the admin and the token, with no liquidity; a pool is initialized once.
    pub fn initialize(&mut self, admin: Address, token: Address)
        requires
            old(self)@.admin is None,
        ensures
            final(self)@ == (ClearState {
                admin: Some(admin),
                token: Some(token),
                total_balance: 0,
            }),
    {
        self.admin = Some(admin);
        self.token = Some(token);
        self.total_balance = 0;
    }

    /// The pool's liquidity.
    pub fn get_total_balance(&self) -> (r: i128)
        ensures
            r == self@.total_balance,
    {
        self.total_balance
    }
}

} // verus!
