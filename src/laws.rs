use vstd::prelude::*;

use crate::errors::LPError;
use crate::operations::{checked, trunc_div};
use crate::percentage::{contribute, contribution_step, fixed_point, percentage_of, share_of};
use crate::state::{excluding, loan_key, settle, PoolState, Settlement};
use crate::types::{Address, Lender, LenderStatus, Transfer};

verus! {

/// The sum of the balances of the lenders listed in `keys`.
pub open spec fn balance_sum(lenders: Map<Address, Lender>, keys: Seq<Address>) -> int
    decreases keys.len(),
{
    if keys.len() == 0 {
        0
    } else {
        (if lenders.contains_key(keys[0]) {
            lenders[keys[0]].balance as int
        } else {
            0
        }) + balance_sum(lenders, keys.skip(1))
    }
}

/// Whether `keys` lists every lender of `lenders` exactly once.
pub open spec fn lists_lenders(lenders: Map<Address, Lender>, keys: Seq<Address>) -> bool {
    &&& keys.no_duplicates()
    &&& forall|a: Address| lenders.contains_key(a) <==> keys.contains(a)
}

/// Whether the pool's liquidity is exactly what its lenders hold.
pub open spec fn balanced(s: PoolState, keys: Seq<Address>) -> bool {
    lists_lenders(s.lenders, keys) && s.total_balance == balance_sum(s.lenders, keys)
}

/// Replacing one listed lender's record moves the sum by the change in its balance.
proof fn lemma_balance_sum_update(
    lenders: Map<Address, Lender>,
    keys: Seq<Address>,
    a: Address,
    l: Lender,
)
    requires
        keys.no_duplicates(),
        lenders.contains_key(a),
    ensures
        balance_sum(lenders.insert(a, l), keys) == balance_sum(lenders, keys) + if keys.contains(
            a,
        ) {
            l.balance - lenders[a].balance
        } else {
            0
        },
    decreases keys.len(),
{
    if keys.len() > 0 {
        let rest = keys.skip(1);
        assert(rest.no_duplicates()) by {
            assert forall|i: int, j: int| 0 <= i < rest.len() && 0 <= j < rest.len() && i != j
                implies rest[i] != rest[j] by {
                assert(rest[i] == keys[i + 1] && rest[j] == keys[j + 1]);
            }
        }
        lemma_balance_sum_update(lenders, rest, a, l);
        assert(keys.contains(a) <==> keys[0] == a || rest.contains(a)) by {
            if keys.contains(a) && keys[0] != a {
                let i = choose|i: int| 0 <= i < keys.len() && keys[i] == a;
                assert(rest[i - 1] == a);
            }
            if rest.contains(a) {
                let i = choose|i: int| 0 <= i < rest.len() && rest[i] == a;
                assert(keys[i + 1] == a);
            }
        }
        if keys[0] == a {
            assert(!rest.contains(a)) by {
                if rest.contains(a) {
                    let i = choose|i: int| 0 <= i < rest.len() && rest[i] == a;
                    assert(keys[i + 1] == keys[0]);
                }
            }
        }
    }
}

/// A deposit adds its amount to the pool's liquidity and to the depositor's balance
/// alike: a pool whose liquidity is what its lenders hold stays so, and its liquidity
/// grows by exactly the amount deposited.
pub proof fn lemma_deposit_keeps_pool_balanced(
    s: PoolState,
    keys: Seq<Address>,
    address: Address,
    amount: i128,
)
    requires
        balanced(s, keys),
        s.deposit(address, amount) is Ok,
    ensures
        balanced(s.deposit(address, amount)->Ok_0.0, keys),
        s.deposit(address, amount)->Ok_0.0.total_balance == s.total_balance + amount,
{
    let post = s.deposit(address, amount)->Ok_0.0;
    let l = post.lenders[address];
    lemma_balance_sum_update(s.lenders, keys, address, l);
    assert forall|a: Address| post.lenders.contains_key(a) <==> keys.contains(a) by {
        assert(post.lenders.contains_key(a) <==> s.lenders.contains_key(a));
    }
}

/// A withdrawal takes its amount from the pool's liquidity and from the lender's
/// balance alike: a pool whose liquidity is what its lenders hold stays so, and its
/// liquidity shrinks by exactly the amount withdrawn.
pub proof fn lemma_withdraw_keeps_pool_balanced(
    s: PoolState,
    keys: Seq<Address>,
    address: Address,
    amount: i128,
)
    requires
        balanced(s, keys),
        s.withdraw(address, amount) is Ok,
    ensures
        balanced(s.withdraw(address, amount)->Ok_0.0, keys),
        s.withdraw(address, amount)->Ok_0.0.total_balance == s.total_balance - amount,
{
    let post = s.withdraw(address, amount)->Ok_0.0;
    let l = post.lenders[address];
    lemma_balance_sum_update(s.lenders, keys, address, l);
    assert forall|a: Address| post.lenders.contains_key(a) <==> keys.contains(a) by {
        assert(post.lenders.contains_key(a) <==> s.lenders.contains_key(a));
    }
}

/// A withdrawal of more than the lender's recorded balance fails as insufficient
/// balance (and so moves no funds and changes nothing).
pub proof fn lemma_withdraw_over_balance_fails(s: PoolState, address: Address, amount: i128)
    requires
        s.lenders.contains_key(address),
        amount >= 0,
        amount > s.lenders[address].balance,
    ensures
        s.withdraw(address, amount) == Err::<(PoolState, Seq<Transfer>), LPError>(
            LPError::InsufficientBalance,
        ),
{
}

/// Once a pool is initialized, initializing it again fails, whatever the arguments.
pub proof fn lemma_initialize_only_once(
    s: PoolState,
    admin: Address,
    token: Address,
    vault: Address,
    admin2: Address,
    token2: Address,
    vault2: Address,
)
    requires
        s.initialize(admin, token, vault) is Ok,
    ensures
        s.initialize(admin, token, vault)->Ok_0.initialize(admin2, token2, vault2) == Err::<
            PoolState,
            LPError,
        >(LPError::AlreadyInitialized),
{
}

/// Right after a loan is issued, what settles it in full is its principal: at the
/// issuance time no whole day has passed, so no fee is due.
pub proof fn lemma_repay_amount_right_after_loan(
    s: PoolState,
    borrower: Address,
    amount: i128,
    loan_id: u64,
    now: u64,
)
    requires
        s.loan(borrower, amount, loan_id, now) is Ok,
    ensures
        s.loan(borrower, amount, loan_id, now)->Ok_0.0.repay_loan_amount(borrower, loan_id, now)
            == Ok::<i128, LPError>(amount),
{
    let post = s.loan(borrower, amount, loan_id, now)->Ok_0.0;
    assert(post.loans.contains_key(loan_key(borrower, loan_id)));
    assert(checked(amount * 0, LPError::OverflowError) == Ok::<i128, LPError>(0));
    assert(trunc_div(0, 100_000) == 0);
}

/// A repayment of at least what is due closes the loan; a smaller one leaves it open
/// with what is still due as its principal.
pub proof fn lemma_repay_closes_or_shrinks_loan(
    s: PoolState,
    borrower: Address,
    loan_id: u64,
    amount: i128,
    now: u64,
)
    requires
        s.repay_loan(borrower, loan_id, amount, now) is Ok,
    ensures
        s.repay_loan_amount(borrower, loan_id, now) is Ok,
        ({
            let due = s.repay_loan_amount(borrower, loan_id, now)->Ok_0;
            let post = s.repay_loan(borrower, loan_id, amount, now)->Ok_0.0;
            let key = loan_key(borrower, loan_id);
            &&& amount >= due ==> !post.loans.contains_key(key)
            &&& amount < due ==> post.loans.contains_key(key) && post.loans[key].amount == due
                - amount
        }),
{
}

/// A lender removed while it still funds open loans stays on record, pending removal,
/// with nothing left to its name, and funds no new loan.
pub proof fn lemma_remove_lender_with_open_loans(s: PoolState, address: Address)
    requires
        s.remove_lender(address) is Ok,
        s.lenders[address].active_loans > 0,
    ensures
        ({
            let post = s.remove_lender(address)->Ok_0.0;
            &&& post.lenders.contains_key(address)
            &&& post.lenders[address].status == LenderStatus::PendingRemoval
            &&& post.lenders[address].balance == 0
            &&& post.lenders[address].active_loans == s.lenders[address].active_loans
            &&& !post.contributors.contains(address)
            &&& s.remove_lender(address)->Ok_0.1 == seq![
                Transfer { from: s.contract, to: address, amount: s.lenders[address].balance },
            ]
        }),
{
    lemma_excluding_drops(s.contributors, address);
}

/// When a loan is settled, a lender pending removal that funded no other open loan is
/// paid its whole balance, once, and its record is deleted.
pub proof fn lemma_settle_completes_removal(
    st: Settlement,
    contract: Address,
    address: Address,
    percentage: i64,
)
    requires
        st.lenders.contains_key(address),
        st.lenders[address].status == LenderStatus::PendingRemoval,
        st.lenders[address].active_loans == 1,
        settle(st, contract, seq![(address, percentage)]) is Ok,
    ensures
        ({
            let done = settle(st, contract, seq![(address, percentage)])->Ok_0;
            let paid = st.lenders[address].balance + share_of(
                st.amount_for_lenders,
                percentage,
            )->Ok_0;
            &&& !done.lenders.contains_key(address)
            &&& !done.contributors.contains(address)
            &&& done.transfers == st.transfers.push(
                Transfer { from: contract, to: address, amount: paid as i128 },
            )
            &&& done.amount_for_lenders == st.amount_for_lenders - paid
        }),
{
    reveal_with_fuel(settle, 2);
    let done = settle(st, contract, seq![(address, percentage)])->Ok_0;
    assert(seq![(address, percentage)].skip(1) =~= Seq::<(Address, i64)>::empty());
    lemma_excluding_drops(st.contributors, address);
}

/// What a lender of balance `balance` is charged of a loan of `loan_amount` drawn from a
/// pool of `total_balance`: its share by its stake.
pub open spec fn charge_of(loan_amount: i128, total_balance: i128, balance: i128) -> int {
    share_of(loan_amount, percentage_of(balance, total_balance)->Ok_0)->Ok_0 as int
}

/// Whether charging a lender of balance `balance` overflows nowhere.
pub open spec fn chargeable(loan_amount: i128, total_balance: i128, balance: i128) -> bool {
    &&& percentage_of(balance, total_balance) is Ok
    &&& share_of(loan_amount, percentage_of(balance, total_balance)->Ok_0) is Ok
}

/// What lenders of balances `balances` are charged altogether.
pub open spec fn total_charge(loan_amount: i128, total_balance: i128, balances: Seq<i128>) -> int
    decreases balances.len(),
{
    if balances.len() == 0 {
        0
    } else {
        charge_of(loan_amount, total_balance, balances[0]) + total_charge(
            loan_amount,
            total_balance,
            balances.skip(1),
        )
    }
}

/// The sum of `balances`.
pub open spec fn seq_sum(balances: Seq<i128>) -> int
    decreases balances.len(),
{
    if balances.len() == 0 {
        0
    } else {
        balances[0] + seq_sum(balances.skip(1))
    }
}

/// A lender charged for a new loan loses exactly its share of the loan by the stake that
/// its balance gives it in the pool, and funds one more open loan.
pub proof fn lemma_contribution_charges_share(lender: Lender, loan_amount: i128, total_balance: i128)
    requires
        contribution_step(lender, loan_amount, total_balance) is Ok,
    ensures
        ({
            let (charged, percentage) = contribution_step(lender, loan_amount, total_balance)->Ok_0;
            &&& percentage_of(lender.balance, total_balance) == Ok::<i64, LPError>(percentage)
            &&& share_of(loan_amount, percentage) is Ok
            &&& charged.balance == lender.balance - share_of(loan_amount, percentage)->Ok_0
            &&& charged.active_loans == lender.active_loans + 1
            &&& charged.status == lender.status
        }),
{
}

/// One lender's charge rounds down: it is at most the loan's part in proportion to the
/// lender's balance.
proof fn lemma_charge_bounded(loan_amount: i128, total_balance: i128, balance: i128)
    requires
        0 <= loan_amount,
        0 < total_balance,
        0 <= balance,
        chargeable(loan_amount, total_balance, balance),
    ensures
        0 <= charge_of(loan_amount, total_balance, balance),
        charge_of(loan_amount, total_balance, balance) * total_balance <= loan_amount * balance,
{
    let scale = fixed_point();
    let a = loan_amount as int;
    let t = total_balance as int;
    let b = balance as int;
    let p = percentage_of(balance, total_balance)->Ok_0 as int;
    let c = charge_of(loan_amount, total_balance, balance);
    assert(scale == 1_000_000_000);
    assert(b * scale >= 0) by (nonlinear_arith)
        requires
            b >= 0,
            scale > 0,
    ;
    assert(p == (b * scale) / t);
    assert(p >= 0 && p * t <= b * scale) by (nonlinear_arith)
        requires
            p == (b * scale) / t,
            b * scale >= 0,
            t > 0,
    ;
    assert(a * p >= 0) by (nonlinear_arith)
        requires
            a >= 0,
            p >= 0,
    ;
    assert(c == (a * p) / scale);
    assert(c >= 0 && c * scale <= a * p) by (nonlinear_arith)
        requires
            c == (a * p) / scale,
            a * p >= 0,
            scale > 0,
    ;
    assert(c * t * scale <= a * b * scale) by (nonlinear_arith)
        requires
            c * scale <= a * p,
            p * t <= b * scale,
            t > 0,
            a >= 0,
    ;
    assert(c * t <= a * b) by (nonlinear_arith)
        requires
            c * t * scale <= a * b * scale,
            scale > 0,
    ;
}

proof fn lemma_total_charge_bounded(loan_amount: i128, total_balance: i128, balances: Seq<i128>)
    requires
        0 <= loan_amount,
        0 < total_balance,
        forall|i: int|
            0 <= i < balances.len() ==> 0 <= #[trigger] balances[i] && chargeable(
                loan_amount,
                total_balance,
                balances[i],
            ),
    ensures
        0 <= total_charge(loan_amount, total_balance, balances),
        total_charge(loan_amount, total_balance, balances) * total_balance <= loan_amount
            * seq_sum(balances),
    decreases balances.len(),
{
    if balances.len() > 0 {
        let rest = balances.skip(1);
        assert forall|i: int| 0 <= i < rest.len() implies 0 <= #[trigger] rest[i] && chargeable(
            loan_amount,
            total_balance,
            rest[i],
        ) by {
            assert(rest[i] == balances[i + 1]);
        }
        lemma_total_charge_bounded(loan_amount, total_balance, rest);
        lemma_charge_bounded(loan_amount, total_balance, balances[0]);
        let c0 = charge_of(loan_amount, total_balance, balances[0]);
        let cr = total_charge(loan_amount, total_balance, rest);
        assert((c0 + cr) * total_balance == c0 * total_balance + cr * total_balance)
            by (nonlinear_arith);
        assert(loan_amount * (balances[0] + seq_sum(rest)) == loan_amount * balances[0]
            + loan_amount * seq_sum(rest)) by (nonlinear_arith);
    }
}

/// Charging lenders for a loan never takes more than the loan altogether: when the pool
/// holds at least what the charged lenders have, each charge rounds down and the
/// charges sum to at most the loan (the rest of the loan comes from the pool).
pub proof fn lemma_charges_within_loan(loan_amount: i128, total_balance: i128, balances: Seq<i128>)
    requires
        0 <= loan_amount,
        0 < total_balance,
        seq_sum(balances) <= total_balance,
        forall|i: int|
            0 <= i < balances.len() ==> 0 <= #[trigger] balances[i] && chargeable(
                loan_amount,
                total_balance,
                balances[i],
            ),
    ensures
        0 <= total_charge(loan_amount, total_balance, balances) <= loan_amount,
{
    lemma_total_charge_bounded(loan_amount, total_balance, balances);
    let c = total_charge(loan_amount, total_balance, balances);
    let t = total_balance as int;
    let a = loan_amount as int;
    assert(a * seq_sum(balances) <= a * t) by (nonlinear_arith)
        requires
            a >= 0,
            seq_sum(balances) <= t,
    ;
    assert(c <= a) by (nonlinear_arith)
        requires
            c * t <= a * t,
            t > 0,
    ;
}

/// The balances of the enabled lenders among `addrs`, in order.
pub open spec fn enabled_balances(lenders: Map<Address, Lender>, addrs: Seq<Address>) -> Seq<i128>
    decreases addrs.len(),
{
    if addrs.len() == 0 {
        Seq::empty()
    } else {
        let rest = enabled_balances(lenders, addrs.skip(1));
        if lenders.contains_key(addrs[0]) && lenders[addrs[0]].status == LenderStatus::Enabled {
            seq![lenders[addrs[0]].balance] + rest
        } else {
            rest
        }
    }
}

proof fn lemma_skip_distinct(addrs: Seq<Address>)
    requires
        addrs.len() > 0,
        addrs.no_duplicates(),
    ensures
        addrs.skip(1).no_duplicates(),
        !addrs.skip(1).contains(addrs[0]),
        forall|k: Address| addrs.contains(k) <==> (k == addrs[0] || addrs.skip(1).contains(k)),
{
    let rest = addrs.skip(1);
    assert forall|i: int, j: int| 0 <= i < rest.len() && 0 <= j < rest.len() && i != j implies rest[i]
        != rest[j] by {
        assert(rest[i] == addrs[i + 1] && rest[j] == addrs[j + 1]);
    }
    if rest.contains(addrs[0]) {
        let i = choose|i: int| 0 <= i < rest.len() && rest[i] == addrs[0];
        assert(addrs[i + 1] == addrs[0]);
    }
    assert forall|k: Address| addrs.contains(k) <==> (k == addrs[0] || rest.contains(k)) by {
        if addrs.contains(k) && k != addrs[0] {
            let i = choose|i: int| 0 <= i < addrs.len() && addrs[i] == k;
            assert(rest[i - 1] == k);
        }
        if rest.contains(k) {
            let i = choose|i: int| 0 <= i < rest.len() && rest[i] == k;
            assert(addrs[i + 1] == k);
        }
        if k == addrs[0] {
            assert(addrs[0] == k);
        }
    }
}

proof fn lemma_enabled_balances_frame(
    lenders: Map<Address, Lender>,
    addrs: Seq<Address>,
    a: Address,
    l: Lender,
)
    requires
        !addrs.contains(a),
    ensures
        enabled_balances(lenders.insert(a, l), addrs) == enabled_balances(lenders, addrs),
    decreases addrs.len(),
{
    if addrs.len() > 0 {
        assert(addrs[0] != a);
        assert(!addrs.skip(1).contains(a)) by {
            if addrs.skip(1).contains(a) {
                let i = choose|i: int| 0 <= i < addrs.skip(1).len() && addrs.skip(1)[i] == a;
                assert(addrs[i + 1] == a);
            }
        }
        lemma_enabled_balances_frame(lenders, addrs.skip(1), a, l);
    }
}

/// Charging distinct contributors changes only their records, and takes from them
/// altogether exactly the sum of the charges of the enabled ones, each of which could
/// be computed.
proof fn lemma_contribute_charges(
    lenders: Map<Address, Lender>,
    shares: Seq<(Address, i64)>,
    addrs: Seq<Address>,
    loan_amount: i128,
    total_balance: i128,
)
    requires
        addrs.no_duplicates(),
        contribute(lenders, shares, addrs, loan_amount, total_balance) is Ok,
    ensures
        ({
            let charged = contribute(lenders, shares, addrs, loan_amount, total_balance)->Ok_0.0;
            let bs = enabled_balances(lenders, addrs);
            &&& charged.dom() == lenders.dom()
            &&& forall|k: Address|
                !addrs.contains(k) && lenders.contains_key(k) ==> charged[k] == lenders[k]
            &&& balance_sum(lenders, addrs) - balance_sum(charged, addrs) == total_charge(
                loan_amount,
                total_balance,
                bs,
            )
            &&& forall|i: int|
                0 <= i < bs.len() ==> chargeable(loan_amount, total_balance, #[trigger] bs[i])
        }),
    decreases addrs.len(),
{
    if addrs.len() > 0 {
        let a = addrs[0];
        let rest = addrs.skip(1);
        lemma_skip_distinct(addrs);
        let bs = enabled_balances(lenders, addrs);
        if lenders[a].status != LenderStatus::Enabled {
            lemma_contribute_charges(lenders, shares, rest, loan_amount, total_balance);
        } else {
            let (l, p) = contribution_step(lenders[a], loan_amount, total_balance)->Ok_0;
            let next = lenders.insert(a, l);
            lemma_contribute_charges(next, shares.push((a, p)), rest, loan_amount, total_balance);
            lemma_balance_sum_update(lenders, rest, a, l);
            lemma_enabled_balances_frame(lenders, rest, a, l);
            let charged = contribute(next, shares.push((a, p)), rest, loan_amount, total_balance)->Ok_0.0;
            assert(charged[a] == l);
            assert(next.dom() =~= lenders.dom());
            let tail = enabled_balances(lenders, rest);
            assert(bs[0] == lenders[a].balance);
            assert(bs.skip(1) =~= tail);
            assert(forall|i: int| 0 < i < bs.len() ==> bs[i] == tail[i - 1]);
        }
    }
}

/// Issuing a loan debits each charged contributor its share of the loan, and the
/// debits sum to at most the loan: when the contributors are distinct and the pool
/// holds at least what its enabled contributors have, rounding never takes more.
pub proof fn lemma_loan_debits_within_amount(
    s: PoolState,
    borrower: Address,
    amount: i128,
    loan_id: u64,
    now: u64,
)
    requires
        s.contributors.no_duplicates(),
        s.loan(borrower, amount, loan_id, now) is Ok,
        forall|i: int|
            0 <= i < enabled_balances(s.lenders, s.contributors).len() ==> 0 <= #[trigger] enabled_balances(
                s.lenders,
                s.contributors,
            )[i],
        seq_sum(enabled_balances(s.lenders, s.contributors)) <= s.total_balance,
    ensures
        ({
            let post = s.loan(borrower, amount, loan_id, now)->Ok_0.0;
            let debited = balance_sum(s.lenders, s.contributors) - balance_sum(
                post.lenders,
                s.contributors,
            );
            &&& debited == total_charge(
                amount,
                s.total_balance,
                enabled_balances(s.lenders, s.contributors),
            )
            &&& 0 <= debited <= amount
        }),
{
    let bs = enabled_balances(s.lenders, s.contributors);
    lemma_contribute_charges(s.lenders, seq![], s.contributors, amount, s.total_balance);
    if bs.len() == 0 {
        assert(total_charge(amount, s.total_balance, bs) == 0);
    } else {
        assert(chargeable(amount, s.total_balance, bs[0]));
        assert(s.total_balance != 0);
        lemma_charges_within_loan(amount, s.total_balance, bs);
    }
}

/// Taking an address out of a list leaves none of it.
proof fn lemma_excluding_drops(s: Seq<Address>, a: Address)
    ensures
        !excluding(s, a).contains(a),
{
    if excluding(s, a).contains(a) {
        let i = choose|i: int| 0 <= i < excluding(s, a).len() && excluding(s, a)[i] == a;
        s.lemma_filter_pred(|x: Address| x != a, i);
    }
}

/// Taking an address out of a list adds nothing to it.
proof fn lemma_excluding_subset(s: Seq<Address>, a: Address, x: Address)
    requires
        excluding(s, a).contains(x),
    ensures
        s.contains(x),
    decreases s.len(),
{
    reveal(Seq::filter);
    if s.len() > 0 {
        let init = s.drop_last();
        if x == s.last() {
            assert(s[s.len() - 1] == x);
        } else {
            let i = choose|i: int| 0 <= i < excluding(s, a).len() && excluding(s, a)[i] == x;
            if s.last() != a {
                assert(excluding(s, a) == excluding(init, a).push(s.last()));
                assert(excluding(init, a)[i] == x);
            } else {
                assert(excluding(s, a) == excluding(init, a));
            }
            lemma_excluding_subset(init, a, x);
            let j = choose|j: int| 0 <= j < init.len() && init[j] == x;
            assert(s[j] == x);
        }
    }
}

/// Taking an address out of a list without duplicates leaves none.
proof fn lemma_excluding_distinct(s: Seq<Address>, a: Address)
    requires
        s.no_duplicates(),
    ensures
        excluding(s, a).no_duplicates(),
    decreases s.len(),
{
    reveal(Seq::filter);
    if s.len() > 0 {
        let init = s.drop_last();
        assert(init.no_duplicates()) by {
            assert forall|i: int, j: int| 0 <= i < init.len() && 0 <= j < init.len() && i != j
                implies init[i] != init[j] by {
                assert(init[i] == s[i] && init[j] == s[j]);
            }
        }
        lemma_excluding_distinct(init, a);
        let kept = excluding(init, a);
        if s.last() != a {
            if kept.contains(s.last()) {
                lemma_excluding_subset(init, a, s.last());
                let i = choose|i: int| 0 <= i < init.len() && init[i] == s.last();
                assert(s[i] == s[s.len() - 1]);
            }
            assert(excluding(s, a) == kept.push(s.last()));
            assert forall|i: int, j: int|
                0 <= i < kept.len() + 1 && 0 <= j < kept.len() + 1 && i != j implies kept.push(
                s.last(),
            )[i] != kept.push(s.last())[j] by {
                if i == kept.len() {
                    assert(kept[j] != s.last());
                } else if j == kept.len() {
                    assert(kept[i] != s.last());
                }
            }
        }
    }
}

/// Adding an address to a list without duplicates, unless it is there, leaves none.
proof fn lemma_including_distinct(s: Seq<Address>, a: Address)
    requires
        s.no_duplicates(),
    ensures
        crate::state::including(s, a).no_duplicates(),
{
    if !s.contains(a) {
        assert forall|i: int, j: int|
            0 <= i < s.len() + 1 && 0 <= j < s.len() + 1 && i != j implies s.push(a)[i] != s.push(
            a,
        )[j] by {
            if i == s.len() {
                assert(s[j] != a);
            } else if j == s.len() {
                assert(s[i] != a);
            }
        }
    }
}

proof fn lemma_settle_distinct(st: Settlement, contract: Address, shares: Seq<(Address, i64)>)
    requires
        st.contributors.no_duplicates(),
        settle(st, contract, shares) is Ok,
    ensures
        settle(st, contract, shares)->Ok_0.contributors.no_duplicates(),
    decreases shares.len(),
{
    if shares.len() > 0 {
        let (a, p) = shares[0];
        let l = st.lenders[a];
        let credit = share_of(st.amount_for_lenders, p)->Ok_0;
        let balance = checked(l.balance + credit, LPError::OverflowError)->Ok_0;
        if (l.active_loans - 1) as u32 == 0 && l.status == LenderStatus::PendingRemoval {
            let rest = checked(st.amount_for_lenders - balance, LPError::UnderflowError)->Ok_0;
            lemma_excluding_distinct(st.contributors, a);
            lemma_settle_distinct(
                Settlement {
                    lenders: st.lenders.remove(a),
                    contributors: excluding(st.contributors, a),
                    amount_for_lenders: rest,
                    transfers: st.transfers.push(Transfer { from: contract, to: a, amount: balance }),
                },
                contract,
                shares.skip(1),
            );
        } else {
            lemma_settle_distinct(
                Settlement {
                    lenders: st.lenders.insert(
                        a,
                        Lender { status: l.status, balance, active_loans: (l.active_loans - 1) as u32 },
                    ),
                    ..st
                },
                contract,
                shares.skip(1),
            );
        }
    }
}

/// Whether no lender is listed twice among the contributors.
pub open spec fn distinct_contributors(s: PoolState) -> bool {
    s.contributors.no_duplicates()
}

/// A deposit lists its lender among the contributors at most once.
pub proof fn lemma_deposit_keeps_contributors_distinct(s: PoolState, address: Address, amount: i128)
    requires
        distinct_contributors(s),
        s.deposit(address, amount) is Ok,
    ensures
        distinct_contributors(s.deposit(address, amount)->Ok_0.0),
{
    lemma_including_distinct(s.contributors, address);
}

/// A withdrawal keeps the contributors free of duplicates.
pub proof fn lemma_withdraw_keeps_contributors_distinct(s: PoolState, address: Address, amount: i128)
    requires
        distinct_contributors(s),
        s.withdraw(address, amount) is Ok,
    ensures
        distinct_contributors(s.withdraw(address, amount)->Ok_0.0),
{
    lemma_excluding_distinct(s.contributors, address);
}

/// Enabling or disabling a lender keeps the contributors free of duplicates.
pub proof fn lemma_set_lender_status_keeps_contributors_distinct(
    s: PoolState,
    address: Address,
    active: bool,
)
    requires
        distinct_contributors(s),
        s.set_lender_status(address, active) is Ok,
    ensures
        distinct_contributors(s.set_lender_status(address, active)->Ok_0),
{
    lemma_including_distinct(s.contributors, address);
    lemma_excluding_distinct(s.contributors, address);
}

/// Removing a lender keeps the contributors free of duplicates.
pub proof fn lemma_remove_lender_keeps_contributors_distinct(s: PoolState, address: Address)
    requires
        distinct_contributors(s),
        s.remove_lender(address) is Ok,
    ensures
        distinct_contributors(s.remove_lender(address)->Ok_0.0),
{
    lemma_excluding_distinct(s.contributors, address);
}

/// Issuing a loan leaves the contributors as they were.
pub proof fn lemma_loan_keeps_contributors(
    s: PoolState,
    borrower: Address,
    amount: i128,
    loan_id: u64,
    now: u64,
)
    requires
        s.loan(borrower, amount, loan_id, now) is Ok,
    ensures
        s.loan(borrower, amount, loan_id, now)->Ok_0.0.contributors == s.contributors,
{
}

/// A repayment keeps the contributors free of duplicates.
pub proof fn lemma_repay_loan_keeps_contributors_distinct(
    s: PoolState,
    borrower: Address,
    loan_id: u64,
    amount: i128,
    now: u64,
)
    requires
        distinct_contributors(s),
        s.repay_loan(borrower, loan_id, amount, now) is Ok,
    ensures
        distinct_contributors(s.repay_loan(borrower, loan_id, amount, now)->Ok_0.0),
{
    let loan = s.loans[loan_key(borrower, loan_id)];
    let fees = crate::percentage::fees_of(loan.amount, loan.start_time, now)->Ok_0;
    let admin_fee = crate::operations::checked_quotient(fees as int, 10)->Ok_0;
    let for_lenders = checked(amount - admin_fee, LPError::UnderflowError)->Ok_0;
    lemma_settle_distinct(
        Settlement {
            lenders: s.lenders,
            contributors: s.contributors,
            amount_for_lenders: for_lenders,
            transfers: seq![],
        },
        s.contract,
        loan.contributions,
    );
}

/// Loans of different borrowers, or with different ids, never share a key.
pub proof fn lemma_loan_key_injective(b1: Address, id1: u64, b2: Address, id2: u64)
    requires
        loan_key(b1, id1) == loan_key(b2, id2),
    ensures
        b1 == b2,
        id1 == id2,
{
    let shift = crate::state::LOAN_KEY_SHIFT as int;
    assert(b1 * shift + id1 <= u128::MAX && b2 * shift + id2 <= u128::MAX) by (nonlinear_arith)
        requires
            b1 <= u64::MAX,
            b2 <= u64::MAX,
            id1 <= u64::MAX,
            id2 <= u64::MAX,
            shift == 0x1_0000_0000_0000_0000,
    ;
    assert(b1 * shift + id1 == b2 * shift + id2);
    assert(b1 == b2 && id1 == id2) by (nonlinear_arith)
        requires
            b1 * shift + id1 == b2 * shift + id2,
            0 <= id1 < shift,
            0 <= id2 < shift,
            b1 >= 0,
            b2 >= 0,
    ;
}

} // verus!
