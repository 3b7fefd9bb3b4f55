//! The settlement engine: resolves a basket total (resuming a frozen
//! partial total when one exists), settles payment by cash or store
//! credit, and commits the outcome to the store.
//!
//! Each settlement function's effect on the store is captured by a
//! transition predicate, and the laws the engine obeys are proved from
//! those predicates.

use vstd::prelude::*;

use crate::model::{Item, TransactionMethod, TransactionRequest, TransactionStatus, TxEntry};
use crate::store::{with_credit, Store};

verus! {

/// The discounted amount a credit settlement owes: the total less a
/// whole-percent discount, truncating toward zero.
pub open spec fn discounted_total_spec(total: u32, discount: u32) -> int {
    total - (total * discount) / 100
}

/// Applies an account's percent discount to a total, truncating.
pub fn discounted_total(total: u32, discount: u32) -> (r: u32)
    requires
        discount <= 100,
    ensures
        r == discounted_total_spec(total, discount),
{
    proof {
        assert((total as int) * (discount as int) <= (total as int) * 100) by (nonlinear_arith)
            requires
                discount <= 100,
                0 <= total,
        ;
    }
    let off: u64 = (total as u64) * (discount as u64) / 100;
    total - (off as u32)
}

/// The unit price the pricebook gives an item id; an unknown id is
/// priced at zero.
pub open spec fn unit_price(items: Map<u32, Item>, id: u32) -> u32 {
    if items.contains_key(id) {
        items[id].price
    } else {
        0u32
    }
}

/// The sum over a basket of quantity times unit price.
pub open spec fn basket_total(items: Map<u32, Item>, entries: Seq<TxEntry>) -> int
    decreases entries.len(),
{
    if entries.len() == 0 {
        0
    } else {
        basket_total(items, entries.drop_last()) + entries.last().quantity * unit_price(items,
            entries.last().id)
    }
}

/// A basket total is never negative.
pub proof fn lemma_basket_total_nonneg(items: Map<u32, Item>, entries: Seq<TxEntry>)
    ensures
        basket_total(items, entries) >= 0,
    decreases entries.len(),
{
    if entries.len() > 0 {
        lemma_basket_total_nonneg(items, entries.drop_last());
        assert((entries.last().quantity as int) * (unit_price(items, entries.last().id) as int)
            >= 0) by (nonlinear_arith);
    }
}

/// A basket total only grows as entries are appended.
pub proof fn lemma_basket_total_prefix(items: Map<u32, Item>, entries: Seq<TxEntry>, i: int)
    requires
        0 <= i <= entries.len(),
    ensures
        basket_total(items, entries.take(i)) <= basket_total(items, entries),
    decreases entries.len() - i,
{
    if i == entries.len() {
        assert(entries.take(i) =~= entries);
    } else {
        let next = entries.take(i + 1);
        assert(next.drop_last() =~= entries.take(i));
        assert(next.last() == entries[i]);
        assert((entries[i].quantity as int) * (unit_price(items, entries[i].id) as int) >= 0)
            by (nonlinear_arith);
        lemma_basket_total_prefix(items, entries, i + 1);
    }
}

/// The total a settlement is owed: the frozen remaining amount when a
/// partial transaction exists for the id, else the priced basket; no
/// total at all when the priced basket does not fit the till.
pub open spec fn resolve_total_spec(store: Store, tx_id: Seq<char>, entries: Seq<TxEntry>) -> Option<
    u32,
> {
    if store.partials_map().contains_key(tx_id) {
        Some(store.partials_map()[tx_id].1)
    } else if basket_total(store.items_map(), entries) <= u32::MAX {
        Some(basket_total(store.items_map(), entries) as u32)
    } else {
        None
    }
}

/// Resolves the total a transaction is owed. A transaction id with an
/// in-flight partial record resumes its frozen remaining amount and
/// the basket is not re-priced; otherwise the basket is priced against
/// the pricebook, with unknown item ids priced at zero.
pub fn calc_total(store: &Store, tx_id: &String, items: &Vec<TxEntry>) -> (r: Result<u32, String>)
    requires
        store.wf(),
    ensures
        match resolve_total_spec(*store, tx_id@, items@) {
            Some(total) => r == Ok::<u32, String>(total),
            None => r matches Err(m) && m@ == "Failed to look up total for transaction."@,
        },
{
    match store.check_partial_transaction(tx_id) {
        Some(remaining) => Ok(remaining),
        None => {
            let mut acc: u64 = 0;
            let n = items.len();
            for i in 0..n
                invariant
                    n == items@.len(),
                    store.wf(),
                    !store.partials_map().contains_key(tx_id@),
                    acc <= u32::MAX,
                    acc == basket_total(store.items_map(), items@.take(i as int)),
            {
                let ghost prefix = items@.take(i as int);
                let ghost next = items@.take(i as int + 1);
                proof {
                    assert(next.drop_last() =~= prefix);
                    assert(next.last() == items@[i as int]);
                }
                let entry = items[i];
                let price = store.get_price(entry.id);
                proof {
                    assert(0 <= (entry.quantity as int) * (price as int) <= 0xffff_ffff
                        * 0xffff_ffff) by (nonlinear_arith)
                        requires
                            entry.quantity <= 0xffff_ffffu32,
                            price <= 0xffff_ffffu32,
                    ;
                }
                let term: u64 = (entry.quantity as u64) * (price as u64);
                acc = acc + term;
                if acc > 0xffff_ffff {
                    proof {
                        lemma_basket_total_prefix(store.items_map(), items@, i as int + 1);
                    }
                    return Err(String::from_str("Failed to look up total for transaction."));
                }
            }
            proof {
                assert(items@.take(n as int) =~= items@);
            }
            Ok(acc as u32)
        },
    }
}

/// What a cash settlement does to the store and reports back. An
/// underpayment freezes the shortfall as the transaction's partial
/// record; full payment logs the sale (keeping the first record if one
/// is somehow present) and clears any partial record.
pub open spec fn cash_transition(
    pre: Store,
    post: Store,
    tx_id: Seq<char>,
    entries: Seq<TxEntry>,
    tendered: u32,
    total: u32,
    r: Result<TransactionStatus, String>,
) -> bool {
    &&& post.pricebook == pre.pricebook
    &&& post.accounts == pre.accounts
    &&& if total > tendered {
        &&& r == Ok::<TransactionStatus, String>(TransactionStatus::Partial {
            remaining: (total - tendered) as u32,
        })
        &&& post.partials_map() == pre.partials_map().insert(tx_id, (entries, (total
            - tendered) as u32))
        &&& post.history == pre.history
    } else {
        &&& r == Ok::<TransactionStatus, String>(TransactionStatus::Success {
            cash_back: (tendered - total) as u32,
        })
        &&& post.partials_map() == pre.partials_map().remove(tx_id)
        &&& if pre.history_map().contains_key(tx_id) {
            post.history == pre.history
        } else {
            post.history_map() == pre.history_map().insert(tx_id, (entries, (tendered
                - total) as u32))
        }
    }
}

/// Settles a cash payment against a resolved total.
///
/// Creating the partial record on underpayment is the authoritative
/// mutation the next resume depends on. On full payment the money has
/// already changed hands, so the history append and the partial-record
/// cleanup are advisory: a duplicate history row is ignored rather
/// than allowed to fail the sale.
pub fn handle_cash(
    store: &mut Store,
    tx_id: String,
    cash_amount: u32,
    items: Vec<TxEntry>,
    total: u32,
) -> (r: Result<TransactionStatus, String>)
    requires
        old(store).wf(),
    ensures
        final(store).wf(),
        cash_transition(*old(store), *final(store), tx_id@, items@, cash_amount, total, r),
{
    if total > cash_amount {
        let difference = total - cash_amount;
        store.create_partial_transaction(tx_id, items, difference);
        Ok(TransactionStatus::Partial { remaining: difference })
    } else {
        let cash_back = cash_amount - total;
        let _ = store.log_transaction(tx_id.clone(), items, cash_back);
        store.drop_partial_transaction(&tx_id);
        Ok(TransactionStatus::Success { cash_back })
    }
}

/// What a credit settlement does to the store and reports back. An
/// unknown account or insufficient credit is a rejection that changes
/// nothing; otherwise the discounted total is debited atomically, the
/// sale is logged and any partial record cleared.
pub open spec fn credit_transition(
    pre: Store,
    post: Store,
    tx_id: Seq<char>,
    entries: Seq<TxEntry>,
    account_id: u32,
    total: u32,
    r: Result<TransactionStatus, String>,
) -> bool {
    if !pre.accounts_map().contains_key(account_id) {
        &&& post == pre
        &&& r == Ok::<TransactionStatus, String>(TransactionStatus::InvalidAccount { account_id })
    } else {
        let acct = pre.accounts_map()[account_id];
        let owed = discounted_total_spec(total, acct.discount);
        if acct.credit < owed && !acct.overdraft {
            &&& post == pre
            &&& (r matches Ok(s) && s matches TransactionStatus::Failure { reason } && reason@
                == "Insufficient Credit."@)
        } else if acct.credit - owed < i64::MIN {
            &&& post == pre
            &&& (r matches Err(m) && m@ == "Error deducting balance from account."@)
        } else {
            &&& r == Ok::<TransactionStatus, String>(TransactionStatus::Success {
                cash_back: 0u32,
            })
            &&& post.pricebook == pre.pricebook
            &&& post.accounts_map() == pre.accounts_map().insert(account_id, with_credit(acct, (
            acct.credit - owed) as i64))
            &&& post.accounts@.len() == pre.accounts@.len()
            &&& post.partials_map() == pre.partials_map().remove(tx_id)
            &&& if pre.history_map().contains_key(tx_id) {
                post.history == pre.history
            } else {
                post.history_map() == pre.history_map().insert(tx_id, (entries, 0u32))
            }
        }
    }
}

/// Settles a charge to an account's store credit against a resolved
/// total.
///
/// The account's discount is applied first; the balance screen rejects
/// the charge cleanly when credit is short and overdraft is off. The
/// debit is the fatal mutation: a charge is never logged unless the
/// balance actually moved. The history append and partial-record
/// cleanup afterwards are advisory, as in the cash path.
pub fn handle_credit(
    store: &mut Store,
    tx_id: String,
    account_id: u32,
    items: Vec<TxEntry>,
    total: u32,
) -> (r: Result<TransactionStatus, String>)
    requires
        old(store).wf(),
    ensures
        final(store).wf(),
        credit_transition(*old(store), *final(store), tx_id@, items@, account_id, total, r),
{
    let account = match store.get_account(account_id) {
        Ok(a) => a,
        Err(_) => {
            return Ok(TransactionStatus::InvalidAccount { account_id });
        },
    };
    proof {
        crate::store::lemma_account_discount(*store, account_id);
    }
    let owed = discounted_total(total, account.discount);
    if account.credit < (owed as i64) && !account.overdraft {
        return Ok(TransactionStatus::Failure {
            reason: String::from_str("Insufficient Credit."),
        });
    }
    match store.deduct_balance(account_id, owed) {
        Ok(_) => {
            let _ = store.log_transaction(tx_id.clone(), items, 0);
            store.drop_partial_transaction(&tx_id);
            Ok(TransactionStatus::Success { cash_back: 0 })
        },
        Err(_) => Err(String::from_str("Error deducting balance from account.")),
    }
}

/// What one settlement request does to the store: a transaction id the
/// history already holds is answered from the record and nothing
/// moves; otherwise the total is resolved and the payment method's
/// transition applies.
pub open spec fn settle_transition(
    pre: Store,
    post: Store,
    request: TransactionRequest,
    r: Result<TransactionStatus, String>,
) -> bool {
    if pre.history_map().contains_key(request.tx_id@) {
        &&& post == pre
        &&& r == Ok::<TransactionStatus, String>(TransactionStatus::Success {
            cash_back: pre.history_map()[request.tx_id@].1,
        })
    } else {
        match resolve_total_spec(pre, request.tx_id@, request.items@) {
            Some(total) => match request.method {
                TransactionMethod::Cash { tender } => cash_transition(pre, post, request.tx_id@,
                    request.items@, tender, total, r),
                TransactionMethod::Credit { account_id } => credit_transition(pre, post,
                    request.tx_id@, request.items@, account_id, total, r),
            },
            None => post == pre && (r matches Err(_)),
        }
    }
}

/// Carries one settlement request through: the already-settled guard,
/// total resolution, then the payment method's settlement.
///
/// The guard makes retries safe: re-sending a request whose id is in
/// the history returns the recorded outcome instead of settling again.
pub fn process_transaction(store: &mut Store, request: TransactionRequest) -> (r: Result<
    TransactionStatus,
    String,
>)
    requires
        old(store).wf(),
    ensures
        final(store).wf(),
        settle_transition(*old(store), *final(store), request, r),
{
    let TransactionRequest { tx_id, items, method } = request;
    if let Some(cash_back) = store.logged_cash_back(&tx_id) {
        return Ok(TransactionStatus::Success { cash_back });
    }
    let total = match calc_total(store, &tx_id, &items) {
        Ok(t) => t,
        Err(m) => {
            return Err(m);
        },
    };
    match method {
        TransactionMethod::Cash { tender } => handle_cash(store, tx_id, tender, items, total),
        TransactionMethod::Credit { account_id } => handle_credit(store, tx_id, account_id, items,
            total),
    }
}

/// Underpaying in cash yields a partial outcome for exactly the
/// shortfall, and resolving the same transaction id afterwards returns
/// that shortfall, whatever basket is presented.
pub proof fn lemma_underpayment_creates_partial(
    pre: Store,
    post: Store,
    tx_id: Seq<char>,
    entries: Seq<TxEntry>,
    tendered: u32,
    total: u32,
    r: Result<TransactionStatus, String>,
)
    requires
        cash_transition(pre, post, tx_id, entries, tendered, total, r),
        total > tendered,
    ensures
        r == Ok::<TransactionStatus, String>(TransactionStatus::Partial {
            remaining: (total - tendered) as u32,
        }),
        forall|other: Seq<TxEntry>| #[trigger]
            resolve_total_spec(post, tx_id, other) == Some((total - tendered) as u32),
{
}

/// Tendering at least the total settles in full with the exact change,
/// and leaves no partial record behind for the transaction id.
pub proof fn lemma_full_payment_settles(
    pre: Store,
    post: Store,
    tx_id: Seq<char>,
    entries: Seq<TxEntry>,
    tendered: u32,
    total: u32,
    r: Result<TransactionStatus, String>,
)
    requires
        cash_transition(pre, post, tx_id, entries, tendered, total, r),
        tendered >= total,
    ensures
        r == Ok::<TransactionStatus, String>(TransactionStatus::Success {
            cash_back: (tendered - total) as u32,
        }),
        !post.partials_map().contains_key(tx_id),
{
}

/// Underpaying a fresh transaction in cash yields a partial outcome
/// for exactly the priced basket's shortfall, and the transaction id
/// then resolves to that shortfall, whatever basket is presented.
pub proof fn lemma_request_underpayment(
    pre: Store,
    post: Store,
    request: TransactionRequest,
    tender: u32,
    r: Result<TransactionStatus, String>,
)
    requires
        settle_transition(pre, post, request, r),
        request.method == (TransactionMethod::Cash { tender }),
        !pre.history_map().contains_key(request.tx_id@),
        !pre.partials_map().contains_key(request.tx_id@),
        tender < basket_total(pre.items_map(), request.items@) <= u32::MAX,
    ensures
        r == Ok::<TransactionStatus, String>(TransactionStatus::Partial {
            remaining: (basket_total(pre.items_map(), request.items@) - tender) as u32,
        }),
        forall|other: Seq<TxEntry>| #[trigger]
            resolve_total_spec(post, request.tx_id@, other) == Some((basket_total(pre.items_map(),
                request.items@) - tender) as u32),
{
    let total = basket_total(pre.items_map(), request.items@) as u32;
    lemma_underpayment_creates_partial(pre, post, request.tx_id@, request.items@, tender, total,
        r);
}

/// Tendering at least the priced basket's total settles a fresh
/// transaction in full, returns exactly the overpayment as change, and
/// leaves no partial record behind for the transaction id.
pub proof fn lemma_request_full_payment(
    pre: Store,
    post: Store,
    request: TransactionRequest,
    tender: u32,
    r: Result<TransactionStatus, String>,
)
    requires
        settle_transition(pre, post, request, r),
        request.method == (TransactionMethod::Cash { tender }),
        !pre.history_map().contains_key(request.tx_id@),
        !pre.partials_map().contains_key(request.tx_id@),
        basket_total(pre.items_map(), request.items@) <= tender,
    ensures
        r == Ok::<TransactionStatus, String>(TransactionStatus::Success {
            cash_back: (tender - basket_total(pre.items_map(), request.items@)) as u32,
        }),
        !post.partials_map().contains_key(request.tx_id@),
{
    lemma_basket_total_nonneg(pre.items_map(), request.items@);
    let total = basket_total(pre.items_map(), request.items@) as u32;
    lemma_full_payment_settles(pre, post, request.tx_id@, request.items@, tender, total, r);
}

/// A transaction id with a partial record resolves to its frozen
/// remaining amount: neither the pricebook's current prices nor the
/// presented basket affect what is owed.
pub proof fn lemma_resume_uses_frozen_total(
    s1: Store,
    s2: Store,
    tx_id: Seq<char>,
    entries1: Seq<TxEntry>,
    entries2: Seq<TxEntry>,
)
    requires
        s1.partials_map().contains_key(tx_id),
        s1.partials_map() == s2.partials_map(),
    ensures
        resolve_total_spec(s1, tx_id, entries1) == Some(s1.partials_map()[tx_id].1),
        resolve_total_spec(s1, tx_id, entries1) == resolve_total_spec(s2, tx_id, entries2),
{
}

/// A credit settlement that reports a rejection, an invalid account or
/// insufficient credit, changes nothing: in particular no account
/// balance moves.
pub proof fn lemma_rejected_credit_mutates_nothing(
    pre: Store,
    post: Store,
    tx_id: Seq<char>,
    entries: Seq<TxEntry>,
    account_id: u32,
    total: u32,
    r: Result<TransactionStatus, String>,
)
    requires
        credit_transition(pre, post, tx_id, entries, account_id, total, r),
        r matches Ok(TransactionStatus::Failure { .. }) || r matches Ok(
            TransactionStatus::InvalidAccount { .. },
        ),
    ensures
        post == pre,
{
}

/// Settling a transaction id the history already holds is idempotent:
/// the store does not change, so nothing is debited or logged twice,
/// and the recorded outcome is returned.
pub proof fn lemma_settlement_idempotent(
    pre: Store,
    post: Store,
    request: TransactionRequest,
    r: Result<TransactionStatus, String>,
)
    requires
        settle_transition(pre, post, request, r),
        pre.history_map().contains_key(request.tx_id@),
    ensures
        post == pre,
        r == Ok::<TransactionStatus, String>(TransactionStatus::Success {
            cash_back: pre.history_map()[request.tx_id@].1,
        }),
{
}

} // verus!
