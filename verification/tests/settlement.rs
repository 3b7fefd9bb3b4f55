//! Settlement scenarios: cash underpayment and completion, credit
//! charges with discounts and rejections, resumption and idempotence.

use radix_asteris::engine::{calc_total, handle_cash, handle_credit, process_transaction};
use radix_asteris::model::{
    Account, Item, TransactionMethod, TransactionRequest, TransactionStatus, TxEntry,
};
use radix_asteris::store::Store;

fn store_with_item(id: u32, price: u32) -> Store {
    let mut store = Store::new();
    store
        .create_item(Item { id, name: "Test Item".to_string(), gtin: None, price })
        .unwrap();
    store
}

fn account(id: u32, credit: i64, overdraft: bool, discount: u32) -> Account {
    Account { id, name: "Goober Man".to_string(), credit, overdraft, discount, bunk: 1 }
}

fn basket(id: u32, quantity: u32) -> Vec<TxEntry> {
    vec![TxEntry { id, quantity }]
}

#[test]
fn test_handle_partial_cash() {
    let mut store = store_with_item(1234, 500);
    let items = basket(1234, 2);
    let total = calc_total(&store, &"1234".to_string(), &items).unwrap();
    assert_eq!(total, 1000);
    let expected = TransactionStatus::Partial { remaining: 200 };
    let result = handle_cash(&mut store, "1234".to_string(), 800, items, total).unwrap();
    assert_eq!(expected, result);
}

#[test]
fn test_handle_full_zero_cash() {
    let mut store = store_with_item(1234, 500);
    let items = basket(1234, 2);
    let total = calc_total(&store, &"1234".to_string(), &items).unwrap();
    let expected = TransactionStatus::Success { cash_back: 0 };
    let result = handle_cash(&mut store, "1234".to_string(), 1000, items, total).unwrap();
    assert_eq!(expected, result);
}

#[test]
fn test_handle_full_nonzero_cash() {
    let mut store = store_with_item(1234, 500);
    let items = basket(1234, 2);
    let total = calc_total(&store, &"1234".to_string(), &items).unwrap();
    let expected = TransactionStatus::Success { cash_back: 200 };
    let result = handle_cash(&mut store, "1234".to_string(), 1200, items, total).unwrap();
    assert_eq!(expected, result);
}

#[test]
fn test_handle_credit() {
    let mut store = store_with_item(1234, 500);
    store.insert_account(account(1111, 10000, false, 5)).unwrap();
    let items = basket(1234, 2);
    let total = calc_total(&store, &"1234".to_string(), &items).unwrap();
    let expected = TransactionStatus::Success { cash_back: 0 };
    let result = handle_credit(&mut store, "1234".to_string(), 1111, items, total).unwrap();
    assert_eq!(expected, result);
    // 5% off the 1000 total: exactly 950 debited
    assert_eq!(store.get_account(1111).unwrap().credit, 9050);
}

#[test]
fn underpayment_freezes_remaining_and_resumes() {
    // basket: item A, qty 2 @ $1.00 => $2.00 total; tender $0.80
    let mut store = store_with_item(1, 100);
    let items = basket(1, 2);
    let total = calc_total(&store, &"tx-1".to_string(), &items).unwrap();
    assert_eq!(total, 200);
    let first = handle_cash(&mut store, "tx-1".to_string(), 80, items.clone(), total).unwrap();
    assert_eq!(first, TransactionStatus::Partial { remaining: 120 });
    assert_eq!(store.check_partial_transaction(&"tx-1".to_string()), Some(120));

    // the frozen total ignores the basket's current catalog price
    let resumed = calc_total(&store, &"tx-1".to_string(), &items).unwrap();
    assert_eq!(resumed, 120);

    // second call: tender $1.20 covers it exactly
    let second = handle_cash(&mut store, "tx-1".to_string(), 120, items, resumed).unwrap();
    assert_eq!(second, TransactionStatus::Success { cash_back: 0 });
    assert_eq!(store.check_partial_transaction(&"tx-1".to_string()), None);
}

#[test]
fn repeated_underpayment_overwrites_partial() {
    let mut store = store_with_item(1, 100);
    let items = basket(1, 2);
    let r1 = handle_cash(&mut store, "tx-r".to_string(), 80, items.clone(), 200).unwrap();
    assert_eq!(r1, TransactionStatus::Partial { remaining: 120 });
    let frozen = calc_total(&store, &"tx-r".to_string(), &items).unwrap();
    let r2 = handle_cash(&mut store, "tx-r".to_string(), 50, items, frozen).unwrap();
    assert_eq!(r2, TransactionStatus::Partial { remaining: 70 });
    assert_eq!(store.check_partial_transaction(&"tx-r".to_string()), Some(70));
}

#[test]
fn credit_discount_truncates_and_debits_exactly() {
    // discount 10% on total 9000 => discounted total 8100
    let mut store = Store::new();
    store.insert_account(account(9, 10000, false, 10)).unwrap();
    let result = handle_credit(&mut store, "tx-d".to_string(), 9, Vec::new(), 9000).unwrap();
    assert_eq!(result, TransactionStatus::Success { cash_back: 0 });
    assert_eq!(store.get_account(9).unwrap().credit, 10000 - 8100);
}

#[test]
fn credit_settles_when_discounted_total_fits_balance() {
    // credit 10000, overdraft off, discount 5, total 10000 => 9500 debited
    let mut store = Store::new();
    store.insert_account(account(2, 10000, false, 5)).unwrap();
    let result = handle_credit(&mut store, "tx-8".to_string(), 2, Vec::new(), 10000).unwrap();
    assert_eq!(result, TransactionStatus::Success { cash_back: 0 });
    assert_eq!(store.get_account(2).unwrap().credit, 500);
}

#[test]
fn insufficient_credit_rejects_without_mutation() {
    // same account, total 20000 => 19000 owed > 10000 balance, overdraft off
    let mut store = Store::new();
    store.insert_account(account(2, 10000, false, 5)).unwrap();
    let result = handle_credit(&mut store, "tx-9".to_string(), 2, Vec::new(), 20000).unwrap();
    assert_eq!(
        result,
        TransactionStatus::Failure { reason: "Insufficient Credit.".to_string() }
    );
    assert_eq!(store.get_account(2).unwrap().credit, 10000);
    assert_eq!(store.get_all_transactions().len(), 0);
}

#[test]
fn invalid_account_rejects_without_mutation() {
    let mut store = store_with_item(1, 100);
    let result = handle_credit(&mut store, "tx-i".to_string(), 42, basket(1, 1), 100).unwrap();
    assert_eq!(result, TransactionStatus::InvalidAccount { account_id: 42 });
    assert_eq!(store.get_all_transactions().len(), 0);
}

#[test]
fn overdraft_allows_negative_balance() {
    let mut store = Store::new();
    store.insert_account(account(3, 100, true, 0)).unwrap();
    let result = handle_credit(&mut store, "tx-o".to_string(), 3, Vec::new(), 250).unwrap();
    assert_eq!(result, TransactionStatus::Success { cash_back: 0 });
    assert_eq!(store.get_account(3).unwrap().credit, -150);
}

#[test]
fn unknown_item_ids_price_at_zero() {
    let mut store = store_with_item(1, 100);
    let items = vec![TxEntry { id: 1, quantity: 1 }, TxEntry { id: 999, quantity: 7 }];
    let total = calc_total(&store, &"tx-u".to_string(), &items).unwrap();
    assert_eq!(total, 100);
}

#[test]
fn settling_a_settled_tx_id_again_does_not_double_debit() {
    let mut store = Store::new();
    store.insert_account(account(5, 10000, false, 0)).unwrap();
    store.create_item(Item { id: 1, name: "a".to_string(), gtin: None, price: 400 }).unwrap();
    let request = TransactionRequest {
        tx_id: "tx-twice".to_string(),
        items: vec![TxEntry { id: 1, quantity: 1 }],
        method: TransactionMethod::Credit { account_id: 5 },
    };
    let first = process_transaction(&mut store, request).unwrap();
    assert_eq!(first, TransactionStatus::Success { cash_back: 0 });
    assert_eq!(store.get_account(5).unwrap().credit, 9600);
    assert_eq!(store.get_all_transactions().len(), 1);

    let retry = TransactionRequest {
        tx_id: "tx-twice".to_string(),
        items: vec![TxEntry { id: 1, quantity: 1 }],
        method: TransactionMethod::Credit { account_id: 5 },
    };
    let second = process_transaction(&mut store, retry).unwrap();
    assert_eq!(second, TransactionStatus::Success { cash_back: 0 });
    // no second debit, no second history row
    assert_eq!(store.get_account(5).unwrap().credit, 9600);
    assert_eq!(store.get_all_transactions().len(), 1);
}

#[test]
fn cash_settlement_logs_history_and_clears_partial() {
    let mut store = store_with_item(1, 100);
    let items = basket(1, 3);
    let r1 = handle_cash(&mut store, "tx-h".to_string(), 100, items.clone(), 300).unwrap();
    assert_eq!(r1, TransactionStatus::Partial { remaining: 200 });
    let r2 = handle_cash(&mut store, "tx-h".to_string(), 500, items, 200).unwrap();
    assert_eq!(r2, TransactionStatus::Success { cash_back: 300 });
    let logged = store.get_transaction(&"tx-h".to_string()).unwrap();
    assert_eq!(logged.cash_back, 300);
    assert_eq!(store.check_partial_transaction(&"tx-h".to_string()), None);
}

#[test]
fn process_transaction_cash_end_to_end() {
    let mut store = store_with_item(10, 250);
    let request = TransactionRequest {
        tx_id: "tx-e2e".to_string(),
        items: vec![TxEntry { id: 10, quantity: 2 }],
        method: TransactionMethod::Cash { tender: 600 },
    };
    let result = process_transaction(&mut store, request).unwrap();
    assert_eq!(result, TransactionStatus::Success { cash_back: 100 });
}

#[test]
fn basket_total_too_large_for_the_till_is_an_error() {
    let mut store = Store::new();
    store
        .create_item(Item { id: 1, name: "bulk".to_string(), gtin: None, price: u32::MAX })
        .unwrap();
    let items = vec![TxEntry { id: 1, quantity: 2 }];
    let result = calc_total(&store, &"tx-big".to_string(), &items);
    assert_eq!(result, Err("Failed to look up total for transaction.".to_string()));
}
