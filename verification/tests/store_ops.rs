//! Store-level behaviour: keyed lookups, upserts, append-only history,
//! atomic debits, and the screening of raw rows.

use radix_asteris::model::{
    Account, BalanceUpdate, CompletedTransaction, Item, PartialTransaction, TxEntry,
    UpdateOperation,
};
use radix_asteris::store::{DBError, Store};

fn item(id: u32, price: u32) -> Item {
    Item { id, name: format!("item-{}", id), gtin: Some(40000 + id), price }
}

fn account(id: u32, credit: i64) -> Account {
    Account { id, name: format!("acct-{}", id), credit, overdraft: false, discount: 0, bunk: 2 }
}

#[test]
fn create_item_rejects_duplicate_id() {
    let mut store = Store::new();
    store.create_item(item(1, 100)).unwrap();
    assert_eq!(store.create_item(item(1, 150)), Err(DBError::DuplicativeEntries));
    assert_eq!(store.get_all_items().len(), 1);
    assert_eq!(store.get_all_items()[0].price, 100);
}

#[test]
fn get_account_missing_is_not_found() {
    let store = Store::new();
    assert_eq!(store.get_account(5), Err(DBError::NoTransactionFound(5)));
}

#[test]
fn insert_account_rejects_discount_above_hundred() {
    let mut store = Store::new();
    let mut a = account(1, 0);
    a.discount = 101;
    assert_eq!(store.insert_account(a), Err(DBError::InvalidDiscount));
    assert_eq!(store.get_all_accounts().len(), 0);
}

#[test]
fn insert_account_replaces_existing_row() {
    let mut store = Store::new();
    store.insert_account(account(1, 500)).unwrap();
    store.insert_account(account(1, 900)).unwrap();
    assert_eq!(store.get_all_accounts().len(), 1);
    assert_eq!(store.get_account(1).unwrap().credit, 900);
}

#[test]
fn history_is_append_only_and_keeps_first_record() {
    let mut store = Store::new();
    store.log_transaction("t".to_string(), Vec::new(), 40).unwrap();
    assert_eq!(
        store.log_transaction("t".to_string(), Vec::new(), 80),
        Err(DBError::AlreadyLogged)
    );
    assert_eq!(store.get_transaction(&"t".to_string()).unwrap().cash_back, 40);
    assert_eq!(store.get_all_transactions().len(), 1);
}

#[test]
fn get_transaction_missing_is_record_not_found() {
    let store = Store::new();
    assert_eq!(store.get_transaction(&"nope".to_string()).err(), Some(DBError::RecordNotFound));
}

#[test]
fn deduct_balance_on_missing_account_touches_no_row() {
    let mut store = Store::new();
    store.insert_account(account(1, 700)).unwrap();
    assert_eq!(store.deduct_balance(99, 100), Ok(()));
    assert_eq!(store.get_account(1).unwrap().credit, 700);
}

#[test]
fn deduct_balance_is_exact() {
    let mut store = Store::new();
    store.insert_account(account(1, 700)).unwrap();
    store.deduct_balance(1, 250).unwrap();
    assert_eq!(store.get_account(1).unwrap().credit, 450);
}

#[test]
fn update_balance_adds_and_subtracts() {
    let mut store = Store::new();
    store.insert_account(account(1, 100)).unwrap();
    store
        .update_balance(BalanceUpdate { id: 1, amount: 40, operation: UpdateOperation::Add })
        .unwrap();
    assert_eq!(store.get_account(1).unwrap().credit, 140);
    store
        .update_balance(BalanceUpdate { id: 1, amount: 200, operation: UpdateOperation::Sub })
        .unwrap();
    assert_eq!(store.get_account(1).unwrap().credit, -60);
}

#[test]
fn get_items_filters_by_listed_ids() {
    let mut store = Store::new();
    store.create_item(item(1, 100)).unwrap();
    store.create_item(item(2, 200)).unwrap();
    store.create_item(item(3, 300)).unwrap();
    let picked = store.get_items(&vec![3, 1]);
    assert_eq!(picked.len(), 2);
    assert_eq!(picked[0].id, 1);
    assert_eq!(picked[1].id, 3);
}

#[test]
fn partial_transactions_upsert_and_drop() {
    let mut store = Store::new();
    let entries = vec![TxEntry { id: 4, quantity: 2 }];
    store.create_partial_transaction("p".to_string(), entries.clone(), 150);
    assert_eq!(store.check_partial_transaction(&"p".to_string()), Some(150));
    store.create_partial_transaction("p".to_string(), entries, 90);
    assert_eq!(store.check_partial_transaction(&"p".to_string()), Some(90));
    store.drop_partial_transaction(&"p".to_string());
    assert_eq!(store.check_partial_transaction(&"p".to_string()), None);
    // dropping an absent row is not an error
    store.drop_partial_transaction(&"p".to_string());
}

#[test]
fn sync_state_snapshots_catalog_and_accounts() {
    let mut store = Store::new();
    store.create_item(item(1, 100)).unwrap();
    store.insert_account(account(7, 50)).unwrap();
    let snapshot = store.sync_state();
    assert_eq!(snapshot.pricebook.len(), 1);
    assert_eq!(snapshot.pricebook[0], item(1, 100));
    assert_eq!(snapshot.accounts.len(), 1);
    assert_eq!(snapshot.accounts[0].id, 7);
}

#[test]
fn from_rows_accepts_clean_tables() {
    let store = Store::from_rows(
        vec![item(1, 100), item(2, 200)],
        vec![account(7, 50)],
        vec![PartialTransaction { id: "p".to_string(), items: Vec::new(), remaining: 10 }],
        vec![CompletedTransaction { id: "c".to_string(), items: Vec::new(), cash_back: 0 }],
    )
    .unwrap();
    assert_eq!(store.get_all_items().len(), 2);
    assert_eq!(store.get_account(7).unwrap().credit, 50);
    assert_eq!(store.check_partial_transaction(&"p".to_string()), Some(10));
    assert_eq!(store.get_transaction(&"c".to_string()).unwrap().cash_back, 0);
}

#[test]
fn from_rows_rejects_duplicate_rows() {
    let result = Store::from_rows(
        vec![item(1, 100), item(1, 150)],
        Vec::new(),
        Vec::new(),
        Vec::new(),
    );
    assert_eq!(result.err(), Some(DBError::DuplicativeEntries));
}

#[test]
fn from_rows_rejects_out_of_range_discount() {
    let mut bad = account(1, 0);
    bad.discount = 250;
    let result = Store::from_rows(Vec::new(), vec![bad], Vec::new(), Vec::new());
    assert_eq!(result.err(), Some(DBError::InvalidDiscount));
}
