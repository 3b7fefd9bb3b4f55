//! Formatting and parsing of cash amounts, and response wrapping.

use radix_asteris::model::{TransactionStatus, UpdateOperation};
use radix_asteris::util::{amount_pretty, parse_cash_value};

#[test]
fn amount_pretty_renders_dollars_and_cents() {
    assert_eq!(amount_pretty(120), "$1.20");
    assert_eq!(amount_pretty(5), "$0.05");
    assert_eq!(amount_pretty(0), "$0.00");
    assert_eq!(amount_pretty(1000), "$10.00");
    assert_eq!(amount_pretty(123456), "$1234.56");
    assert_eq!(amount_pretty(u32::MAX), "$42949672.95");
}

#[test]
fn parse_cash_value_reads_dollars_and_cents() {
    assert_eq!(parse_cash_value("2.00".to_string()), Ok(200));
    assert_eq!(parse_cash_value("0.80".to_string()), Ok(80));
    assert_eq!(parse_cash_value(".5".to_string()), Ok(5));
    assert_eq!(parse_cash_value("3.".to_string()), Ok(300));
}

#[test]
fn parse_cash_value_reads_plain_minor_units() {
    assert_eq!(parse_cash_value("2".to_string()), Ok(2));
    assert_eq!(parse_cash_value("".to_string()), Ok(0));
    assert_eq!(parse_cash_value("+5".to_string()), Ok(5));
    assert_eq!(parse_cash_value("4294967295".to_string()), Ok(4294967295));
}

#[test]
fn parse_cash_value_keeps_two_cent_characters() {
    assert_eq!(parse_cash_value("2.5".to_string()), Ok(205));
    assert_eq!(parse_cash_value("12.345".to_string()), Ok(1234));
}

#[test]
fn parse_cash_value_rejects_malformed_input() {
    assert_eq!(parse_cash_value("1.2.3".to_string()), Err(()));
    assert_eq!(parse_cash_value("abc".to_string()), Err(()));
    assert_eq!(parse_cash_value("12a".to_string()), Err(()));
    assert_eq!(parse_cash_value("4294967296".to_string()), Err(()));
    assert_eq!(parse_cash_value("50000000.00".to_string()), Err(()));
    assert_eq!(parse_cash_value("+".to_string()), Err(()));
}

#[test]
fn into_response_carries_status_and_message() {
    let partial = TransactionStatus::Partial { remaining: 7 }.into_response();
    assert_eq!(partial.status, TransactionStatus::Partial { remaining: 7 });
    assert_eq!(partial.message, "Transaction partially completed");

    let success = TransactionStatus::Success { cash_back: 3 }.into_response();
    assert_eq!(success.message, "Transaction completed successfully");

    let failure = TransactionStatus::Failure { reason: "nope".to_string() }.into_response();
    assert_eq!(failure.message, "nope");
    assert_eq!(failure.status, TransactionStatus::Failure { reason: "nope".to_string() });

    let invalid = TransactionStatus::InvalidAccount { account_id: 4 }.into_response();
    assert_eq!(invalid.message, "Invalid account");
}

#[test]
fn update_operation_symbols() {
    assert_eq!(UpdateOperation::Add.symbol(), "+");
    assert_eq!(UpdateOperation::Sub.symbol(), "-");
}
