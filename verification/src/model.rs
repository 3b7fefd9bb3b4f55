//! Data model for the settlement engine: catalog items, basket entries,
//! accounts, transaction requests and outcomes, and persisted records.

use vstd::prelude::*;

verus! {

/// One line of a basket: an item identifier and how many of it are bought.
#[derive(Clone, Copy, Debug, PartialEq, Eq, Structural)]
pub struct TxEntry {
    pub id: u32,
    pub quantity: u32,
}

/// A catalog (pricebook) item. `price` is in minor currency units.
#[derive(Debug)]
pub struct Item {
    pub id: u32,
    pub name: String,
    pub gtin: Option<u32>,
    pub price: u32,
}

impl Clone for Item {
    fn clone(&self) -> (res: Self)
        ensures
            res == *self,
    {
        Item { id: self.id, name: self.name.clone(), gtin: self.gtin, price: self.price }
    }
}

impl PartialEq for Item {
    fn eq(&self, other: &Self) -> (r: bool) {
        self.id == other.id && self.name == other.name && self.gtin == other.gtin
            && self.price == other.price
    }
}

impl vstd::std_specs::cmp::PartialEqSpecImpl for Item {
    open spec fn obeys_eq_spec() -> bool {
        true
    }

    open spec fn eq_spec(&self, other: &Self) -> bool {
        &&& self.id == other.id
        &&& self.name@ == other.name@
        &&& self.gtin == other.gtin
        &&& self.price == other.price
    }
}

/// A customer account. `credit` is a signed balance in minor currency
/// units: it may only go below zero when `overdraft` is set. `discount`
/// is a whole-percent rebate applied to credit settlements.
#[derive(Debug)]
pub struct Account {
    pub id: u32,
    pub name: String,
    pub credit: i64,
    pub overdraft: bool,
    pub discount: u32,
    pub bunk: u32,
}

impl Clone for Account {
    fn clone(&self) -> (res: Self)
        ensures
            res == *self,
    {
        Account {
            id: self.id,
            name: self.name.clone(),
            credit: self.credit,
            overdraft: self.overdraft,
            discount: self.discount,
            bunk: self.bunk,
        }
    }
}

impl PartialEq for Account {
    fn eq(&self, other: &Self) -> (r: bool) {
        self.id == other.id && self.name == other.name && self.credit == other.credit
            && self.overdraft == other.overdraft && self.discount == other.discount
            && self.bunk == other.bunk
    }
}

impl vstd::std_specs::cmp::PartialEqSpecImpl for Account {
    open spec fn obeys_eq_spec() -> bool {
        true
    }

    open spec fn eq_spec(&self, other: &Self) -> bool {
        &&& self.id == other.id
        &&& self.name@ == other.name@
        &&& self.credit == other.credit
        &&& self.overdraft == other.overdraft
        &&& self.discount == other.discount
        &&& self.bunk == other.bunk
    }
}

/// How a transaction is paid: cash handed over, or a charge to an account.
#[derive(Clone, Copy, Debug, PartialEq, Eq, Structural)]
pub enum TransactionMethod {
    Cash { tender: u32 },
    Credit { account_id: u32 },
}

/// A settlement request: a client-generated transaction identifier, the
/// basket, and the payment method.
#[derive(Debug)]
pub struct TransactionRequest {
    pub tx_id: String,
    pub items: Vec<TxEntry>,
    pub method: TransactionMethod,
}

/// The outcome of a settlement attempt. `Failure` and `InvalidAccount`
/// are business rejections, not transport errors.
#[derive(Debug)]
pub enum TransactionStatus {
    Success { cash_back: u32 },
    Partial { remaining: u32 },
    InvalidAccount { account_id: u32 },
    Failure { reason: String },
}

impl PartialEq for TransactionStatus {
    fn eq(&self, other: &Self) -> (r: bool) {
        match (self, other) {
            (
                TransactionStatus::Success { cash_back: a },
                TransactionStatus::Success { cash_back: b },
            ) => *a == *b,
            (
                TransactionStatus::Partial { remaining: a },
                TransactionStatus::Partial { remaining: b },
            ) => *a == *b,
            (
                TransactionStatus::InvalidAccount { account_id: a },
                TransactionStatus::InvalidAccount { account_id: b },
            ) => *a == *b,
            (
                TransactionStatus::Failure { reason: a },
                TransactionStatus::Failure { reason: b },
            ) => *a == *b,
            _ => false,
        }
    }
}

impl vstd::std_specs::cmp::PartialEqSpecImpl for TransactionStatus {
    open spec fn obeys_eq_spec() -> bool {
        true
    }

    open spec fn eq_spec(&self, other: &Self) -> bool {
        match (self, other) {
            (
                TransactionStatus::Success { cash_back: a },
                TransactionStatus::Success { cash_back: b },
            ) => a == b,
            (
                TransactionStatus::Partial { remaining: a },
                TransactionStatus::Partial { remaining: b },
            ) => a == b,
            (
                TransactionStatus::InvalidAccount { account_id: a },
                TransactionStatus::InvalidAccount { account_id: b },
            ) => a == b,
            (
                TransactionStatus::Failure { reason: a },
                TransactionStatus::Failure { reason: b },
            ) => a@ == b@,
            _ => false,
        }
    }
}

/// A finalized transaction as kept in the history table. `cash_back`
/// is the change returned on cash overpayment, 0 otherwise.
#[derive(Debug)]
pub struct CompletedTransaction {
    pub id: String,
    pub items: Vec<TxEntry>,
    pub cash_back: u32,
}

/// An underpaid transaction awaiting more tender. `remaining` is the
/// frozen amount still owed; resuming the same `id` reuses it verbatim.
#[derive(Debug)]
pub struct PartialTransaction {
    pub id: String,
    pub items: Vec<TxEntry>,
    pub remaining: u32,
}

/// A snapshot of the catalog and the accounts, as served to clients
/// that mirror the store.
#[derive(Debug)]
pub struct SyncState {
    pub pricebook: Vec<Item>,
    pub accounts: Vec<Account>,
}

/// An administrative balance adjustment.
#[derive(Clone, Copy, Debug, PartialEq, Eq, Structural)]
pub enum UpdateOperation {
    Add,
    Sub,
}

/// The request body for an administrative balance adjustment.
#[derive(Clone, Copy, Debug, PartialEq, Eq, Structural)]
pub struct BalanceUpdate {
    pub id: u32,
    pub amount: u32,
    pub operation: UpdateOperation,
}

/// Display details of a catalog item, as shown by a client.
#[derive(Debug)]
pub struct ItemDetails {
    pub name: String,
    pub price: u32,
    pub gtin: Option<u32>,
}

/// A settlement outcome together with a human-readable message.
#[derive(Debug)]
pub struct TransactionResponseBody {
    pub status: TransactionStatus,
    pub message: String,
}

impl UpdateOperation {
    /// The sign this operation applies to an amount.
    pub fn symbol(&self) -> (r: &'static str)
        ensures
            r@ == (if self is Add {
                "+"@
            } else {
                "-"@
            }),
    {
        match self {
            UpdateOperation::Add => "+",
            UpdateOperation::Sub => "-",
        }
    }
}

impl TransactionStatus {
    /// Wraps the outcome in a response body with the operator-facing
    /// message the server attaches to it.
    pub fn into_response(self) -> (r: TransactionResponseBody)
        ensures
            r.status == self,
            r.message@ == (match self {
                TransactionStatus::Partial { .. } => "Transaction partially completed"@,
                TransactionStatus::Success { .. } => "Transaction completed successfully"@,
                TransactionStatus::InvalidAccount { .. } => "Invalid account"@,
                TransactionStatus::Failure { reason } => reason@,
            }),
    {
        match self {
            TransactionStatus::Partial { remaining } => TransactionResponseBody {
                status: TransactionStatus::Partial { remaining },
                message: String::from_str("Transaction partially completed"),
            },
            TransactionStatus::Success { cash_back } => TransactionResponseBody {
                status: TransactionStatus::Success { cash_back },
                message: String::from_str("Transaction completed successfully"),
            },
            TransactionStatus::InvalidAccount { account_id } => TransactionResponseBody {
                status: TransactionStatus::InvalidAccount { account_id },
                message: String::from_str("Invalid account"),
            },
            TransactionStatus::Failure { reason } => {
                let message = reason.clone();
                TransactionResponseBody {
                    status: TransactionStatus::Failure { reason },
                    message,
                }
            },
        }
    }
}

} // verus!
