//! A fixed-supply fungible token ledger: balances, delegated allowances and
//! the storage layout that backs them, with the accounting laws proved.

pub mod address;
pub mod keys;
pub mod store;
pub mod ledger;
