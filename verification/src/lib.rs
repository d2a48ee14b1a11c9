//! An in-memory ledger: a registry of client records with unique document
//! numbers and sequential identifiers, credit-only balance transactions, and
//! a snapshot exporter that renders every balance into a uniquely named file.

pub mod date;
pub mod decimal;
pub mod export;
pub mod registry;
