//! A verified model of a price-oracle account-graph mirror.
//!
//! The library keeps a locally consistent snapshot of a remote ledger's
//! oracle accounts: mapping accounts form a chain naming product accounts,
//! product accounts name chains of price accounts.  A poll cycle rebuilds
//! the whole graph, a push notification patches a single price entry, and a
//! dashboard builder merges the confirmed, metadata and pending snapshots
//! into one per-symbol report.  The I/O shell (RPC reads, channels, HTML)
//! lives outside the library and only hands plain values in and out.

#![verifier::loop_isolation(false)]

pub mod accounts;
pub mod assoc;
pub mod dashboard;
pub mod decode;
pub mod fmt;
pub mod keys;
pub mod oracle;
