//! State-transition core of a UTXO ledger: a covenant script machine over
//! 256-bit integers and a batch applier for transactions.
pub mod u256;
pub mod vm;
pub mod ledger;
pub mod state;
pub mod applytx;
pub mod laws;
