/// Serialization of transactions and their ids.
pub mod encoding;
/// Public statements of the ledger's global properties.
pub mod laws;
/// Small operations on Rust's primitive types.
pub mod primitives;
/// The ledger: store, committed transactions, submission.
pub mod processor;
/// The store of spendable outputs.
pub mod store;
/// References, inputs, outputs, transactions and refusals.
pub mod types;
/// The checks a transaction must pass before it is committed.
pub mod validation;
/// Coin selection and unsigned transfers.
pub mod wallet;
