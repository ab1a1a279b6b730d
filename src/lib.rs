//! A ledger-backed transaction service core: a decoder for the tagged binary value format, a
//! canonical text formatter for decoded values that collects the vault ids it meets, and the
//! state and request logic that the service's handlers share.
//!
//! - `text`: decimal and hexadecimal text of numbers and bytes.
//! - `value`: decoded values and their mathematical form.
//! - `decode`: the byte format, as a parser over bytes and a decoder proved equal to it.
//! - `ledger`: addresses, ids, and the ledger entities that decoding and balances read.
//! - `format`: canonical text of values, lazy-map expansion, vault discovery.
//! - `config`: the shared nonce, epoch and ledger, and the laws their changes obey.
//! - `entities`: receipts, signers, and newly created entities by kind.
//! - `handlers`: balance lookups, call-result decoding, and the end of a transaction attempt.
pub mod text;
pub mod value;
pub mod decode;
pub mod ledger;
pub mod format;
pub mod config;
pub mod entities;
pub mod handlers;
