//! Hardware-rooted EAT receipts: the token wire format, its binding into a
//! TEE quote, build→runtime chain walking, and the service's configuration
//! and request-parsing rules, each with a machine-checked contract.

pub mod platform;
pub mod text;
pub mod cbor;
pub mod eat;
pub mod eat_laws;
pub mod crypto;
pub mod encoding;
pub mod receipt;
pub mod verify;
pub mod quote_source;
pub mod config;
pub mod attest;
pub mod kds;
pub mod measurements;
pub mod request;
