//! Verification and holder-side issuance of EUDI attestations.

pub mod basic_laws;
pub mod cbor;
pub mod crypto;
pub mod json;
pub mod datetime;
pub mod dcql;
pub mod issuance;
pub mod mdoc;
pub mod openid4vp;
pub mod plain_laws;
pub mod secret;
pub mod status;
pub mod text;
pub mod text_map;
pub mod time_laws;
pub mod trust;
pub mod types;
