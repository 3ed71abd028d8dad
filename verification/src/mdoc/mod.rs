//! Verification of mdoc presentations.

pub mod acceptance_laws;
pub mod attributes;
pub mod binding;
pub mod capture_laws;
pub mod cose;
pub mod cursor;
pub mod depth_laws;
pub mod digest_laws;
pub mod digests;
pub mod encoding_laws;
pub mod failure;
pub mod grammar;
pub mod items;
pub mod laws;
pub mod mso;
pub mod nesting;
pub mod order_laws;
pub mod part_laws;
pub mod refusal_laws;
pub mod value_laws;
pub mod verify;
pub mod walk_laws;
