//! The batch verifier: wire types of a verification batch, and verification
//! of every signature in it against byte-encoded keys.

pub mod xmss_types;
pub mod xmss_verify;
pub mod input;
