//! Login session tokens with a short-lived decode cache, and the rules that
//! keep the ASPA objects of a certificate authority in step with its ASPA
//! definitions.

pub mod aspa;
pub mod cipher;
mod clock;
pub mod encoding;
pub mod error;
pub mod session;
