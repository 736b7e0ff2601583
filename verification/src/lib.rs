//! A decentralized, attenuable authorization token and the logic engine
//! that evaluates it. A token carries a signed authority block of facts;
//! a relying party opens a verifier on the token, supplies ambient facts,
//! rules and caveats, and asks whether every caveat has a satisfying
//! derivation over the combined fact set — entirely offline.

pub mod builder;
pub mod crypto;
pub mod datalog;
pub mod error;
pub mod laws;
pub mod token;
