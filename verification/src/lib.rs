//! Shamir's secret sharing over GF(2^8).
//!
//! A secret byte sequence is split into a configurable number of shares such
//! that any subset of at least the configured threshold of them reconstructs
//! the secret exactly, while the shares are carried as opaque base-62 text
//! tokens.

pub mod base62;
mod bigint;
pub mod error;
pub mod gf256;
mod rng;
pub mod shamir;
pub mod share_codec;
mod text;
pub mod utils;

pub use error::SsssError;
pub use shamir::SsssConfig;
pub use shamir::SsssConfigBuilder;
pub use shamir::gen_shares;
pub use shamir::unlock;
pub use shamir::validate_split_args;
pub use utils::remove_random_entry;
