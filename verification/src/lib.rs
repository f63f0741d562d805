//! Search for X25519 key pairs whose base64 public key contains a chosen
//! string inside a chosen window.
//!
//! The search walks an additive sequence of private scalars and derives each
//! candidate public point from its predecessor by one point addition. The
//! arithmetic that turns the winning scalar back into a clamped private key
//! is proved here; the curve operations themselves come from
//! `curve25519-dalek` and `x25519-dalek` and are trusted.

pub mod alias;
pub mod curve;
pub mod encoding;
pub mod error;
pub mod estimate;
pub mod integer;
pub mod order;
pub mod predicate;
pub mod progress;
pub mod scalar;
pub mod scan;
pub mod search;

pub use alias::convert_scalar_to_private_key;
pub use curve::CurvePoint;
pub use error::{ConfigError, InvariantViolation};
pub use predicate::{make_predicate, MatchPredicate};
pub use progress::{ProgressScan, ScanEvent};
pub use scalar::Scalar;
pub use scan::{Scan, Seed};
pub use search::{search, search_attempt, search_from_key, trial, trial_with_key, KeyPair};
