//! Threshold-authorised transactions.
//!
//! Several co-owners of a note jointly authorise spending it: each signs the
//! transaction's signing hash, and once a spend has collected as many
//! signatures as its lock demands, and inputs and outputs balance, the
//! transaction is ready for broadcast.
//!
//! Signatures are opaque strings here. Whether a signature is
//! cryptographically valid for its key is for the caller to establish.
//!
//! The modules, from the leaves up:
//!
//! - [`keys`], [`condition`], [`note`]: keys, threshold locks, notes and
//!   outputs.
//! - [`seeds`]: the signatures a spend has collected, one per key.
//! - [`transaction`]: spends and outputs, the balance check and the
//!   signature check.
//! - [`encoding`], [`injective`], [`hashing`]: the canonical text of a
//!   transaction, the proof that different values have different texts, and
//!   the signing hash made of the text.
//! - [`status`]: which keys of a spend have signed and which have not.
//! - [`api`]: the five operations a wallet calls.
//! - [`theorems`]: what is proved of the operations taken together.
//! - [`error`], [`text`], [`sequences`]: failures, numerals, and facts about
//!   filtered sequences.
//!
//! Each type has a view, its value as mathematics, and each function states
//! over views what it returns. Three functions are trusted rather than
//! proved, each a call into another crate: the JSON string literal of a
//! string (`serde_json`) and the hexadecimal rendering of bytes (`hex`),
//! whose results are stated in full, and the SHA-256 digest (`sha2`), which
//! is a name.

pub mod text;
pub mod sequences;
pub mod error;
pub mod keys;
pub mod condition;
pub mod note;
pub mod seeds;
pub mod transaction;
pub mod encoding;
pub mod injective;
pub mod hashing;
pub mod status;
pub mod api;
pub mod theorems;

pub use crate::api::{
    add_signature, build_transaction, get_spend_hash, get_spend_signing_status,
    validate_transaction,
};
pub use crate::condition::{Lock, PkhCondition};
pub use crate::error::{ErrorKind, TxError};
pub use crate::hashing::compute_spend_hash;
pub use crate::keys::{PublicKey, Signature};
pub use crate::note::{Note, NoteName, Output};
pub use crate::seeds::Seeds;
pub use crate::status::{signing_status, SigningStatus};
pub use crate::transaction::{Spend, Transaction};
