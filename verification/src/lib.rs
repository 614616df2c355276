//! Discovery of Ethereum node records (ENRs) published as a signed tree of
//! DNS TXT records.
//!
//! The library parses and formats the four record kinds of such trees
//! (root, branch, link and leaf), verifies the secp256k1 signature on a
//! root record, and walks a tree — descending through branches, crossing
//! allow-listed links into other trees, and yielding the ENRs found at the
//! leaves.  The walk is expressed as a step relation over explicit fetch
//! requests, so a driver may serve many fetches concurrently.

pub mod assoc;
pub mod backend;
pub mod codec;
pub mod encoding;
pub mod keys;
pub mod records;
pub mod resolver;
pub mod text;
pub mod walker;
pub mod whitelist;

pub use backend::{Backend, BackendError, MemoryBackend};
pub use codec::CodecError;
pub use keys::PublicKey;
pub use records::{Base32Hash, DnsRecord, Enr, RecoverableSignature, RootRecord, UnsignedRoot};
pub use resolver::{Query, Resolver};
pub use walker::{step, BranchKind, Fetch, FetchKind, FetchOutcome, Output, StepResult, WalkError};
pub use whitelist::{domain_is_allowed, Whitelist};
