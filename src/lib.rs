//! Content fingerprints of files and the comparison of two collections of them: which
//! entries of one collection hold content that no entry of the other holds.
pub mod compare;
pub mod digest;
pub mod entry;
pub mod lemmas;
pub mod membership;

pub use compare::{collect_hashed, compare, deduplicate_by_hash, diff};
pub use digest::{ContentHasher, Fingerprint, fingerprint_of};
pub use entry::FileEntry;
pub use membership::FingerprintSet;
