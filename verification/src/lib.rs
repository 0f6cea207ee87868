//! Key expressions: `/`-delimited hierarchical patterns with single-level
//! (`*`) and multi-level (`**`) wildcards, together with the canonical-form
//! rules and the matching algebra (equality, intersection, inclusion) that
//! make comparisons between two patterns well defined.
//!
//! The crate also provides the tri-state ownership wrapper used to hand such
//! values across an ownership boundary (absent / owned, with loans as
//! transient views), and the thin request/response shim through which a
//! session assigns a numeric alias to a key expression.

pub mod compose;
pub mod grammar;
pub mod keyexpr;
pub mod matching;
pub mod registry;
pub mod wrapper;
