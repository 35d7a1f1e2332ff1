//! Content-addressed records with anchor-indexed, link-based views.
//!
//! Records are immutable entries of a content store. What callers see as the
//! current records of a collection is a set of tagged links that lead from an
//! anchor to the entries. Creating, updating, deleting and re-indexing a record
//! are short exchanges with the store and its link index; this crate holds the
//! decisions of those exchanges, a model of the store to run them against, and
//! the proofs of what they achieve.
//!
//! - [`record`]: the shape of a kind of record, payloads, and failures.
//! - [`timestamp`] and [`address`]: creation times as link tags, and the
//!   addresses of contents.
//! - [`protocol`]: what each operation asks of the store, step by step.
//! - [`ledger`]: a store in memory that answers those requests.
//! - [`lifecycle`]: `create`, `read`, `update`, `delete`, `list` and `rebase`
//!   on a ledger, and what each comes to.
//! - [`anchors`]: the anchors of a ledger by type and tag.
//! - [`laws`]: what the operations guarantee of one another.
//! - [`zome`]: the callbacks that every application answers.
//! - [`scan`] and [`text`]: sequences and texts in contracts.

pub mod address;
pub mod anchors;
pub mod laws;
pub mod ledger;
pub mod lifecycle;
pub mod protocol;
pub mod record;
pub mod scan;
pub mod text;
pub mod timestamp;
pub mod zome;
