//! A verified core for a MySQL object-relational mapper.
//!
//! The library models an entity's schema (table, primary key, columns,
//! one-to-many relations) as a runtime tree, and provides three verified
//! services around it:
//!
//! - generation of multi-statement mutation batches (insert, update, delete)
//!   that cascade through nested relations and chain generated keys through
//!   session variables,
//! - generation of a single UNION-ALL query that retrieves a whole entity
//!   graph in one round trip, together with the column-offset bookkeeping the
//!   materializer needs, and
//! - a streaming materializer that folds the ordered result rows back into
//!   nested entity trees.
//!
//! Connection handling and statement execution are left to a thin unverified
//! shell around the library.

pub mod collector;
pub mod entity;
pub mod laws;
pub mod mutation;
pub mod query;
pub mod schema;
pub mod values;
