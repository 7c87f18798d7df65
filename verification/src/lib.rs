//! An in-memory registry of decision records: questions tagged for
//! categorization, enriched with context and candidate options, and resolved
//! by a single write-once decision.
//!
//! Callers register tags first; a standalone `Question` is then admitted
//! through the `Registry`, which checks that every tag the question
//! references is registered before inserting it under its identifier. All
//! later mutation (growing the context and option sets, attaching the one
//! decision) is routed through the registry by the identifier's string
//! rendering.

pub mod errors;
pub mod ident;
pub mod question;
pub mod registry;
pub mod strset;
