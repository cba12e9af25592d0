//! A federated dataset layer over immutable compressed triple-store files,
//! with the validation and negotiation logic of the protocol server built on
//! top of it.
//!
//! The registry ([`sparql::AggregateHdt`]) maps graph names to backing store
//! files; a snapshot ([`sparql::AggregateHdtSnapshot`]) is an immutable,
//! point-in-time set of loaded stores that answers pattern lookups; the
//! protocol modules hold the update-validation state machine, content
//! negotiation and the streaming buffer that the HTTP front end drives.

pub mod check;
pub mod create;
pub mod errors;
pub mod negotiate;
pub mod query;
pub mod rdf2hdt;
pub mod rdf2nt;
pub mod serve;
pub mod sparql;
pub mod term;
pub mod view;
