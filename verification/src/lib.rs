//! Fetches external resources (git repositories and zip-packaged libraries)
//! into a local workspace.
//!
//! The library contains the verified core of the tool: a scoped
//! path-navigation guard ([`util::CdManager`]), zip-entry name sanitization
//! and unpack planning ([`util::unzip`]), the resource-selection and
//! pre-flight rules ([`get::Get`]), and the aggregation of failures from
//! concurrently run jobs ([`error::MultiError`]). All filesystem, network and
//! terminal work is driven by an unverified front end that executes the plans
//! this library computes.

pub mod constants;
pub mod error;
pub mod get;
pub mod util;
