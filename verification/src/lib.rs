//! Discovery and reconciliation of devices connected to a router.
//!
//! The pipeline fetches the router's status page with a bounded retry
//! policy ([`fetch`]), extracts the device identifiers found in the page
//! markup ([`extract`]), and joins them against a persisted table of
//! identifier-to-owner records ([`store`]), producing a deterministically
//! ordered, owner-annotated view ([`reconcile`]). [`webapp`] holds the
//! decision logic of the surrounding web front end.
pub mod extract;
pub mod fetch;
pub mod reconcile;
pub mod store;
pub mod webapp;
