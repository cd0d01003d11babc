//! Reconciliation of a capture's bindings with what its source connector
//! currently reports.
//!
//! A capture pulls documents from the resources of an external source into
//! collections. The source changes over time: resources appear, disappear,
//! and change their schema or key. This library holds the decisions of the
//! periodic reconciliation ("auto-discover"): when a capture is due, how the
//! discovered resources are matched against the live bindings, how an
//! incompatible collection is re-created under a versioned name, how the
//! result of a publication is recorded, and which step follows which.
//!
//! The library performs no I/O. The caller asks the connector, submits the
//! draft, reads the clock, and hands the answers in as plain values. All of
//! the library is verified with Verus; the few calls into `serde_json` are
//! declared in [`json`], and nothing else is taken on trust.
//!
//! The modules, from the leaves up:
//!
//! - [`search`], [`text`], [`order`]: finding the first of a kind, names
//!   and numbers as text, and binding lists in the order of their targets;
//! - [`json`], [`config`]: reading JSON, and resource configurations;
//! - [`model`], [`status`]: the data of a reconciliation, and what is kept
//!   of it from one cycle to the next;
//! - [`identity`]: the identity of a discovered resource;
//! - [`naming`]: names for new and for re-created collections;
//! - [`merge`], with its laws in [`laws`]: the merge of discovered
//!   resources into live bindings;
//! - [`evolution`], [`materialization`]: the re-creation of collections,
//!   and what a materialization makes of it;
//! - [`publication`], [`schedule`]: the words and the verdict of a
//!   publication, and when a capture is due;
//! - [`cycle`], with its invariants in [`invariants`]: one cycle of the
//!   controller as a state machine.

pub mod config;
pub mod cycle;
pub mod evolution;
pub mod identity;
pub mod invariants;
pub mod json;
pub mod laws;
pub mod materialization;
pub mod merge;
pub mod model;
pub mod naming;
pub mod order;
pub mod publication;
pub mod schedule;
pub mod search;
pub mod status;
pub mod text;
