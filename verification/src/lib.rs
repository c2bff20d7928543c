//! Dependency-aware deployment orchestration for a catalog of
//! interdependent infrastructure products.
//!
//! The crate holds the planning and validation engine, the cross-product
//! parameter resolver, the reconciliation of the bootstrap resources and
//! the provisioning lifecycle, all as functions that decide and compute.
//! Everything that touches the network or the file system is left to the
//! program that embeds the crate: it finds out what exists, hands the
//! findings in, and carries out the steps that it gets back.
//!
//! - [`names`], [`namemap`], [`text`]: names, their order, and maps that
//!   are kept in name order.
//! - [`config`], [`state`], [`error`]: the desired state, the recorded
//!   state, and the failures.
//! - [`graph`], [`depgraph`], [`deploy`]: cycle check, deployment order
//!   and parameter resolution.
//! - [`lifecycle`]: publish, apply, wait and terminate.
//! - [`aws`]: the bootstrap resources and the connection to the account.
//! - [`jsondoc`]: the JSON documents that are sent along.
//! - [`manage`], [`project`], [`mcp`], [`clock`]: catalog management,
//!   project layout, command lines and time.

pub mod aws;
pub mod clock;
pub mod config;
pub mod depgraph;
pub mod deploy;
pub mod error;
pub mod graph;
pub mod jsondoc;
pub mod lifecycle;
pub mod manage;
pub mod mcp;
pub mod namemap;
pub mod names;
pub mod project;
pub mod state;
pub mod text;
