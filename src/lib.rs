//! Per-process network control: packet verdicts for the interception loop,
//! the policy registry, and the reconciliation of bandwidth caps with the
//! operating system's policy store.
pub mod address;
pub mod capture;
pub mod interception;
pub mod limiter;
pub mod names;
pub mod rate;
pub mod reconciler;
pub mod registry;
pub mod requirements;
pub mod services;
pub mod system;
pub mod text;
