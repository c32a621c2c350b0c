//! Lint registry synchronizer: scans lint declarations, validates them as a
//! registry, renders the derived artifacts, reconciles their managed blocks and
//! applies rename, deprecate, uplift and creation to the registry.

pub mod lint;
pub mod registry;
pub mod render;
pub mod reconcile;
pub mod mutate;
pub mod laws;
pub mod scan;
pub mod order;
