//! Cross-checks a registry of contract addresses, kept as a text document
//! organised by network, against the addresses the contracts report on-chain:
//! the document parser, the fixed plan of on-chain lookups, the reconciliation
//! of each lookup's result and the overall verdict.
pub mod text;
pub mod registry;
pub mod address;
pub mod abi;
pub mod plan;
pub mod reconcile;
pub mod render;
pub mod constants;
