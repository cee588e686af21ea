//! Deterministic corpora, scripted sources and synthetic processors.

pub mod benchmark;
pub mod corpus;
pub mod digests;
pub mod events;
pub mod fixtures;
pub mod manifest;
pub mod processors;
pub mod reducer;
pub mod scripts;
pub mod selection;
pub mod sources;
