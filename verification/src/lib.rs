//! Read-only access to git commit-graph files: parsing and validation of the
//! binary format, hash lookup through the fan-out table, parent-edge decoding
//! (including octopus merges through the extra-edges list), and composition of
//! split graph chains.  A companion module parses git remote URLs.

pub mod util;

pub mod file;

pub mod graph;

pub mod urls;
