//! Segment lookup for a SponsorBlock mirror: request validation, the
//! selection of database rows, the grouping of overlapping submissions into
//! one best segment per overlap cluster, and the surrounding service rules.

pub mod model;
pub mod text;
pub mod outside;
pub mod request;
pub mod overlap;
pub mod skip;
pub mod order;
pub mod properties;
pub mod cors;
pub mod mirror;
