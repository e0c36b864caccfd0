//! Data preparation for a house-price regression model: tabular frames,
//! a train/test split driven by a shuffled row order, projection onto a
//! feature/target schema, flattening into dense row-major matrices, and the
//! shape checks that a boosted-tree trainer needs before it runs.

pub mod frame;
pub mod split;
pub mod matrix;
pub mod schema;
pub mod train;
pub mod pipeline;
