//! A verified columnar query engine: a logical type system, a typed nullable
//! column container (Series), an ordered schema, an equal-length table
//! (DataFrame), a composable expression and column-selector algebra, and a
//! lazy query plan with schema inference and an executing `collect`.

pub mod asof;
pub mod csv;
pub mod dtype;
pub mod error;
pub mod exec;
pub mod expr;
pub mod frame;
pub mod numtext;
pub mod groupby;
pub mod interchange;
pub mod plan;
pub mod schema;
pub mod selector;
pub mod series;
pub mod series_ops;
pub mod unpivot;
pub mod value;

use vstd::prelude::*;

verus! {

/// Smoke check that the error taxonomy is usable from verified code.
pub fn engine_error_roundtrip() -> (r: error::EngineError)
    ensures
        r.kind() == error::ErrorKind::Compute,
{
    error::EngineError::compute("internal failure")
}

} // verus!
