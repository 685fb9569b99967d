//! Schema compiler and columnar row builder for tree-shaped record types.
//!
//! A [`types::TypeRegistry`] holds record type definitions (robotics message
//! types): named, ordered lists of typed fields. The schema compiler
//! ([`schema`]) derives from a registered type a columnar schema in one of
//! two projections — structure-preserving ("nested") or analytics-friendly
//! ("flattened"), with an optional trailing whole-record column — and a
//! [`builder::RowBuilder`] accumulates record instances ([`value`]) into
//! in-memory columnar arrays ([`column`]) whose layout matches the compiled
//! schema exactly.

#![verifier::loop_isolation(false)]

use vstd::prelude::*;

pub mod builder;
pub mod column;
pub mod schema;
pub mod types;
pub mod value;

verus! {

} // verus!
