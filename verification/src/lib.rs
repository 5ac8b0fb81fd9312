//! Verified core of the VIR memory, layout, provenance and loan model.
#![allow(unused_imports)]

use vstd::prelude::*;

pub mod ids;
pub mod instruction_checks;
pub mod loan_shadow;
pub mod loops;
pub mod aggregate_abi;
pub mod borrow;
pub mod borrow_formation;
pub mod borrow_result;
pub mod effects;
pub mod byte_range;
pub mod dump;
pub mod memory;
pub mod messages;
pub mod object_shape;
pub mod objects;
pub mod provenance;
pub mod resolve;
pub mod resources;
pub mod runtime;
pub mod scalar_memory;
pub mod semantics;
pub mod slices;
pub mod source_map;
pub mod spec;
pub mod transfer;
pub mod types;

verus! {

} // verus!
