//! Structural description of a loop's interface: its blocks, the edges that
//! enter, repeat and leave it, and the values carried around it.

use vstd::prelude::*;

use crate::ids::{VirBlockId, VirValueId};
use crate::types::VirType;

verus! {

/// A source local carried around a loop: its value on entry and at the head.
#[derive(Clone, Copy, Debug, PartialEq, Eq, Structural)]
pub struct VirLoopBinding {
    pub local: u32,
    pub entry: VirValueId,
    pub head: VirValueId,
    pub ty: VirType,
}

/// One control edge: arm 0 is a jump or a true branch, arm 1 a false branch;
/// no target denotes a return.
#[derive(Clone, Copy, Debug, PartialEq, Eq, Structural)]
pub struct VirLoopEdge {
    pub source: VirBlockId,
    pub arm: u8,
    pub target: Option<VirBlockId>,
}

/// The blocks and edges of one loop.
#[derive(Clone, Debug, PartialEq, Eq)]
pub struct VirLoopBoundary {
    pub loop_id: u32,
    pub preheader: VirBlockId,
    pub header: VirBlockId,
    pub condition: VirBlockId,
    pub latch: Option<VirBlockId>,
    pub blocks: Vec<VirBlockId>,
    pub entries: Vec<VirLoopEdge>,
    pub back_edges: Vec<VirLoopEdge>,
    pub exits: Vec<VirLoopEdge>,
    pub bindings: Vec<VirLoopBinding>,
}

} // verus!
