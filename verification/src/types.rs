//! Runtime value types and function signatures as the specification tables
//! and the ABI see them.

use vstd::prelude::*;

use crate::ids::VirValueId;
use crate::memory::VirMemoryAccess;

verus! {

/// Type of one runtime SSA value.
#[derive(Clone, Copy, Debug, PartialEq, Eq, Hash, Structural)]
pub enum VirType {
    U64,
    Bool,
    Permission,
    Pointer { access: VirMemoryAccess },
}

/// One SSA value declaration: its identifier and type.
#[derive(Clone, Copy, Debug, PartialEq, Eq, Hash, Structural)]
pub struct VirValue {
    pub id: VirValueId,
    pub ty: VirType,
}

/// Flattened runtime parameter and result types of one function.
#[derive(Clone, Debug, PartialEq, Eq, Hash)]
pub struct VirSignature {
    pub parameters: Vec<VirType>,
    pub results: Vec<VirType>,
}

impl VirSignature {
    /// An independent copy of the signature.
    pub fn copy(&self) -> (r: Self)
        ensures
            r.parameters@ == self.parameters@,
            r.results@ == self.results@,
    {
        VirSignature { parameters: copy_types(&self.parameters), results: copy_types(&self.results) }
    }
}

fn copy_types(v: &Vec<VirType>) -> (r: Vec<VirType>)
    ensures
        r@ == v@,
{
    let mut out: Vec<VirType> = Vec::new();
    let mut i: usize = 0;
    while i < v.len()
        invariant
            0 <= i <= v.len(),
            out@ == v@.take(i as int),
        decreases v.len() - i,
    {
        out.push(v[i]);
        assert(v@.take(i + 1) == v@.take(i as int).push(v@[i as int]));
        i = i + 1;
    }
    assert(v@.take(v.len() as int) == v@);
    out
}

} // verus!
