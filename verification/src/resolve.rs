//! Failures while binding validated VIR calls to their targets.

use vstd::prelude::*;

use crate::ids::{ByteSpan, VirBlockId, VirFunctionId};

verus! {

/// Machine-readable call-resolution failures, each naming the symbol.
#[derive(Clone, Debug, PartialEq, Eq)]
pub enum VirResolutionErrorKind {
    DuplicateFunctionSymbol(String),
    UnsupportedExternalCall(String),
    CallSignatureMismatch(String),
    CallContractMismatch(String),
    CallAbiMismatch(String),
}

/// A deterministic failure while binding validated VIR calls: what failed,
/// in which function and block, at which source span.
#[derive(Clone, Debug, PartialEq, Eq)]
pub struct VirResolutionError {
    kind: VirResolutionErrorKind,
    function: VirFunctionId,
    block: Option<VirBlockId>,
    source_span: ByteSpan,
}

impl VirResolutionError {
    pub closed spec fn spec_kind(&self) -> VirResolutionErrorKind {
        self.kind
    }

    pub closed spec fn spec_function(&self) -> VirFunctionId {
        self.function
    }

    pub closed spec fn spec_block(&self) -> Option<VirBlockId> {
        self.block
    }

    pub closed spec fn spec_source_span(&self) -> ByteSpan {
        self.source_span
    }

    /// A failure in `function`, at `block` when it concerns one call site.
    pub fn new(kind: VirResolutionErrorKind, function: VirFunctionId, block: Option<VirBlockId>, source_span: ByteSpan) -> (r: Self)
        ensures
            r.spec_kind() == kind,
            r.spec_function() == function,
            r.spec_block() == block,
            r.spec_source_span() == source_span,
    {
        VirResolutionError { kind, function, block, source_span }
    }

    pub fn kind(&self) -> (r: &VirResolutionErrorKind)
        ensures
            *r == self.spec_kind(),
    {
        &self.kind
    }

    pub fn function(&self) -> (r: VirFunctionId)
        ensures
            r == self.spec_function(),
    {
        self.function
    }

    pub fn block(&self) -> (r: Option<VirBlockId>)
        ensures
            r == self.spec_block(),
    {
        self.block
    }

    pub fn source_span(&self) -> (r: ByteSpan)
        ensures
            r == self.spec_source_span(),
    {
        self.source_span
    }
}

} // verus!
