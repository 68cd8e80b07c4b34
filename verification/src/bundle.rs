//! A flow document with the bundle format version it was read as.
use vstd::prelude::*;
use crate::model::{FlowDoc, FlowDocV};

verus! {

#[derive(Debug, Clone, Copy, PartialEq, Eq, Structural)]
pub enum FlowBundleVersion {
    V1,
}

#[derive(Debug)]
pub struct FlowBundle {
    pub version: FlowBundleVersion,
    pub flow: FlowDoc,
}

impl FlowBundle {
    pub fn new(flow: FlowDoc) -> (r: Self)
        ensures
            r.version == FlowBundleVersion::V1,
            r.flow@ == flow@,
    {
        FlowBundle { version: FlowBundleVersion::V1, flow }
    }

    pub fn flow(&self) -> (r: &FlowDoc)
        ensures
            r@ == self.flow@,
    {
        &self.flow
    }

    pub fn into_flow(self) -> (r: FlowDoc)
        ensures
            r@ == self.flow@,
    {
        self.flow
    }
}

} // verus!
