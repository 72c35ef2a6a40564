use vstd::prelude::*;

use crate::enumerations::ExecutionModel;

verus! {

/// A set of pipeline stages, as the bits of Vulkan's `VkShaderStageFlags`.
#[derive(Debug, Clone, Copy, PartialEq, Eq, Structural)]
pub struct ShaderStages {
    pub bits: u32,
}

impl ShaderStages {
    /// No stage.
    pub fn empty() -> (r: ShaderStages)
        ensures
            r.bits == 0,
    {
        ShaderStages { bits: 0 }
    }

    /// The vertex stage.
    pub fn vertex() -> (r: ShaderStages)
        ensures
            r.bits == 0x01,
    {
        ShaderStages { bits: 0x01 }
    }

    /// The fragment stage.
    pub fn fragment() -> (r: ShaderStages)
        ensures
            r.bits == 0x10,
    {
        ShaderStages { bits: 0x10 }
    }

    /// The stages of both sets.
    pub fn union(self, other: ShaderStages) -> (r: ShaderStages)
        ensures
            r.bits == self.bits | other.bits,
    {
        ShaderStages { bits: self.bits | other.bits }
    }
}

/// The kind of a shader the engine accepts.
#[derive(Debug, Clone, Copy, PartialEq, Eq, Structural, PartialOrd, Ord, Hash)]
pub enum ShaderType {
    Vertex,
    Fragment,
}

/// The stage bits of a shader type.
pub open spec fn stage_bits(t: ShaderType) -> u32 {
    match t {
        ShaderType::Vertex => 0x01,
        ShaderType::Fragment => 0x10,
    }
}

/// The shader type of an execution model.
pub open spec fn type_of_model(m: ExecutionModel) -> ShaderType {
    match m {
        ExecutionModel::Vertex => ShaderType::Vertex,
        ExecutionModel::Fragment => ShaderType::Fragment,
    }
}

impl ShaderType {
    /// The stages a shader of this type runs in.
    pub fn to_stages(self) -> (r: ShaderStages)
        ensures
            r.bits == stage_bits(self),
    {
        match self {
            ShaderType::Vertex => ShaderStages::vertex(),
            ShaderType::Fragment => ShaderStages::fragment(),
        }
    }
}

impl From<ExecutionModel> for ShaderType {
    fn from(value: ExecutionModel) -> (r: ShaderType) {
        match value {
            ExecutionModel::Vertex => ShaderType::Vertex,
            ExecutionModel::Fragment => ShaderType::Fragment,
        }
    }
}

impl vstd::std_specs::convert::FromSpecImpl<ExecutionModel> for ShaderType {
    open spec fn obeys_from_spec() -> bool {
        true
    }

    open spec fn from_spec(v: ExecutionModel) -> ShaderType {
        type_of_model(v)
    }
}

} // verus!
