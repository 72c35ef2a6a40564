use vstd::prelude::*;

verus! {

/// Execution models that the interpreter recognises (SPIR-V 3.2.2).
#[derive(Debug, Clone, Copy, PartialEq, Eq, Structural)]
pub enum ExecutionModel {
    Vertex,
    Fragment,
}

/// Storage classes that the interpreter recognises (SPIR-V 3.2.6).
#[derive(Debug, Clone, Copy, PartialEq, Eq, Structural)]
pub enum StorageClass {
    Input,
    Uniform,
    Output,
}

/// Decorations that the interpreter recognises (SPIR-V 3.2.19); every other
/// decoration word is read as `Error`.
#[derive(Debug, Clone, Copy, PartialEq, Eq, Structural)]
pub enum Decoration {
    Error,
    Binding,
    DescriptorSet,
}

/// Instructions that the interpreter recognises; every other opcode is read
/// as `OpNop`.
#[derive(Debug, Clone, Copy, PartialEq, Eq, Structural)]
pub enum Instruction {
    OpNop,
    OpDecorate,
    OpEntryPoint,
    OpTypeInt,
    OpTypeFloat,
    OpTypeVector,
    OpTypeMatrix,
    OpTypeArray,
    OpTypeStruct,
    OpTypePointer,
    OpConstant,
    OpVariable,
}

impl ExecutionModel {
    /// The execution model with the given SPIR-V word, if it is one of the known ones.
    pub open spec fn spec_from_code(code: u32) -> Option<ExecutionModel> {
        if code == 0 {
            Some(ExecutionModel::Vertex)
        } else if code == 4 {
            Some(ExecutionModel::Fragment)
        } else {
            None
        }
    }

    /// Reads an execution model word; only known words are accepted.
    pub fn from_code(code: u32) -> (r: ExecutionModel)
        requires
            Self::spec_from_code(code) is Some,
        ensures
            Self::spec_from_code(code) == Some(r),
    {
        if code == 0 {
            ExecutionModel::Vertex
        } else {
            ExecutionModel::Fragment
        }
    }

    /// The SPIR-V word of the execution model.
    pub open spec fn spec_code(self) -> u32 {
        match self {
            ExecutionModel::Vertex => 0,
            ExecutionModel::Fragment => 4,
        }
    }
}

impl StorageClass {
    /// The storage class with the given SPIR-V word, if it is one of the known ones.
    pub open spec fn spec_from_code(code: u32) -> Option<StorageClass> {
        if code == 1 {
            Some(StorageClass::Input)
        } else if code == 2 {
            Some(StorageClass::Uniform)
        } else if code == 3 {
            Some(StorageClass::Output)
        } else {
            None
        }
    }

    /// Reads a storage class word; only known words are accepted.
    pub fn from_code(code: u32) -> (r: StorageClass)
        requires
            Self::spec_from_code(code) is Some,
        ensures
            Self::spec_from_code(code) == Some(r),
    {
        if code == 1 {
            StorageClass::Input
        } else if code == 2 {
            StorageClass::Uniform
        } else {
            StorageClass::Output
        }
    }

    /// The SPIR-V word of the storage class.
    pub open spec fn spec_code(self) -> u32 {
        match self {
            StorageClass::Input => 1,
            StorageClass::Uniform => 2,
            StorageClass::Output => 3,
        }
    }
}

impl Decoration {
    /// The decoration named by a SPIR-V word.
    pub open spec fn spec_from_code(code: u32) -> Decoration {
        if code == 0x21 {
            Decoration::Binding
        } else if code == 0x22 {
            Decoration::DescriptorSet
        } else {
            Decoration::Error
        }
    }

    /// Reads a decoration word.
    pub fn from_code(code: u32) -> (r: Decoration)
        ensures
            r == Self::spec_from_code(code),
    {
        if code == 0x21 {
            Decoration::Binding
        } else if code == 0x22 {
            Decoration::DescriptorSet
        } else {
            Decoration::Error
        }
    }
}

impl Instruction {
    /// The instruction named by an opcode.
    pub open spec fn spec_from_code(code: u16) -> Instruction {
        if code == 0x47 {
            Instruction::OpDecorate
        } else if code == 0x0F {
            Instruction::OpEntryPoint
        } else if code == 0x15 {
            Instruction::OpTypeInt
        } else if code == 0x16 {
            Instruction::OpTypeFloat
        } else if code == 0x17 {
            Instruction::OpTypeVector
        } else if code == 0x18 {
            Instruction::OpTypeMatrix
        } else if code == 0x1C {
            Instruction::OpTypeArray
        } else if code == 0x1E {
            Instruction::OpTypeStruct
        } else if code == 0x20 {
            Instruction::OpTypePointer
        } else if code == 0x2B {
            Instruction::OpConstant
        } else if code == 0x3B {
            Instruction::OpVariable
        } else {
            Instruction::OpNop
        }
    }

    /// Reads an opcode.
    pub fn from_code(code: u16) -> (r: Instruction)
        ensures
            r == Self::spec_from_code(code),
    {
        if code == 0x47 {
            Instruction::OpDecorate
        } else if code == 0x0F {
            Instruction::OpEntryPoint
        } else if code == 0x15 {
            Instruction::OpTypeInt
        } else if code == 0x16 {
            Instruction::OpTypeFloat
        } else if code == 0x17 {
            Instruction::OpTypeVector
        } else if code == 0x18 {
            Instruction::OpTypeMatrix
        } else if code == 0x1C {
            Instruction::OpTypeArray
        } else if code == 0x1E {
            Instruction::OpTypeStruct
        } else if code == 0x20 {
            Instruction::OpTypePointer
        } else if code == 0x2B {
            Instruction::OpConstant
        } else if code == 0x3B {
            Instruction::OpVariable
        } else {
            Instruction::OpNop
        }
    }
}

} // verus!
