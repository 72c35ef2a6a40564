use vstd::prelude::*;

verus! {

/// Mathematical model of a data type declared by a SPIR-V module.
pub enum DType {
    Array { element_type: Box<DType>, count: usize },
    Struct { members: Seq<DType> },

    Float,
    Vec2,
    Vec3,
    Vec4,
    Mat2,
    Mat3,
    Mat4,

    Double,
    DVec2,
    DVec3,
    DVec4,
    DMat2,
    DMat3,
    DMat4,

    Int,
    IVec2,
    IVec3,
    IVec4,
    IMat2,
    IMat3,
    IMat4,

    UInt,
    UVec2,
    UVec3,
    UVec4,
    UMat2,
    UMat3,
    UMat4,
}

/// A data type declared by a SPIR-V module.
#[derive(Debug)]
pub enum DataType {
    Array { element_type: Box<DataType>, count: usize },
    Struct { members: Vec<DataType> },

    Float,
    Vec2,
    Vec3,
    Vec4,
    Mat2,
    Mat3,
    Mat4,

    Double,
    DVec2,
    DVec3,
    DVec4,
    DMat2,
    DMat3,
    DMat4,

    Int,
    IVec2,
    IVec3,
    IVec4,
    IMat2,
    IMat3,
    IMat4,

    UInt,
    UVec2,
    UVec3,
    UVec4,
    UMat2,
    UMat3,
    UMat4,
}

impl View for DataType {
    type V = DType;

    open spec fn view(&self) -> DType
        decreases self,
    {
        match self {
            DataType::Array { element_type, count } => DType::Array {
                element_type: Box::new((**element_type).view()),
                count: *count,
            },
            DataType::Struct { members } => DType::Struct {
                members: Seq::new(
                    members.len() as nat,
                    |i: int|
                        if 0 <= i < members.len() {
                            proof {
                                vstd::std_specs::vec::axiom_vec_index_decreases(*members, i);
                            }
                            members[i].view()
                        } else {
                            DType::Float
                        },
                ),
            },
            DataType::Float => DType::Float,
            DataType::Vec2 => DType::Vec2,
            DataType::Vec3 => DType::Vec3,
            DataType::Vec4 => DType::Vec4,
            DataType::Mat2 => DType::Mat2,
            DataType::Mat3 => DType::Mat3,
            DataType::Mat4 => DType::Mat4,
            DataType::Double => DType::Double,
            DataType::DVec2 => DType::DVec2,
            DataType::DVec3 => DType::DVec3,
            DataType::DVec4 => DType::DVec4,
            DataType::DMat2 => DType::DMat2,
            DataType::DMat3 => DType::DMat3,
            DataType::DMat4 => DType::DMat4,
            DataType::Int => DType::Int,
            DataType::IVec2 => DType::IVec2,
            DataType::IVec3 => DType::IVec3,
            DataType::IVec4 => DType::IVec4,
            DataType::IMat2 => DType::IMat2,
            DataType::IMat3 => DType::IMat3,
            DataType::IMat4 => DType::IMat4,
            DataType::UInt => DType::UInt,
            DataType::UVec2 => DType::UVec2,
            DataType::UVec3 => DType::UVec3,
            DataType::UVec4 => DType::UVec4,
            DataType::UMat2 => DType::UMat2,
            DataType::UMat3 => DType::UMat3,
            DataType::UMat4 => DType::UMat4,
        }
    }
}

impl DataType {
    /// Returns a copy of the data type.
    pub fn duplicate(&self) -> (r: DataType)
        ensures
            r@ == self@,
        decreases self,
    {
        match self {
            DataType::Array { element_type, count } => DataType::Array {
                element_type: Box::new(element_type.duplicate()),
                count: *count,
            },
            DataType::Struct { members } => {
                let mut out: Vec<DataType> = Vec::new();
                let mut i: usize = 0;
                while i < members.len()
                    invariant
                        i <= members.len(),
                        *self == (DataType::Struct { members: *members }),
                        out.len() == i,
                        forall|j: int| 0 <= j < i ==> out[j]@ == members[j]@,
                    decreases members.len() - i,
                {
                    proof {
                        vstd::std_specs::vec::axiom_vec_index_decreases(*members, i as int);
                        assert(decreases_to!(*self => self->members));
                        assert(self->members == *members);
                        assert(decreases_to!(*self => members[i as int]));
                    }
                    out.push(members[i].duplicate());
                    i = i + 1;
                }
                let r = DataType::Struct { members: out };
                assert(r@ == self@) by {
                    if let DType::Struct { members: rm } = r@ {
                        if let DType::Struct { members: sm } = self@ {
                            assert(rm =~= sm);
                        }
                    }
                }
                r
            },
            DataType::Float => DataType::Float,
            DataType::Vec2 => DataType::Vec2,
            DataType::Vec3 => DataType::Vec3,
            DataType::Vec4 => DataType::Vec4,
            DataType::Mat2 => DataType::Mat2,
            DataType::Mat3 => DataType::Mat3,
            DataType::Mat4 => DataType::Mat4,
            DataType::Double => DataType::Double,
            DataType::DVec2 => DataType::DVec2,
            DataType::DVec3 => DataType::DVec3,
            DataType::DVec4 => DataType::DVec4,
            DataType::DMat2 => DataType::DMat2,
            DataType::DMat3 => DataType::DMat3,
            DataType::DMat4 => DataType::DMat4,
            DataType::Int => DataType::Int,
            DataType::IVec2 => DataType::IVec2,
            DataType::IVec3 => DataType::IVec3,
            DataType::IVec4 => DataType::IVec4,
            DataType::IMat2 => DataType::IMat2,
            DataType::IMat3 => DataType::IMat3,
            DataType::IMat4 => DataType::IMat4,
            DataType::UInt => DataType::UInt,
            DataType::UVec2 => DataType::UVec2,
            DataType::UVec3 => DataType::UVec3,
            DataType::UVec4 => DataType::UVec4,
            DataType::UMat2 => DataType::UMat2,
            DataType::UMat3 => DataType::UMat3,
            DataType::UMat4 => DataType::UMat4,
        }
    }
}

impl Clone for DataType {
    fn clone(&self) -> (r: DataType)
        ensures
            r@ == self@,
    {
        self.duplicate()
    }
}

} // verus!
