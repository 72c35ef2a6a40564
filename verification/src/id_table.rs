use vstd::prelude::*;

use crate::data_type::{DType, DataType};
use crate::enumerations::{Decoration, Instruction, StorageClass};

verus! {

/// A numeric constant declared by `OpConstant`; floating-point constants are
/// kept as their raw words.
#[derive(Debug, Clone, Copy, PartialEq, Eq, Structural)]
pub enum Constant {
    Float(u32),
    Double(u32, u32),
    Int(i32),
    UInt(u32),
}

/// The `set` and `binding` decorations collected for one id.
#[derive(Debug, Clone, Copy, PartialEq, Eq, Structural)]
pub struct Decorations {
    pub set: Option<u32>,
    pub binding: Option<u32>,
}

/// Mathematical model of what the interpreter knows about one id.
pub enum SpecId {
    Error,
    DataType(DType),
    Pointer(DType, StorageClass),
    Constant(Constant),
    Variable(DType, StorageClass),
}

/// What the interpreter knows about one id of a module.
#[derive(Debug)]
pub enum IdValue {
    Error,
    DataType(DataType),
    Pointer(DataType, StorageClass),
    Constant(Constant),
    Variable(DataType, StorageClass),
}

impl View for IdValue {
    type V = SpecId;

    open spec fn view(&self) -> SpecId {
        match self {
            IdValue::Error => SpecId::Error,
            IdValue::DataType(d) => SpecId::DataType(d@),
            IdValue::Pointer(d, c) => SpecId::Pointer(d@, *c),
            IdValue::Constant(c) => SpecId::Constant(*c),
            IdValue::Variable(d, c) => SpecId::Variable(d@, *c),
        }
    }
}

/// The model of an optional table entry.
pub open spec fn entry_view(e: Option<IdValue>) -> Option<SpecId> {
    match e {
        Some(v) => Some(v@),
        None => None,
    }
}

/// The model of a whole id table.
pub open spec fn table_view(t: Seq<Option<IdValue>>) -> Seq<Option<SpecId>> {
    Seq::new(t.len(), |i: int| entry_view(t[i]))
}

/// The state of the interpreter after a prefix of the instruction stream:
/// one entry per id below the module's bound.
pub struct TableState {
    pub ids: Seq<Option<SpecId>>,
    pub decorations: Seq<Option<Decorations>>,
}

/// Number of words of the instruction that starts with `first`.
pub open spec fn spec_word_count(first: u32) -> u16 {
    (first >> 16) as u16
}

/// Opcode of the instruction that starts with `first`, as the interpreter reads it.
pub open spec fn spec_opcode(first: u32) -> u16 {
    (0x00FF & first) as u16
}

/// The instruction that starts at word `p`.
pub open spec fn instruction_at(s: Seq<u32>, p: int) -> Instruction {
    Instruction::spec_from_code(spec_opcode(s[p]))
}

/// The declared type `OpTypeInt` with the given width and signedness words yields.
pub open spec fn int_type(width: u32, signedness: u32) -> SpecId {
    if width == 32 {
        if signedness != 0 {
            SpecId::DataType(DType::Int)
        } else {
            SpecId::DataType(DType::UInt)
        }
    } else {
        SpecId::Error
    }
}

/// The declared type `OpTypeFloat` with the given width yields.
pub open spec fn float_type(width: u32) -> SpecId {
    if width == 32 {
        SpecId::DataType(DType::Float)
    } else if width == 64 {
        SpecId::DataType(DType::Double)
    } else {
        SpecId::Error
    }
}

/// The vector type with `n` components of the scalar `d`, if there is one.
pub open spec fn vector_kind(d: DType, n: u32) -> Option<DType> {
    match d {
        DType::Float => if n == 2 { Some(DType::Vec2) } else if n == 3 { Some(DType::Vec3) } else if n == 4 { Some(DType::Vec4) } else { None },
        DType::Double => if n == 2 { Some(DType::DVec2) } else if n == 3 { Some(DType::DVec3) } else if n == 4 { Some(DType::DVec4) } else { None },
        DType::Int => if n == 2 { Some(DType::IVec2) } else if n == 3 { Some(DType::IVec3) } else if n == 4 { Some(DType::IVec4) } else { None },
        DType::UInt => if n == 2 { Some(DType::UVec2) } else if n == 3 { Some(DType::UVec3) } else if n == 4 { Some(DType::UVec4) } else { None },
        _ => None,
    }
}

/// The square matrix type with `n` columns of the vector `d`, if there is one.
pub open spec fn matrix_kind(d: DType, n: u32) -> Option<DType> {
    match d {
        DType::Vec2 => if n == 2 { Some(DType::Mat2) } else { None },
        DType::Vec3 => if n == 3 { Some(DType::Mat3) } else { None },
        DType::Vec4 => if n == 4 { Some(DType::Mat4) } else { None },
        DType::DVec2 => if n == 2 { Some(DType::DMat2) } else { None },
        DType::DVec3 => if n == 3 { Some(DType::DMat3) } else { None },
        DType::DVec4 => if n == 4 { Some(DType::DMat4) } else { None },
        DType::IVec2 => if n == 2 { Some(DType::IMat2) } else { None },
        DType::IVec3 => if n == 3 { Some(DType::IMat3) } else { None },
        DType::IVec4 => if n == 4 { Some(DType::IMat4) } else { None },
        DType::UVec2 => if n == 2 { Some(DType::UMat2) } else { None },
        DType::UVec3 => if n == 3 { Some(DType::UMat3) } else { None },
        DType::UVec4 => if n == 4 { Some(DType::UMat4) } else { None },
        _ => None,
    }
}

/// Whether a data type is one of the four scalar kinds.
pub open spec fn is_scalar(d: DType) -> bool {
    d == DType::Float || d == DType::Double || d == DType::Int || d == DType::UInt
}

/// The number of components of a vector type; 0 for any other type.
pub open spec fn vector_components(d: DType) -> int {
    match d {
        DType::Vec2 | DType::DVec2 | DType::IVec2 | DType::UVec2 => 2,
        DType::Vec3 | DType::DVec3 | DType::IVec3 | DType::UVec3 => 3,
        DType::Vec4 | DType::DVec4 | DType::IVec4 | DType::UVec4 => 4,
        _ => 0,
    }
}

/// The number of columns (equal to the number of rows) of a square matrix
/// type; 0 for any other type.
pub open spec fn matrix_order(d: DType) -> int {
    match d {
        DType::Mat2 | DType::DMat2 | DType::IMat2 | DType::UMat2 => 2,
        DType::Mat3 | DType::DMat3 | DType::IMat3 | DType::UMat3 => 3,
        DType::Mat4 | DType::DMat4 | DType::IMat4 | DType::UMat4 => 4,
        _ => 0,
    }
}

/// The scalar kind of the components of a scalar, vector or matrix type.
pub open spec fn scalar_kind(d: DType) -> DType {
    match d {
        DType::Vec2 | DType::Vec3 | DType::Vec4 | DType::Mat2 | DType::Mat3 | DType::Mat4 => DType::Float,
        DType::DVec2 | DType::DVec3 | DType::DVec4 | DType::DMat2 | DType::DMat3 | DType::DMat4 => DType::Double,
        DType::IVec2 | DType::IVec3 | DType::IVec4 | DType::IMat2 | DType::IMat3 | DType::IMat4 => DType::Int,
        DType::UVec2 | DType::UVec3 | DType::UVec4 | DType::UMat2 | DType::UMat3 | DType::UMat4 => DType::UInt,
        _ => d,
    }
}

/// `OpTypeVector` over a scalar with 2, 3 or 4 components declares the vector
/// of exactly that many components of that scalar; over anything else it
/// declares no type.
pub proof fn lemma_vector_type_shape(component: Option<SpecId>, n: u32)
    ensures
        vector_type(component, n) matches SpecId::DataType(v) ==> {
            &&& is_scalar(data_type_of(component))
            &&& is_data_type(component)
            &&& vector_components(v) == n
            &&& scalar_kind(v) == data_type_of(component)
        },
        is_data_type(component) && is_scalar(data_type_of(component)) && 2 <= n <= 4 ==> vector_type(component, n) is DataType,
        !(is_data_type(component) && is_scalar(data_type_of(component)) && 2 <= n <= 4) ==> vector_type(component, n) == SpecId::Error,
{
}

/// `OpTypeMatrix` with `n` columns of an `n`-component vector declares the
/// `n` by `n` matrix of that vector's scalar; otherwise it declares no type.
pub proof fn lemma_matrix_type_shape(column: Option<SpecId>, n: u32)
    ensures
        matrix_type(column, n) matches SpecId::DataType(m) ==> {
            &&& is_data_type(column)
            &&& vector_components(data_type_of(column)) == n
            &&& matrix_order(m) == n
            &&& scalar_kind(m) == scalar_kind(data_type_of(column))
        },
        is_data_type(column) && vector_components(data_type_of(column)) == n && 2 <= n ==> matrix_type(column, n) is DataType,
        !(is_data_type(column) && vector_components(data_type_of(column)) == n && 2 <= n) ==> matrix_type(column, n) == SpecId::Error,
{
    if let Some(SpecId::DataType(d)) = column {
        match d {
            DType::Vec2 | DType::DVec2 | DType::IVec2 | DType::UVec2 => {},
            DType::Vec3 | DType::DVec3 | DType::IVec3 | DType::UVec3 => {},
            DType::Vec4 | DType::DVec4 | DType::IVec4 | DType::UVec4 => {},
            _ => {},
        }
    }
}

/// The declared type `OpTypeVector` yields for a component entry and a count.
pub open spec fn vector_type(component: Option<SpecId>, n: u32) -> SpecId {
    match component {
        Some(SpecId::DataType(d)) => match vector_kind(d, n) {
            Some(v) => SpecId::DataType(v),
            None => SpecId::Error,
        },
        _ => SpecId::Error,
    }
}

/// The declared type `OpTypeMatrix` yields for a column entry and a count.
pub open spec fn matrix_type(column: Option<SpecId>, n: u32) -> SpecId {
    match column {
        Some(SpecId::DataType(d)) => match matrix_kind(d, n) {
            Some(v) => SpecId::DataType(v),
            None => SpecId::Error,
        },
        _ => SpecId::Error,
    }
}

/// The length an array-length entry stands for, if it is an integer constant.
pub open spec fn array_length(e: Option<SpecId>) -> Option<usize> {
    match e {
        Some(SpecId::Constant(Constant::Int(l))) => Some(l as usize),
        Some(SpecId::Constant(Constant::UInt(l))) => Some(l as usize),
        _ => None,
    }
}

/// The declared type `OpTypeArray` yields for an element entry and a length entry.
pub open spec fn array_type(element: Option<SpecId>, length: Option<SpecId>) -> SpecId {
    match element {
        Some(SpecId::DataType(d)) => match array_length(length) {
            Some(n) => SpecId::DataType(DType::Array { element_type: Box::new(d), count: n }),
            None => SpecId::Error,
        },
        _ => SpecId::Error,
    }
}

/// Whether an entry holds a data type.
pub open spec fn is_data_type(e: Option<SpecId>) -> bool {
    e matches Some(SpecId::DataType(_))
}

/// The data type an entry holds (meaningful only where `is_data_type`).
pub open spec fn data_type_of(e: Option<SpecId>) -> DType {
    match e {
        Some(SpecId::DataType(d)) => d,
        _ => DType::Float,
    }
}

/// Whether every member id `s[p + k]`, `from <= k < to`, is below the bound.
pub open spec fn members_in_bound(s: Seq<u32>, p: int, from: int, to: int, bound: int) -> bool {
    forall|k: int| from <= k < to ==> #[trigger] s[p + k] < bound
}

/// The declared type `OpTypeStruct` yields for the member ids `s[p + 2 .. p + wc]`.
pub open spec fn struct_type(ids: Seq<Option<SpecId>>, s: Seq<u32>, p: int, wc: int) -> SpecId {
    if forall|k: int| 2 <= k < wc ==> is_data_type(#[trigger] ids[s[p + k] as int]) {
        SpecId::DataType(DType::Struct {
            members: Seq::new((wc - 2) as nat, |k: int| data_type_of(ids[s[p + 2 + k] as int])),
        })
    } else {
        SpecId::Error
    }
}

/// The constant `OpConstant` declares, for its result-type entry; `None` where
/// the interpreter would read past the instruction.
pub open spec fn constant_value(ty: Option<SpecId>, s: Seq<u32>, p: int, wc: int) -> Option<SpecId> {
    match ty {
        Some(SpecId::DataType(DType::Float)) => if wc >= 4 { Some(SpecId::Constant(Constant::Float(s[p + 3]))) } else { None },
        Some(SpecId::DataType(DType::Double)) => if wc >= 5 { Some(SpecId::Constant(Constant::Double(s[p + 3], s[p + 4]))) } else { None },
        Some(SpecId::DataType(DType::Int)) => if wc >= 4 { Some(SpecId::Constant(Constant::Int(s[p + 3] as i32))) } else { None },
        Some(SpecId::DataType(DType::UInt)) => if wc >= 4 { Some(SpecId::Constant(Constant::UInt(s[p + 3]))) } else { None },
        _ => Some(SpecId::Error),
    }
}

/// The entry `OpTypePointer` yields; `None` where the storage class is unknown.
pub open spec fn pointer_value(pointee: Option<SpecId>, class_word: u32) -> Option<SpecId> {
    match pointee {
        Some(SpecId::DataType(d)) => match StorageClass::spec_from_code(class_word) {
            Some(c) => Some(SpecId::Pointer(d, c)),
            None => None,
        },
        _ => Some(SpecId::Error),
    }
}

/// The entry `OpVariable` yields; `None` where the storage class is unknown
/// or missing.
pub open spec fn variable_value(pointer: Option<SpecId>, s: Seq<u32>, p: int, wc: int) -> Option<SpecId> {
    match pointer {
        Some(SpecId::Pointer(d, c)) => if wc < 4 {
            None
        } else {
            match StorageClass::spec_from_code(s[p + 3]) {
                Some(c2) => if c != c2 { Some(SpecId::Error) } else { Some(SpecId::Variable(d, c)) },
                None => None,
            }
        },
        _ => Some(SpecId::Error),
    }
}

/// The decorations of an id after one `OpDecorate`; `None` where the
/// interpreter would read past the instruction.
pub open spec fn decorate(cur: Option<Decorations>, s: Seq<u32>, p: int, wc: int) -> Option<Decorations> {
    let d = match cur {
        Some(d) => d,
        None => Decorations { set: None, binding: None },
    };
    match Decoration::spec_from_code(s[p + 2]) {
        Decoration::Binding => if wc >= 4 { Some(Decorations { binding: Some(s[p + 3]), ..d }) } else { None },
        Decoration::DescriptorSet => if wc >= 4 { Some(Decorations { set: Some(s[p + 3]), ..d }) } else { None },
        Decoration::Error => Some(d),
    }
}

/// Sets one id's entry.
pub open spec fn with_id(st: TableState, id: u32, v: SpecId) -> TableState {
    TableState { ids: st.ids.update(id as int, Some(v)), decorations: st.decorations }
}

/// The effect of the instruction of `wc` words at `p` on the state, or `None`
/// where the interpreter would fail on it (an operand missing, an id not
/// below the bound, or an unknown storage class).  With `types_only`, only the
/// type declarations that the earlier debugging walk knows are applied.
pub open spec fn step(s: Seq<u32>, p: int, wc: int, st: TableState, types_only: bool) -> Option<TableState> {
    let bound = st.ids.len();
    match instruction_at(s, p) {
        Instruction::OpDecorate => if types_only {
            Some(st)
        } else if wc < 3 || s[p + 1] >= bound {
            None
        } else {
            match decorate(st.decorations[s[p + 1] as int], s, p, wc) {
                Some(d) => Some(TableState { ids: st.ids, decorations: st.decorations.update(s[p + 1] as int, Some(d)) }),
                None => None,
            }
        },
        Instruction::OpTypeInt => if wc < 4 || s[p + 1] >= bound {
            None
        } else {
            Some(with_id(st, s[p + 1], int_type(s[p + 2], s[p + 3])))
        },
        Instruction::OpTypeFloat => if wc < 3 || s[p + 1] >= bound {
            None
        } else {
            Some(with_id(st, s[p + 1], float_type(s[p + 2])))
        },
        Instruction::OpTypeVector => if wc < 4 || s[p + 1] >= bound || s[p + 2] >= bound {
            None
        } else {
            Some(with_id(st, s[p + 1], vector_type(st.ids[s[p + 2] as int], s[p + 3])))
        },
        Instruction::OpTypeMatrix => if wc < 4 || s[p + 1] >= bound || s[p + 2] >= bound {
            None
        } else {
            Some(with_id(st, s[p + 1], matrix_type(st.ids[s[p + 2] as int], s[p + 3])))
        },
        Instruction::OpTypeArray => if types_only {
            Some(st)
        } else if wc < 4 || s[p + 1] >= bound || s[p + 2] >= bound || s[p + 3] >= bound {
            None
        } else {
            Some(with_id(st, s[p + 1], array_type(st.ids[s[p + 2] as int], st.ids[s[p + 3] as int])))
        },
        Instruction::OpTypeStruct => if wc < 2 || s[p + 1] >= bound || !members_in_bound(s, p, 2, wc, bound as int) {
            None
        } else {
            Some(with_id(st, s[p + 1], struct_type(st.ids, s, p, wc)))
        },
        Instruction::OpTypePointer => if types_only {
            Some(st)
        } else if wc < 4 || s[p + 1] >= bound || s[p + 3] >= bound {
            None
        } else {
            match pointer_value(st.ids[s[p + 3] as int], s[p + 2]) {
                Some(v) => Some(with_id(st, s[p + 1], v)),
                None => None,
            }
        },
        Instruction::OpConstant => if types_only {
            Some(st)
        } else if wc < 3 || s[p + 1] >= bound || s[p + 2] >= bound {
            None
        } else {
            match constant_value(st.ids[s[p + 1] as int], s, p, wc) {
                Some(v) => Some(with_id(st, s[p + 2], v)),
                None => None,
            }
        },
        Instruction::OpVariable => if types_only {
            Some(st)
        } else if wc < 3 || s[p + 1] >= bound || s[p + 2] >= bound {
            None
        } else {
            match variable_value(st.ids[s[p + 1] as int], s, p, wc) {
                Some(v) => Some(with_id(st, s[p + 2], v)),
                None => None,
            }
        },
        Instruction::OpNop => Some(st),
        Instruction::OpEntryPoint => Some(st),
    }
}

/// The state after running the instructions from word `p` to the end of the
/// module, or `None` where the walk fails: an instruction of zero words (on
/// which the walk would never end), one that runs past the end, or a `step`
/// that fails.
pub open spec fn run(s: Seq<u32>, p: int, st: TableState, types_only: bool) -> Option<TableState>
    decreases s.len() - p,
{
    if p == s.len() {
        Some(st)
    } else if p > s.len() || p < 0 {
        None
    } else {
        let wc = spec_word_count(s[p]) as int;
        if wc == 0 || p + wc > s.len() {
            None
        } else {
            match step(s, p, wc, st, types_only) {
                Some(next) => run(s, p + wc, next, types_only),
                None => None,
            }
        }
    }
}

/// The empty state for a module with the given id bound.
pub open spec fn initial_state(bound: u32) -> TableState {
    TableState {
        ids: Seq::new(bound as nat, |i: int| None),
        decorations: Seq::new(bound as nat, |i: int| None),
    }
}

/// The state after the whole module (the bound is word 3, the instructions
/// start at word 5), or `None` where the interpreter would fail on it.
pub open spec fn module_state(s: Seq<u32>, types_only: bool) -> Option<TableState> {
    if s.len() < 4 {
        None
    } else {
        run(s, 5, initial_state(s[3]), types_only)
    }
}

} // verus!
