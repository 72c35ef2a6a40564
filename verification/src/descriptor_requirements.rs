use std::collections::HashMap;

use vstd::prelude::*;

use crate::shader_type::{stage_bits, ShaderStages, ShaderType};

verus! {

broadcast use vstd::std_specs::hash::group_hash_axioms;

/// One member of a uniform buffer.
#[derive(Debug, Clone, Copy, PartialEq, Eq, Structural)]
pub enum UniformBufferElement {
    Float,
    Vec2,
    Vec3,
    Vec4,
    Mat2,
    Mat3,
    Mat4,
}

/// The kind of a descriptor and, for a uniform buffer, its members.
#[derive(Debug, Clone)]
pub enum DescriptorType {
    CombinedImageSampler,
    UniformBuffer(Vec<UniformBufferElement>),
}

/// Model of a descriptor type.
pub enum DescriptorTypeView {
    CombinedImageSampler,
    UniformBuffer(Seq<UniformBufferElement>),
}

impl View for DescriptorType {
    type V = DescriptorTypeView;

    open spec fn view(&self) -> DescriptorTypeView {
        match self {
            DescriptorType::CombinedImageSampler => DescriptorTypeView::CombinedImageSampler,
            DescriptorType::UniformBuffer(e) => DescriptorTypeView::UniformBuffer(e@),
        }
    }
}

impl DescriptorType {
    /// Returns a copy of the descriptor type.
    pub fn duplicate(&self) -> (r: DescriptorType)
        ensures
            r@ == self@,
    {
        match self {
            DescriptorType::CombinedImageSampler => DescriptorType::CombinedImageSampler,
            DescriptorType::UniformBuffer(e) => {
                let mut out: Vec<UniformBufferElement> = Vec::new();
                let mut i: usize = 0;
                while i < e.len()
                    invariant
                        i <= e.len(),
                        out@ == e@.take(i as int),
                    decreases e.len() - i,
                {
                    out.push(e[i]);
                    i = i + 1;
                    assert(out@ =~= e@.take(i as int));
                }
                assert(e@.take(e.len() as int) =~= e@);
                DescriptorType::UniformBuffer(out)
            },
        }
    }

    /// Whether two descriptor types are the same.
    pub fn same_as(&self, other: &DescriptorType) -> (r: bool)
        ensures
            r == (self@ == other@),
    {
        match (self, other) {
            (DescriptorType::CombinedImageSampler, DescriptorType::CombinedImageSampler) => true,
            (DescriptorType::UniformBuffer(a), DescriptorType::UniformBuffer(b)) => {
                if a.len() != b.len() {
                    assert(a@.len() != b@.len());
                    return false;
                }
                let mut i: usize = 0;
                while i < a.len()
                    invariant
                        i <= a.len(),
                        a.len() == b.len(),
                        self@ == DescriptorTypeView::UniformBuffer(a@),
                        other@ == DescriptorTypeView::UniformBuffer(b@),
                        forall|j: int| 0 <= j < i ==> a@[j] == b@[j],
                    decreases a.len() - i,
                {
                    if !(a[i] == b[i]) {
                        assert(a@[i as int] != b@[i as int]);
                        return false;
                    }
                    i = i + 1;
                }
                assert(a@ =~= b@);
                true
            },
            _ => false,
        }
    }
}

/// The model of one descriptor: (set, binding), its type, the stages using it.
pub type DescriptorView = ((u32, u32), DescriptorTypeView, ShaderStages);

/// The descriptors that shaders need, each as ((set, binding), type, stages).
#[derive(Debug, Clone)]
pub struct DescriptorRequirements {
    pub descriptors: Vec<((u32, u32), DescriptorType, ShaderStages)>,
}

/// The model of one descriptor.
pub open spec fn descriptor_view(d: ((u32, u32), DescriptorType, ShaderStages)) -> DescriptorView {
    (d.0, d.1@, d.2)
}

/// The model of a list of descriptors.
pub open spec fn descriptors_view(v: Seq<((u32, u32), DescriptorType, ShaderStages)>) -> Seq<DescriptorView> {
    Seq::new(v.len(), |i: int| descriptor_view(v[i]))
}

impl View for DescriptorRequirements {
    type V = Seq<DescriptorView>;

    open spec fn view(&self) -> Seq<DescriptorView> {
        descriptors_view(self.descriptors@)
    }
}

/// The number the descriptors are ordered by: the set in the bits above 16,
/// plus the binding.
pub open spec fn order_key(k: (u32, u32)) -> int {
    k.0 as int * 65536 + k.1 as int
}

/// Descriptors in ascending order of `order_key`.
pub open spec fn ordered(d: Seq<DescriptorView>) -> bool {
    forall|i: int, j: int| #![trigger d[i], d[j]] 0 <= i < j < d.len() ==> order_key(d[i].0) <= order_key(d[j].0)
}

/// The size in bytes of a uniform buffer member.
pub open spec fn element_size(e: UniformBufferElement) -> int {
    match e {
        UniformBufferElement::Float => 4,
        UniformBufferElement::Vec2 => 8,
        UniformBufferElement::Vec3 => 12,
        UniformBufferElement::Vec4 => 16,
        UniformBufferElement::Mat2 => 16,
        UniformBufferElement::Mat3 => 36,
        UniformBufferElement::Mat4 => 64,
    }
}

/// The size in bytes of a list of uniform buffer members.
pub open spec fn buffer_size(u: Seq<UniformBufferElement>) -> int
    decreases u.len(),
{
    if u.len() == 0 {
        0
    } else {
        buffer_size(u.drop_last()) + element_size(u.last())
    }
}

impl UniformBufferElement {
    /// The size in bytes of a uniform buffer with the given members.
    pub fn size(uniforms: &[UniformBufferElement]) -> (r: u32)
        requires
            buffer_size(uniforms@) <= u32::MAX,
        ensures
            r == buffer_size(uniforms@),
    {
        let mut sum: u32 = 0;
        let mut i: usize = 0;
        while i < uniforms.len()
            invariant
                i <= uniforms@.len(),
                buffer_size(uniforms@) <= u32::MAX,
                sum == buffer_size(uniforms@.take(i as int)),
            decreases uniforms@.len() - i,
        {
            proof {
                assert(uniforms@.take(i + 1).drop_last() =~= uniforms@.take(i as int));
                lemma_buffer_size_prefix(uniforms@, i + 1);
            }
            let add: u32 = match uniforms[i] {
                UniformBufferElement::Float => 4,
                UniformBufferElement::Vec2 => 4 * 2,
                UniformBufferElement::Vec3 => 4 * 3,
                UniformBufferElement::Vec4 => 4 * 4,
                UniformBufferElement::Mat2 => 4 * 2 * 2,
                UniformBufferElement::Mat3 => 4 * 3 * 3,
                UniformBufferElement::Mat4 => 4 * 4 * 4,
            };
            sum = sum + add;
            i = i + 1;
        }
        assert(uniforms@.take(uniforms@.len() as int) =~= uniforms@);
        sum
    }
}

/// The size of a prefix is at most the size of the whole.
proof fn lemma_buffer_size_prefix(u: Seq<UniformBufferElement>, n: int)
    requires
        0 <= n <= u.len(),
    ensures
        buffer_size(u.take(n)) <= buffer_size(u),
    decreases u.len() - n,
{
    if n < u.len() {
        lemma_buffer_size_prefix(u, n + 1);
        assert(u.take(n + 1).drop_last() =~= u.take(n));
    } else {
        assert(u.take(n) =~= u);
    }
}

/// The size of two lists of members laid end to end is the sum of their sizes.
pub proof fn lemma_buffer_size_concat(a: Seq<UniformBufferElement>, b: Seq<UniformBufferElement>)
    ensures
        buffer_size(a + b) == buffer_size(a) + buffer_size(b),
    decreases b.len(),
{
    if b.len() > 0 {
        lemma_buffer_size_concat(a, b.drop_last());
        assert((a + b).drop_last() =~= a + b.drop_last());
    } else {
        assert(a + b =~= a);
    }
}


/// The storage classes a variable of the descriptor scan can have.
#[derive(Debug, Clone, Copy, PartialEq, Eq, Structural)]
pub enum StorageClass {
    UniformConstant,
    Input,
    Uniform,
    Output,
}

impl StorageClass {
    /// The storage class with the given SPIR-V word, if it is one of the known ones.
    pub open spec fn spec_from_code(code: u32) -> Option<StorageClass> {
        if code == 0 {
            Some(StorageClass::UniformConstant)
        } else if code == 1 {
            Some(StorageClass::Input)
        } else if code == 2 {
            Some(StorageClass::Uniform)
        } else if code == 3 {
            Some(StorageClass::Output)
        } else {
            None
        }
    }

    fn from_code(code: u32) -> (r: Self)
        requires
            Self::spec_from_code(code) is Some,
        ensures
            Self::spec_from_code(code) == Some(r),
    {
        if code == 0 {
            StorageClass::UniformConstant
        } else if code == 1 {
            StorageClass::Input
        } else if code == 2 {
            StorageClass::Uniform
        } else {
            StorageClass::Output
        }
    }
}

/// The instructions the descriptor scan recognises; every other opcode is
/// read as `OpNop`.
#[derive(Debug, Clone, Copy, PartialEq, Eq, Structural)]
pub enum OpCode {
    OpNop,
    OpDecorate,
    OpTypeVoid,
    OpTypeBool,
    OpTypeInt,
    OpTypeFloat,
    OpTypeVector,
    OpTypeMatrix,
    OpTypeImage,
    OpTypeSampler,
    OpTypeSampledImage,
    OpTypeArray,
    OpTypeRuntimeArray,
    OpTypeStruct,
    OpTypePointer,
    OpTypeFunction,
    OpConstantTrue,
    OpConstantFalse,
    OpConstant,
    OpVariable,
}

impl OpCode {
    /// The instruction named by an opcode.
    pub open spec fn spec_get_op_code(code: u16) -> OpCode {
        if code == 71 { OpCode::OpDecorate }
        else if code == 19 { OpCode::OpTypeVoid }
        else if code == 20 { OpCode::OpTypeBool }
        else if code == 21 { OpCode::OpTypeInt }
        else if code == 22 { OpCode::OpTypeFloat }
        else if code == 23 { OpCode::OpTypeVector }
        else if code == 24 { OpCode::OpTypeMatrix }
        else if code == 25 { OpCode::OpTypeImage }
        else if code == 26 { OpCode::OpTypeSampler }
        else if code == 27 { OpCode::OpTypeSampledImage }
        else if code == 28 { OpCode::OpTypeArray }
        else if code == 29 { OpCode::OpTypeRuntimeArray }
        else if code == 30 { OpCode::OpTypeStruct }
        else if code == 32 { OpCode::OpTypePointer }
        else if code == 33 { OpCode::OpTypeFunction }
        else if code == 41 { OpCode::OpConstantTrue }
        else if code == 42 { OpCode::OpConstantFalse }
        else if code == 43 { OpCode::OpConstant }
        else if code == 59 { OpCode::OpVariable }
        else { OpCode::OpNop }
    }

    fn get_op_code(code: u16) -> (r: Self)
        ensures
            r == Self::spec_get_op_code(code),
    {
        if code == 71 { OpCode::OpDecorate }
        else if code == 19 { OpCode::OpTypeVoid }
        else if code == 20 { OpCode::OpTypeBool }
        else if code == 21 { OpCode::OpTypeInt }
        else if code == 22 { OpCode::OpTypeFloat }
        else if code == 23 { OpCode::OpTypeVector }
        else if code == 24 { OpCode::OpTypeMatrix }
        else if code == 25 { OpCode::OpTypeImage }
        else if code == 26 { OpCode::OpTypeSampler }
        else if code == 27 { OpCode::OpTypeSampledImage }
        else if code == 28 { OpCode::OpTypeArray }
        else if code == 29 { OpCode::OpTypeRuntimeArray }
        else if code == 30 { OpCode::OpTypeStruct }
        else if code == 32 { OpCode::OpTypePointer }
        else if code == 33 { OpCode::OpTypeFunction }
        else if code == 41 { OpCode::OpConstantTrue }
        else if code == 42 { OpCode::OpConstantFalse }
        else if code == 43 { OpCode::OpConstant }
        else if code == 59 { OpCode::OpVariable }
        else { OpCode::OpNop }
    }
}

/// The `set` and `binding` decorations collected for one id.
#[derive(Debug, Clone, Copy, PartialEq, Eq, Structural)]
pub struct DecorationSet {
    pub set: Option<u32>,
    pub binding: Option<u32>,
}

/// The decorations of an id after the `OpDecorate` instruction `ins`, or
/// `None` where the scan would read past the instruction.
pub open spec fn decorated(d: DecorationSet, ins: Seq<u32>) -> Option<DecorationSet> {
    if ins.len() < 3 {
        None
    } else if ins[2] == 33 {
        if ins.len() < 4 { None } else { Some(DecorationSet { binding: Some(ins[3]), ..d }) }
    } else if ins[2] == 34 {
        if ins.len() < 4 { None } else { Some(DecorationSet { set: Some(ins[3]), ..d }) }
    } else {
        Some(d)
    }
}

impl DecorationSet {
    /// No decoration.
    pub open spec fn none() -> DecorationSet {
        DecorationSet { set: None, binding: None }
    }

    /// Records the binding or set that the `OpDecorate` instruction `instruction` gives.
    fn apply_decoration(&mut self, instruction: &[u32])
        requires
            decorated(*old(self), instruction@) is Some,
        ensures
            Some(*final(self)) == decorated(*old(self), instruction@),
    {
        if instruction[2] == 33 {
            self.binding = Some(instruction[3]);
        } else if instruction[2] == 34 {
            self.set = Some(instruction[3]);
        } else {
            return;
        }
    }
}

/// A type declared by the module, as the descriptor scan records it.
#[derive(Debug)]
enum SpirvType {
    Void,
    Bool,
    Int(u32, bool),
    Float(u32),
    Vector(u32, u32),
    Matrix(u32, u32),
    Image,
    Sampler,
    SampledImage(u32),
    Array(u32, u32),
    RuntimeArray(u32),
    Struct(Vec<u32>),
    Pointer(u32),
    Function,
}

/// Model of a declared type.
pub enum SpirvTypeView {
    Void,
    Bool,
    Int(u32, bool),
    Float(u32),
    Vector(u32, u32),
    Matrix(u32, u32),
    Image,
    Sampler,
    SampledImage(u32),
    Array(u32, u32),
    RuntimeArray(u32),
    Struct(Seq<u32>),
    Pointer(u32),
    Function,
}

impl View for SpirvType {
    type V = SpirvTypeView;

    closed spec fn view(&self) -> SpirvTypeView {
        match self {
            SpirvType::Void => SpirvTypeView::Void,
            SpirvType::Bool => SpirvTypeView::Bool,
            SpirvType::Int(w, s) => SpirvTypeView::Int(*w, *s),
            SpirvType::Float(w) => SpirvTypeView::Float(*w),
            SpirvType::Vector(c, n) => SpirvTypeView::Vector(*c, *n),
            SpirvType::Matrix(c, n) => SpirvTypeView::Matrix(*c, *n),
            SpirvType::Image => SpirvTypeView::Image,
            SpirvType::Sampler => SpirvTypeView::Sampler,
            SpirvType::SampledImage(t) => SpirvTypeView::SampledImage(*t),
            SpirvType::Array(t, n) => SpirvTypeView::Array(*t, *n),
            SpirvType::RuntimeArray(t) => SpirvTypeView::RuntimeArray(*t),
            SpirvType::Struct(m) => SpirvTypeView::Struct(m@),
            SpirvType::Pointer(t) => SpirvTypeView::Pointer(*t),
            SpirvType::Function => SpirvTypeView::Function,
        }
    }
}

/// A constant declared by the module, as the descriptor scan records it.
#[derive(Debug)]
enum Constant {
    True,
    False,
    Type(u32, Vec<u32>),
}

/// Model of a declared constant.
pub enum ConstantView {
    True,
    False,
    Type(u32, Seq<u32>),
}

impl View for Constant {
    type V = ConstantView;

    closed spec fn view(&self) -> ConstantView {
        match self {
            Constant::True => ConstantView::True,
            Constant::False => ConstantView::False,
            Constant::Type(t, v) => ConstantView::Type(*t, v@),
        }
    }
}

/// A variable declared by the module.
#[derive(Debug, Clone, Copy, PartialEq, Eq, Structural)]
pub struct Variable {
    pub var_type: u32,
    pub storage_class: StorageClass,
}

/// What the descriptor scan has recorded, by id.
pub struct ScanTables {
    pub decorations: Map<u32, DecorationSet>,
    pub types: Map<u32, SpirvTypeView>,
    pub constants: Map<u32, ConstantView>,
    pub variables: Map<u32, Variable>,
}

/// Number of words of the instruction that starts with `first`, as the scan reads it.
pub open spec fn scan_word_count(first: u32) -> u16 {
    ((0xFFFF0000 & first) >> 16) as u16
}

/// Opcode of the instruction that starts with `first`, as the scan reads it.
pub open spec fn scan_op_code(first: u32) -> u16 {
    (0x0000FFFF & first) as u16
}

/// Records a declared type.
pub open spec fn with_type(t: ScanTables, id: u32, ty: SpirvTypeView) -> ScanTables {
    ScanTables { types: t.types.insert(id, ty), ..t }
}

/// Records a declared constant.
pub open spec fn with_constant(t: ScanTables, id: u32, c: ConstantView) -> ScanTables {
    ScanTables { constants: t.constants.insert(id, c), ..t }
}

/// The effect of the instruction `ins` on the tables, or `None` where the
/// scan would fail on it (an operand missing or an unknown storage class).
pub open spec fn scan_step(ins: Seq<u32>, t: ScanTables) -> Option<ScanTables> {
    let n = ins.len();
    match OpCode::spec_get_op_code(scan_op_code(ins[0])) {
        OpCode::OpNop => Some(t),
        OpCode::OpDecorate => if n < 2 {
            None
        } else {
            let cur = if t.decorations.contains_key(ins[1]) { t.decorations[ins[1]] } else { DecorationSet::none() };
            match decorated(cur, ins) {
                Some(d) => Some(ScanTables { decorations: t.decorations.insert(ins[1], d), ..t }),
                None => None,
            }
        },
        OpCode::OpTypeVoid => if n < 2 { None } else { Some(with_type(t, ins[1], SpirvTypeView::Void)) },
        OpCode::OpTypeBool => if n < 2 { None } else { Some(with_type(t, ins[1], SpirvTypeView::Bool)) },
        OpCode::OpTypeInt => if n < 4 { None } else { Some(with_type(t, ins[1], SpirvTypeView::Int(ins[2], ins[3] == 1))) },
        OpCode::OpTypeFloat => if n < 3 { None } else { Some(with_type(t, ins[1], SpirvTypeView::Float(ins[2]))) },
        OpCode::OpTypeVector => if n < 4 { None } else { Some(with_type(t, ins[1], SpirvTypeView::Vector(ins[2], ins[3]))) },
        OpCode::OpTypeMatrix => if n < 4 { None } else { Some(with_type(t, ins[1], SpirvTypeView::Matrix(ins[2], ins[3]))) },
        OpCode::OpTypeImage => if n < 2 { None } else { Some(with_type(t, ins[1], SpirvTypeView::Image)) },
        OpCode::OpTypeSampler => if n < 2 { None } else { Some(with_type(t, ins[1], SpirvTypeView::Sampler)) },
        OpCode::OpTypeSampledImage => if n < 3 { None } else { Some(with_type(t, ins[1], SpirvTypeView::SampledImage(ins[2]))) },
        OpCode::OpTypeArray => if n < 4 { None } else { Some(with_type(t, ins[1], SpirvTypeView::Array(ins[2], ins[3]))) },
        OpCode::OpTypeRuntimeArray => if n < 3 { None } else { Some(with_type(t, ins[1], SpirvTypeView::RuntimeArray(ins[2]))) },
        OpCode::OpTypeStruct => if n < 2 { None } else { Some(with_type(t, ins[1], SpirvTypeView::Struct(ins.subrange(2, n as int)))) },
        OpCode::OpTypePointer => if n < 4 { None } else { Some(with_type(t, ins[1], SpirvTypeView::Pointer(ins[3]))) },
        OpCode::OpTypeFunction => if n < 2 { None } else { Some(with_type(t, ins[1], SpirvTypeView::Function)) },
        OpCode::OpConstantTrue => if n < 3 { None } else { Some(with_constant(t, ins[2], ConstantView::True)) },
        OpCode::OpConstantFalse => if n < 3 { None } else { Some(with_constant(t, ins[2], ConstantView::False)) },
        OpCode::OpConstant => if n < 3 { None } else { Some(with_constant(t, ins[2], ConstantView::Type(ins[1], ins.subrange(3, n as int)))) },
        OpCode::OpVariable => if n < 4 {
            None
        } else {
            match StorageClass::spec_from_code(ins[3]) {
                Some(c) => Some(ScanTables {
                    variables: t.variables.insert(ins[2], Variable { var_type: ins[1], storage_class: c }),
                    ..t
                }),
                None => None,
            }
        },
    }
}

/// The tables after scanning from word `p` to the end, or `None` where the
/// scan fails: an instruction of zero words (on which it would never end),
/// one that runs past the end, or a `scan_step` that fails.
pub open spec fn scan_run(s: Seq<u32>, p: int, t: ScanTables) -> Option<ScanTables>
    decreases s.len() - p,
{
    if p >= s.len() || p < 0 {
        Some(t)
    } else {
        let wc = scan_word_count(s[p]) as int;
        if wc == 0 || p + wc > s.len() {
            None
        } else {
            match scan_step(s.subrange(p, p + wc), t) {
                Some(next) => scan_run(s, p + wc, next),
                None => None,
            }
        }
    }
}

/// The tables after scanning the whole module (from word 5).
pub open spec fn scan_tables(s: Seq<u32>) -> Option<ScanTables> {
    scan_run(
        s,
        5,
        ScanTables { decorations: Map::empty(), types: Map::empty(), constants: Map::empty(), variables: Map::empty() },
    )
}

/// The uniform buffer member that the type `id` stands for, or `None` where
/// it is none the engine supports.
pub open spec fn element_format(types: Map<u32, SpirvTypeView>, id: u32) -> Option<UniformBufferElement> {
    if !types.contains_key(id) {
        None
    } else {
        match types[id] {
            SpirvTypeView::Float(w) => if w == 32 { Some(UniformBufferElement::Float) } else { None },
            SpirvTypeView::Vector(c, n) => if types.contains_key(c) && types[c] == SpirvTypeView::Float(32) {
                if n == 2 { Some(UniformBufferElement::Vec2) } else if n == 3 { Some(UniformBufferElement::Vec3) } else if n == 4 { Some(UniformBufferElement::Vec4) } else { None }
            } else {
                None
            },
            SpirvTypeView::Matrix(c, n) => if types.contains_key(c) {
                match types[c] {
                    SpirvTypeView::Vector(c2, m) => if types.contains_key(c2) && types[c2] == SpirvTypeView::Float(32) && m == n {
                        if n == 2 { Some(UniformBufferElement::Mat2) } else if n == 3 { Some(UniformBufferElement::Mat3) } else if n == 4 { Some(UniformBufferElement::Mat4) } else { None }
                    } else {
                        None
                    },
                    _ => None,
                }
            } else {
                None
            },
            _ => None,
        }
    }
}

/// Whether the type `id` is declared as a 32-bit float.
pub open spec fn declared_float32(types: Map<u32, SpirvTypeView>, id: u32) -> bool {
    types.contains_key(id) && types[id] == SpirvTypeView::Float(32)
}

/// Whether a uniform buffer member is a matrix.
pub open spec fn is_matrix_element(e: UniformBufferElement) -> bool {
    e == UniformBufferElement::Mat2 || e == UniformBufferElement::Mat3 || e == UniformBufferElement::Mat4
}

/// A uniform buffer member is read from its declaration: a 32-bit float is
/// one float of 4 bytes; a vector of `n` 32-bit floats (n = 2, 3, 4) is a
/// vector member of `4 n` bytes; a matrix of `n` columns of `n`-float
/// vectors is the `n` by `n` matrix member of `4 n n` bytes; nothing else is
/// a member.
pub proof fn lemma_element_format_shape(types: Map<u32, SpirvTypeView>, id: u32, c: u32, f: u32, n: u32)
    ensures
        declared_float32(types, id) ==> element_format(types, id) == Some(UniformBufferElement::Float),
        types.contains_key(id) && types[id] == SpirvTypeView::Vector(c, n) && declared_float32(types, c) && 2 <= n <= 4
            ==> (element_format(types, id) matches Some(e) && element_size(e) == 4 * n && !is_matrix_element(e)),
        types.contains_key(id) && types[id] == SpirvTypeView::Matrix(c, n) && types.contains_key(c) && types[c]
            == SpirvTypeView::Vector(f, n) && declared_float32(types, f) && 2 <= n <= 4 ==> (element_format(types, id) matches Some(e)
            && element_size(e) == 4 * n * n && is_matrix_element(e)),
        element_format(types, id) matches Some(e) ==> types.contains_key(id) && (declared_float32(types, id)
            || types[id] is Vector || types[id] is Matrix),
{
}

/// The members of a uniform buffer whose struct has the member types `m`,
/// or `None` where one is not supported.
pub open spec fn member_formats(types: Map<u32, SpirvTypeView>, m: Seq<u32>) -> Option<Seq<UniformBufferElement>> {
    if forall|k: int| 0 <= k < m.len() ==> (#[trigger] element_format(types, m[k])) is Some {
        Some(Seq::new(m.len(), |k: int| element_format(types, m[k]).unwrap()))
    } else {
        None
    }
}

/// The descriptor type of a variable whose type is `pointer`, or `None`
/// where it is not a pointer to a supported struct or a sampled image.
pub open spec fn descriptor_type_of(types: Map<u32, SpirvTypeView>, pointer: u32) -> Option<DescriptorTypeView> {
    if !types.contains_key(pointer) {
        None
    } else {
        match types[pointer] {
            SpirvTypeView::Pointer(t) => if !types.contains_key(t) {
                None
            } else {
                match types[t] {
                    SpirvTypeView::Struct(m) => match member_formats(types, m) {
                        Some(f) => Some(DescriptorTypeView::UniformBuffer(f)),
                        None => None,
                    },
                    SpirvTypeView::SampledImage(_) => Some(DescriptorTypeView::CombinedImageSampler),
                    _ => None,
                }
            },
            _ => None,
        }
    }
}

/// Whether a variable's storage class makes it a descriptor.
pub open spec fn is_descriptor_class(c: StorageClass) -> bool {
    c == StorageClass::Uniform || c == StorageClass::UniformConstant
}

/// Whether id `k` is a variable that is a descriptor.
pub open spec fn is_descriptor_variable(t: ScanTables, k: u32) -> bool {
    t.variables.contains_key(k) && is_descriptor_class(t.variables[k].storage_class)
}

/// The descriptor that the variable `k` stands for, used by the stages with
/// bits `stages`, or `None` where its set or binding or type is missing or
/// unsupported.
pub open spec fn descriptor_of(t: ScanTables, k: u32, stages: u32) -> Option<DescriptorView> {
    if !t.decorations.contains_key(k) {
        None
    } else {
        match (t.decorations[k].set, t.decorations[k].binding) {
            (Some(set), Some(binding)) => match descriptor_type_of(t.types, t.variables[k].var_type) {
                Some(dt) => Some(((set, binding), dt, ShaderStages { bits: stages })),
                None => None,
            },
            _ => None,
        }
    }
}

/// Whether the descriptor scan accepts the module: the scan succeeds and
/// every descriptor variable has a set, a binding and a supported type.
pub open spec fn scan_accepts(s: Seq<u32>) -> bool {
    &&& scan_tables(s) is Some
    &&& forall|k: u32| #[trigger] is_descriptor_variable(scan_tables(s).unwrap(), k) ==> descriptor_of(scan_tables(s).unwrap(), k, 0) is Some
}

/// `d` lists the descriptor of each descriptor variable exactly once, the
/// variables being taken in the order `order`.
pub open spec fn listed_in_order(d: Seq<DescriptorView>, t: ScanTables, stages: u32, order: Seq<u32>) -> bool {
    &&& order.no_duplicates()
    &&& order.len() == d.len()
    &&& forall|k: u32| order.contains(k) <==> #[trigger] is_descriptor_variable(t, k)
    &&& forall|i: int| 0 <= i < d.len() ==> Some(#[trigger] d[i]) == descriptor_of(t, order[i], stages)
}

/// `d` lists the descriptor of each descriptor variable exactly once, in
/// ascending order of (set, binding) key.
pub open spec fn lists_descriptors(d: Seq<DescriptorView>, t: ScanTables, stages: u32) -> bool {
    &&& ordered(d)
    &&& exists|order: Seq<u32>| #[trigger] listed_in_order(d, t, stages, order)
}


/// The tables of the descriptor scan, and the variable ids in the order
/// they were first declared.
struct Scan {
    decorations: HashMap<u32, DecorationSet>,
    types: HashMap<u32, SpirvType>,
    constants: HashMap<u32, Constant>,
    variables: HashMap<u32, Variable>,
    variable_order: Vec<u32>,
}

impl Scan {
    closed spec fn tables(&self) -> ScanTables {
        ScanTables {
            decorations: self.decorations@,
            types: self.types@.map_values(|x: SpirvType| x@),
            constants: self.constants@.map_values(|x: Constant| x@),
            variables: self.variables@,
        }
    }

    closed spec fn order_ok(&self) -> bool {
        &&& self.variable_order@.no_duplicates()
        &&& forall|k: u32| self.variable_order@.contains(k) <==> self.variables@.contains_key(k)
    }

    fn new() -> (r: Scan)
        ensures
            r.tables() == (ScanTables {
                decorations: Map::empty(),
                types: Map::empty(),
                constants: Map::empty(),
                variables: Map::empty(),
            }),
            r.order_ok(),
    {
        let r = Scan {
            decorations: HashMap::new(),
            types: HashMap::new(),
            constants: HashMap::new(),
            variables: HashMap::new(),
            variable_order: Vec::new(),
        };
        assert(r.tables().types =~= Map::empty());
        assert(r.tables().constants =~= Map::empty());
        r
    }

    fn add_type(&mut self, id: u32, ty: SpirvType)
        ensures
            final(self).tables() == with_type(old(self).tables(), id, ty@),
            final(self).order_ok() == old(self).order_ok(),
            final(self).variables@ == old(self).variables@,
            final(self).variable_order@ == old(self).variable_order@,
    {
        let ghost tv = ty@;
        self.types.insert(id, ty);
        assert(self.tables().types =~= old(self).tables().types.insert(id, tv));
    }

    fn add_constant(&mut self, id: u32, c: Constant)
        ensures
            final(self).tables() == with_constant(old(self).tables(), id, c@),
            final(self).order_ok() == old(self).order_ok(),
            final(self).variables@ == old(self).variables@,
            final(self).variable_order@ == old(self).variable_order@,
    {
        let ghost cv = c@;
        self.constants.insert(id, c);
        assert(self.tables().constants =~= old(self).tables().constants.insert(id, cv));
    }

    /// Records what the instruction `instruction` declares.
    fn scan_instruction(&mut self, instruction: &[u32])
        requires
            instruction@.len() >= 1,
            old(self).order_ok(),
            scan_step(instruction@, old(self).tables()) is Some,
        ensures
            final(self).order_ok(),
            Some(final(self).tables()) == scan_step(instruction@, old(self).tables()),
    {
        let op_code = (0x0000FFFF & instruction[0]) as u16;
        match OpCode::get_op_code(op_code) {
            OpCode::OpNop => (),
            OpCode::OpDecorate => {
                let id = instruction[1];
                let mut d = match self.decorations.get(&id) {
                    Some(d) => *d,
                    None => DecorationSet { set: None, binding: None },
                };
                d.apply_decoration(instruction);
                self.decorations.insert(id, d);
            },
            OpCode::OpTypeVoid => { self.add_type(instruction[1], SpirvType::Void); },
            OpCode::OpTypeBool => { self.add_type(instruction[1], SpirvType::Bool); },
            OpCode::OpTypeInt => { self.add_type(instruction[1], SpirvType::Int(instruction[2], instruction[3] == 1)); },
            OpCode::OpTypeFloat => { self.add_type(instruction[1], SpirvType::Float(instruction[2])); },
            OpCode::OpTypeVector => { self.add_type(instruction[1], SpirvType::Vector(instruction[2], instruction[3])); },
            OpCode::OpTypeMatrix => { self.add_type(instruction[1], SpirvType::Matrix(instruction[2], instruction[3])); },
            OpCode::OpTypeImage => { self.add_type(instruction[1], SpirvType::Image); },
            OpCode::OpTypeSampler => { self.add_type(instruction[1], SpirvType::Sampler); },
            OpCode::OpTypeSampledImage => { self.add_type(instruction[1], SpirvType::SampledImage(instruction[2])); },
            OpCode::OpTypeArray => { self.add_type(instruction[1], SpirvType::Array(instruction[2], instruction[3])); },
            OpCode::OpTypeRuntimeArray => { self.add_type(instruction[1], SpirvType::RuntimeArray(instruction[2])); },
            OpCode::OpTypeStruct => {
                let members = vstd::slice::slice_to_vec(vstd::slice::slice_subrange(instruction, 2, instruction.len()));
                self.add_type(instruction[1], SpirvType::Struct(members));
            },
            OpCode::OpTypePointer => { self.add_type(instruction[1], SpirvType::Pointer(instruction[3])); },
            OpCode::OpTypeFunction => { self.add_type(instruction[1], SpirvType::Function); },
            OpCode::OpConstantTrue => { self.add_constant(instruction[2], Constant::True); },
            OpCode::OpConstantFalse => { self.add_constant(instruction[2], Constant::False); },
            OpCode::OpConstant => {
                let value = vstd::slice::slice_to_vec(vstd::slice::slice_subrange(instruction, 3, instruction.len()));
                self.add_constant(instruction[2], Constant::Type(instruction[1], value));
            },
            OpCode::OpVariable => {
                let id = instruction[2];
                let v = Variable { var_type: instruction[1], storage_class: StorageClass::from_code(instruction[3]) };
                let ghost vars_before = self.variables@;
                let ghost order_before = self.variable_order@;
                assert(forall|k: u32| order_before.contains(k) <==> vars_before.contains_key(k));
                if !self.variables.contains_key(&id) {
                    let ghost old_order = self.variable_order@;
                    assert(!old_order.contains(id));
                    self.variable_order.push(id);
                    assert(self.variable_order@.no_duplicates()) by {
                        assert forall|a: int, b: int|
                            0 <= a < self.variable_order@.len() && 0 <= b < self.variable_order@.len() && a != b
                            implies self.variable_order@[a] != self.variable_order@[b] by {
                            if a == old_order.len() {
                                assert(old_order[b] == self.variable_order@[b]);
                            } else if b == old_order.len() {
                                assert(old_order[a] == self.variable_order@[a]);
                            }
                        }
                    }
                    assert forall|k: u32| self.variable_order@.contains(k) <==> (old_order.contains(k) || k == id) by {
                        if self.variable_order@.contains(k) {
                            let x = choose|x: int| 0 <= x < self.variable_order@.len() && self.variable_order@[x] == k;
                            if x < old_order.len() {
                                assert(old_order[x] == k);
                            }
                        }
                        if old_order.contains(k) {
                            let x = choose|x: int| 0 <= x < old_order.len() && old_order[x] == k;
                            assert(self.variable_order@[x] == k);
                        }
                        if k == id {
                            assert(self.variable_order@[old_order.len() as int] == k);
                        }
                    }
                }
                assert forall|k: u32| self.variable_order@.contains(k) <==> (vars_before.contains_key(k) || k == id) by {
                    if vars_before.contains_key(id) {
                        assert(self.variable_order@ == order_before);
                        assert(order_before.contains(id));
                    }
                    assert(order_before.contains(k) <==> vars_before.contains_key(k));
                }
                self.variables.insert(id, v);
                assert(self.variables@ == vars_before.insert(id, v));
            },
        }
    }
}


/// The model of the type table of the scan.
spec fn types_of(types: Map<u32, SpirvType>) -> Map<u32, SpirvTypeView> {
    types.map_values(|x: SpirvType| x@)
}

impl Scan {
    /// The descriptor type of a variable whose type is `pointer`.
    fn descriptor_type(&self, pointer: u32) -> (r: DescriptorType)
        requires
            descriptor_type_of(self.tables().types, pointer) is Some,
        ensures
            Some(r@) == descriptor_type_of(self.tables().types, pointer),
    {
        let ghost tv = self.tables().types;
        assert(tv == types_of(self.types@));
        let pointee = match self.types.get(&pointer) {
            Some(SpirvType::Pointer(t)) => *t,
            _ => vstd::pervasive::unreached(),
        };
        match self.types.get(&pointee) {
            Some(SpirvType::Struct(elements)) => {
                let ghost m = elements@;
                assert(tv[pointee] == SpirvTypeView::Struct(m));
                let mut formats: Vec<UniformBufferElement> = Vec::with_capacity(elements.len());
                let mut k: usize = 0;
                while k < elements.len()
                    invariant
                        k <= elements@.len(),
                        m == elements@,
                        tv == types_of(self.types@),
                        member_formats(tv, m) is Some,
                        formats@ == Seq::new(k as nat, |x: int| element_format(tv, m[x]).unwrap()),
                    decreases elements@.len() - k,
                {
                    assert(element_format(tv, m[k as int]) is Some);
                    let f = DescriptorRequirements::get_struct_format(&elements[k], &self.types);
                    formats.push(f);
                    k = k + 1;
                    assert(formats@ =~= Seq::new(k as nat, |x: int| element_format(tv, m[x]).unwrap()));
                }
                DescriptorType::UniformBuffer(formats)
            },
            Some(SpirvType::SampledImage(_)) => DescriptorType::CombinedImageSampler,
            _ => vstd::pervasive::unreached(),
        }
    }
}

/// A list of descriptors, ordered, with the descriptor `e` inserted after
/// every one whose key is not above that of `e`.
proof fn lemma_insert_ordered(d: Seq<DescriptorView>, pos: int, e: DescriptorView)
    requires
        ordered(d),
        0 <= pos <= d.len(),
        forall|x: int| 0 <= x < pos ==> order_key((#[trigger] d[x]).0) <= order_key(e.0),
        forall|x: int| pos <= x < d.len() ==> order_key((#[trigger] d[x]).0) > order_key(e.0),
    ensures
        ordered(d.insert(pos, e)),
{
    let d2 = d.insert(pos, e);
    assert forall|i: int, j: int| #![trigger d2[i], d2[j]] 0 <= i < j < d2.len() implies order_key(d2[i].0) <= order_key(d2[j].0) by {
        if j < pos {
        } else if j == pos {
        } else if i < pos {
            assert(d2[j] == d[j - 1]);
        } else if i == pos {
            assert(d2[j] == d[j - 1]);
        } else {
            assert(d2[i] == d[i - 1]);
            assert(d2[j] == d[j - 1]);
        }
    }
}

impl DescriptorRequirements {
    /// The uniform buffer member that the type `id` stands for.
    fn get_struct_format(id: &u32, types: &HashMap<u32, SpirvType>) -> (r: UniformBufferElement)
        requires
            element_format(types_of(types@), *id) is Some,
        ensures
            Some(r) == element_format(types_of(types@), *id),
    {
        match types.get(id) {
            Some(SpirvType::Float(_)) => UniformBufferElement::Float,
            Some(SpirvType::Vector(_, count)) => {
                if *count == 2 {
                    UniformBufferElement::Vec2
                } else if *count == 3 {
                    UniformBufferElement::Vec3
                } else {
                    UniformBufferElement::Vec4
                }
            },
            Some(SpirvType::Matrix(_, count)) => {
                if *count == 2 {
                    UniformBufferElement::Mat2
                } else if *count == 3 {
                    UniformBufferElement::Mat3
                } else {
                    UniformBufferElement::Mat4
                }
            },
            _ => vstd::pervasive::unreached(),
        }
    }

    /// The descriptors a shader module of the given type declares: one for
    /// each of its uniform and uniform-constant variables, keyed by the
    /// variable's set and binding, uniform buffers with their members and
    /// sampled images as combined image samplers, in ascending order of key.
    pub fn from_binary(binary: &[u32], shader_stage: ShaderType) -> (r: Self)
        requires
            scan_accepts(binary@),
        ensures
            lists_descriptors(r@, scan_tables(binary@).unwrap(), stage_bits(shader_stage)),
    {
        let ghost s = binary@;
        let n = binary.len();
        let mut scan = Scan::new();
        let mut i: usize = 5;
        while i < n
            invariant
                n == s.len(),
                s == binary@,
                5 <= i,
                scan.order_ok(),
                scan_run(s, i as int, scan.tables()) == scan_tables(s),
                scan_tables(s) is Some,
            decreases n - i,
        {
            let word_count = ((0xFFFF0000 & binary[i]) >> 16) as u16;
            proof {
                assert(scan_run(s, i as int, scan.tables()) is Some);
                assert(word_count as int == scan_word_count(s[i as int]));
            }
            let instruction = vstd::slice::slice_subrange(binary, i, i + word_count as usize);
            assert(instruction@[0] == s[i as int]);
            scan.scan_instruction(instruction);
            i = i + word_count as usize;
        }
        let ghost t = scan.tables();
        assert(Some(t) == scan_tables(s));
        let stages = shader_stage.to_stages();
        let ghost bits = stage_bits(shader_stage);
        let mut descriptors: Vec<((u32, u32), DescriptorType, ShaderStages)> = Vec::new();
        let ghost mut order: Seq<u32> = Seq::empty();
        let mut j: usize = 0;
        while j < scan.variable_order.len()
            invariant
                j <= scan.variable_order@.len(),
                t == scan.tables(),
                scan.order_ok(),
                stages.bits == bits,
                Some(t) == scan_tables(s),
                scan_accepts(s),
                ordered(descriptors_view(descriptors@)),
                order.no_duplicates(),
                order.len() == descriptors@.len(),
                forall|k: u32| order.contains(k) <==> (scan.variable_order@.take(j as int).contains(k) && is_descriptor_variable(t, k)),
                forall|x: int| 0 <= x < descriptors@.len() ==> Some(#[trigger] descriptors_view(descriptors@)[x]) == descriptor_of(t, order[x], bits),
            decreases scan.variable_order@.len() - j,
        {
            let k = scan.variable_order[j];
            assert(scan.variable_order@.contains(k));
            let ghost vo = scan.variable_order@;
            assert(vo.take(j + 1) =~= vo.take(j as int).push(k));
            assert(!vo.take(j as int).contains(k)) by {
                if vo.take(j as int).contains(k) {
                    let x = choose|x: int| 0 <= x < j && vo.take(j as int)[x] == k;
                    assert(vo[x] == vo[j as int]);
                }
            }
            let variable = match scan.variables.get(&k) {
                Some(v) => *v,
                None => vstd::pervasive::unreached(),
            };
            if variable.storage_class == StorageClass::Uniform || variable.storage_class == StorageClass::UniformConstant {
                assert(is_descriptor_variable(t, k));
                assert(descriptor_of(t, k, 0) is Some);
                let decorator = match scan.decorations.get(&k) {
                    Some(d) => *d,
                    None => vstd::pervasive::unreached(),
                };
                let set = match decorator.set {
                    Some(x) => x,
                    None => vstd::pervasive::unreached(),
                };
                let binding = match decorator.binding {
                    Some(x) => x,
                    None => vstd::pervasive::unreached(),
                };
                let descriptor_type = scan.descriptor_type(variable.var_type);
                let entry = ((set, binding), descriptor_type, stages);
                let ghost ev = descriptor_view(entry);
                assert(Some(ev) == descriptor_of(t, k, bits));
                let key: u64 = (set as u64) * 65536 + (binding as u64);
                let mut pos: usize = 0;
                while pos < descriptors.len() && (descriptors[pos].0.0 as u64) * 65536 + (descriptors[pos].0.1 as u64) <= key
                    invariant
                        pos <= descriptors@.len(),
                        key == order_key(ev.0),
                        forall|x: int| 0 <= x < pos ==> order_key((#[trigger] descriptors_view(descriptors@)[x]).0) <= order_key(ev.0),
                    decreases descriptors@.len() - pos,
                {
                    pos = pos + 1;
                }
                let ghost dv = descriptors_view(descriptors@);
                assert forall|x: int| pos <= x < dv.len() implies order_key((#[trigger] dv[x]).0) > order_key(ev.0) by {
                    assert(order_key(dv[pos as int].0) > order_key(ev.0));
                    if x > pos {
                        assert(order_key(dv[pos as int].0) <= order_key(dv[x].0));
                    }
                }
                proof {
                    lemma_insert_ordered(dv, pos as int, ev);
                }
                let ghost old_order = order;
                descriptors.insert(pos, entry);
                proof {
                    order = order.insert(pos as int, k);
                    assert(descriptors_view(descriptors@) =~= dv.insert(pos as int, ev));
                    assert(!old_order.contains(k));
                    assert forall|x: int, y: int| 0 <= x < order.len() && 0 <= y < order.len() && x != y implies order[x] != order[y] by {
                        if x < pos && y < pos {
                        } else if x == pos {
                            if y < pos { assert(old_order.contains(old_order[y])); } else { assert(old_order.contains(old_order[y - 1])); }
                        } else if y == pos {
                            if x < pos { assert(old_order.contains(old_order[x])); } else { assert(old_order.contains(old_order[x - 1])); }
                        }
                    }
                    assert forall|q: u32| order.contains(q) <==> (old_order.contains(q) || q == k) by {
                        if order.contains(q) {
                            let x = choose|x: int| 0 <= x < order.len() && order[x] == q;
                            if x < pos { assert(old_order[x] == q); } else if x > pos { assert(old_order[x - 1] == q); }
                        }
                        if old_order.contains(q) {
                            let x = choose|x: int| 0 <= x < old_order.len() && old_order[x] == q;
                            if x < pos { assert(order[x] == q); } else { assert(order[x + 1] == q); }
                        }
                        if q == k {
                            assert(order[pos as int] == q);
                        }
                    }
                    assert forall|x: int| 0 <= x < descriptors@.len() implies Some(#[trigger] descriptors_view(descriptors@)[x]) == descriptor_of(t, order[x], bits) by {
                        if x < pos {
                            assert(descriptors_view(descriptors@)[x] == dv[x]);
                        } else if x > pos {
                            assert(descriptors_view(descriptors@)[x] == dv[x - 1]);
                        }
                    }
                }
            }
            proof {
                let before = vo.take(j as int);
                let after = vo.take(j + 1);
                assert forall|q: u32| after.contains(q) <==> (before.contains(q) || q == k) by {
                    if after.contains(q) {
                        let x = choose|x: int| 0 <= x < after.len() && after[x] == q;
                        if x < j {
                            assert(before[x] == q);
                        }
                    }
                    if before.contains(q) {
                        let x = choose|x: int| 0 <= x < before.len() && before[x] == q;
                        assert(after[x] == q);
                    }
                    if q == k {
                        assert(after[j as int] == q);
                    }
                }
            }
            j = j + 1;
        }
        let r = DescriptorRequirements { descriptors };
        proof {
            assert(scan.variable_order@.take(scan.variable_order@.len() as int) =~= scan.variable_order@);
            assert(listed_in_order(r@, t, bits, order));
        }
        r
    }
}


/// Whether the scan can record the instruction `ins`, whatever it has
/// recorded before.
fn scan_step_ok(ins: &[u32]) -> (r: bool)
    requires
        ins@.len() >= 1,
    ensures
        forall|t: ScanTables| #[trigger] scan_step(ins@, t) is Some <==> r,
{
    let n = ins.len();
    let op_code = (0x0000FFFF & ins[0]) as u16;
    match OpCode::get_op_code(op_code) {
        OpCode::OpNop => true,
        OpCode::OpDecorate => n >= 3 && ((ins[2] != 33 && ins[2] != 34) || n >= 4),
        OpCode::OpTypeVoid => n >= 2,
        OpCode::OpTypeBool => n >= 2,
        OpCode::OpTypeInt => n >= 4,
        OpCode::OpTypeFloat => n >= 3,
        OpCode::OpTypeVector => n >= 4,
        OpCode::OpTypeMatrix => n >= 4,
        OpCode::OpTypeImage => n >= 2,
        OpCode::OpTypeSampler => n >= 2,
        OpCode::OpTypeSampledImage => n >= 3,
        OpCode::OpTypeArray => n >= 4,
        OpCode::OpTypeRuntimeArray => n >= 3,
        OpCode::OpTypeStruct => n >= 2,
        OpCode::OpTypePointer => n >= 4,
        OpCode::OpTypeFunction => n >= 2,
        OpCode::OpConstantTrue => n >= 3,
        OpCode::OpConstantFalse => n >= 3,
        OpCode::OpConstant => n >= 3,
        OpCode::OpVariable => n >= 4 && ins[3] <= 3,
    }
}

/// Whether `id` is declared as a 32-bit float.
fn is_float32(id: u32, types: &HashMap<u32, SpirvType>) -> (r: bool)
    ensures
        r == (types_of(types@).contains_key(id) && types_of(types@)[id] == SpirvTypeView::Float(32)),
{
    match types.get(&id) {
        Some(SpirvType::Float(w)) => *w == 32,
        _ => false,
    }
}

/// Whether the type `id` is a uniform buffer member the engine supports.
fn element_ok(id: u32, types: &HashMap<u32, SpirvType>) -> (r: bool)
    ensures
        r == element_format(types_of(types@), id) is Some,
{
    let ghost tv = types_of(types@);
    match types.get(&id) {
        Some(SpirvType::Float(w)) => *w == 32,
        Some(SpirvType::Vector(c, n)) => is_float32(*c, types) && (*n == 2 || *n == 3 || *n == 4),
        Some(SpirvType::Matrix(c, n)) => {
            match types.get(c) {
                Some(SpirvType::Vector(c2, m)) => is_float32(*c2, types) && *m == *n && (*n == 2 || *n == 3 || *n == 4),
                _ => false,
            }
        },
        _ => false,
    }
}

impl Scan {
    /// Whether a variable whose type is `pointer` has a descriptor type.
    fn descriptor_type_ok(&self, pointer: u32) -> (r: bool)
        ensures
            r == descriptor_type_of(self.tables().types, pointer) is Some,
    {
        let ghost tv = self.tables().types;
        assert(tv == types_of(self.types@));
        match self.types.get(&pointer) {
            Some(SpirvType::Pointer(t)) => {
                match self.types.get(t) {
                    Some(SpirvType::Struct(elements)) => {
                        let ghost m = elements@;
                        assert(tv.contains_key(pointer) && tv[pointer] == SpirvTypeView::Pointer(*t));
                        assert(tv.contains_key(*t) && tv[*t] == SpirvTypeView::Struct(m));
                        let ghost tt = *t;
                        let mut k: usize = 0;
                        while k < elements.len()
                            invariant
                                k <= elements@.len(),
                                tv.contains_key(pointer) && tv[pointer] == SpirvTypeView::Pointer(tt),
                                tv.contains_key(tt) && tv[tt] == SpirvTypeView::Struct(m),
                                m == elements@,
                                tv == types_of(self.types@),
                                forall|x: int| 0 <= x < k ==> (#[trigger] element_format(tv, m[x])) is Some,
                            decreases elements@.len() - k,
                        {
                            if !element_ok(elements[k], &self.types) {
                                assert(m[k as int] == elements[k as int]);
                                assert(element_format(tv, m[k as int]) is None);
                                assert(member_formats(tv, m) is None);
                                return false;
                            }
                            k = k + 1;
                        }
                        true
                    },
                    Some(SpirvType::SampledImage(_)) => true,
                    _ => false,
                }
            },
            _ => false,
        }
    }
}

impl DescriptorRequirements {
    /// Whether `from_binary` can read the descriptors of the module: every
    /// instruction it scans is complete, every variable has a known storage
    /// class, and every uniform or uniform-constant variable has a set, a
    /// binding, and a type that is a supported uniform buffer or a sampled
    /// image.
    pub fn accepts_binary(binary: &[u32]) -> (r: bool)
        ensures
            r == scan_accepts(binary@),
    {
        let ghost s = binary@;
        let n = binary.len();
        let mut scan = Scan::new();
        let mut i: usize = 5;
        while i < n
            invariant
                n == s.len(),
                s == binary@,
                5 <= i,
                scan.order_ok(),
                scan_run(s, i as int, scan.tables()) == scan_tables(s),
            decreases n - i,
        {
            let word_count = ((0xFFFF0000 & binary[i]) >> 16) as u16;
            assert(word_count as int == scan_word_count(s[i as int]));
            if word_count == 0 || word_count as usize > n - i {
                return false;
            }
            let instruction = vstd::slice::slice_subrange(binary, i, i + word_count as usize);
            assert(instruction@ == s.subrange(i as int, i + word_count));
            if !scan_step_ok(instruction) {
                assert(scan_step(instruction@, scan.tables()) is None);
                return false;
            }
            scan.scan_instruction(instruction);
            i = i + word_count as usize;
        }
        let ghost t = scan.tables();
        assert(Some(t) == scan_tables(s));
        let mut j: usize = 0;
        while j < scan.variable_order.len()
            invariant
                j <= scan.variable_order@.len(),
                t == scan.tables(),
                s == binary@,
                scan.order_ok(),
                Some(t) == scan_tables(s),
                forall|x: int| 0 <= x < j ==> is_descriptor_variable(t, #[trigger] scan.variable_order@[x])
                    ==> descriptor_of(t, scan.variable_order@[x], 0) is Some,
            decreases scan.variable_order@.len() - j,
        {
            let k = scan.variable_order[j];
            assert(scan.variable_order@.contains(k));
            let variable = match scan.variables.get(&k) {
                Some(v) => *v,
                None => vstd::pervasive::unreached(),
            };
            if variable.storage_class == StorageClass::Uniform || variable.storage_class == StorageClass::UniformConstant {
                assert(is_descriptor_variable(t, k));
                let ok = match scan.decorations.get(&k) {
                    Some(d) => d.set.is_some() && d.binding.is_some() && scan.descriptor_type_ok(variable.var_type),
                    None => false,
                };
                if !ok {
                    assert(descriptor_of(t, k, 0) is None);
                    return false;
                }
                assert(descriptor_of(t, k, 0) is Some);
            }
            j = j + 1;
        }
        assert forall|k: u32| #[trigger] is_descriptor_variable(t, k) implies descriptor_of(t, k, 0) is Some by {
            assert(scan.variable_order@.contains(k));
            let x = choose|x: int| 0 <= x < scan.variable_order@.len() && scan.variable_order@[x] == k;
            assert(is_descriptor_variable(t, scan.variable_order@[x]));
        }
        true
    }
}

/// The descriptors of `reqs[a..b]`, one requirement after another.
pub open spec fn flat_range(reqs: Seq<DescriptorRequirements>, a: int, b: int) -> Seq<DescriptorView>
    decreases b - a,
{
    if b <= a {
        Seq::empty()
    } else {
        flat_range(reqs, a, b - 1) + reqs[b - 1]@
    }
}

/// The descriptors of all the requirements, one requirement after another.
pub open spec fn all_descriptors(reqs: Seq<DescriptorRequirements>) -> Seq<DescriptorView> {
    flat_range(reqs, 0, reqs.len() as int)
}

proof fn lemma_flat_range_split(reqs: Seq<DescriptorRequirements>, a: int, b: int, c: int)
    requires
        a <= b <= c,
    ensures
        flat_range(reqs, a, c) == flat_range(reqs, a, b) + flat_range(reqs, b, c),
    decreases c - b,
{
    if b == c {
        assert(flat_range(reqs, a, b) + flat_range(reqs, b, c) =~= flat_range(reqs, a, b));
    } else {
        lemma_flat_range_split(reqs, a, b, c - 1);
        assert(flat_range(reqs, a, b) + flat_range(reqs, b, c) =~= (flat_range(reqs, a, b) + flat_range(
            reqs,
            b,
            c - 1,
        )) + reqs[c - 1]@);
    }
}

/// The verdict of the compatibility check on a list of descriptors: `None`
/// while no (set, binding) has come twice, otherwise whether the type at
/// the first repeated key agrees with the type seen before at that key.
pub open spec fn compatibility_verdict(f: Seq<DescriptorView>) -> Option<bool>
    decreases f.len(),
{
    if f.len() == 0 {
        None
    } else {
        let p = f.drop_last();
        let e = f.last();
        match compatibility_verdict(p) {
            Some(b) => Some(b),
            None => if exists|i: int| 0 <= i < p.len() && (#[trigger] p[i]).0 == e.0 {
                Some(forall|i: int| 0 <= i < p.len() && (#[trigger] p[i]).0 == e.0 ==> p[i].1 == e.1)
            } else {
                None
            },
        }
    }
}

/// Whether the compatibility check passes a list of descriptors.
pub open spec fn compatible(f: Seq<DescriptorView>) -> bool {
    match compatibility_verdict(f) {
        Some(b) => b,
        None => true,
    }
}

/// Once the check has reached a verdict, more descriptors do not change it.
proof fn lemma_verdict_stays(a: Seq<DescriptorView>, b: Seq<DescriptorView>)
    requires
        compatibility_verdict(a) is Some,
    ensures
        compatibility_verdict(a + b) == compatibility_verdict(a),
    decreases b.len(),
{
    if b.len() == 0 {
        assert(a + b =~= a);
    } else {
        lemma_verdict_stays(a, b.drop_last());
        assert((a + b).drop_last() =~= a + b.drop_last());
    }
}

/// Without a verdict, no (set, binding) comes twice.
proof fn lemma_no_verdict_distinct(f: Seq<DescriptorView>)
    requires
        compatibility_verdict(f) is None,
    ensures
        forall|i: int, j: int| #![trigger f[i], f[j]] 0 <= i < j < f.len() ==> f[i].0 != f[j].0,
    decreases f.len(),
{
    if f.len() > 0 {
        let p = f.drop_last();
        lemma_no_verdict_distinct(p);
        assert forall|i: int, j: int| #![trigger f[i], f[j]] 0 <= i < j < f.len() implies f[i].0 != f[j].0 by {
            if j == f.len() - 1 {
                if f[i].0 == f[j].0 {
                    assert(p[i].0 == f.last().0);
                }
            } else {
                assert(f[i] == p[i] && f[j] == p[j]);
            }
        }
    }
}

impl DescriptorRequirements {
    /// Whether the requirements agree: walking their descriptors in order,
    /// at the first (set, binding) that comes a second time, the type given
    /// there must equal the type given the first time; only that first
    /// repetition is checked.
    pub fn test_compatibility(requirements: &[DescriptorRequirements]) -> (r: bool)
        ensures
            r == compatible(all_descriptors(requirements@)),
    {
        let ghost reqs = requirements@;
        let mut seen: Vec<((u32, u32), DescriptorType)> = Vec::new();
        let mut r: usize = 0;
        while r < requirements.len()
            invariant
                reqs == requirements@,
                r <= reqs.len(),
                compatibility_verdict(flat_range(reqs, 0, r as int)) is None,
                seen@.len() == flat_range(reqs, 0, r as int).len(),
                forall|x: int| 0 <= x < seen@.len() ==> (#[trigger] seen@[x]).0 == flat_range(reqs, 0, r as int)[x].0
                    && seen@[x].1@ == flat_range(reqs, 0, r as int)[x].1,
            decreases reqs.len() - r,
        {
            let ghost before = flat_range(reqs, 0, r as int);
            let ghost current = reqs[r as int]@;
            let descriptors = &requirements[r].descriptors;
            let mut d: usize = 0;
            while d < descriptors.len()
                invariant
                    reqs == requirements@,
                    r < reqs.len(),
                    before == flat_range(reqs, 0, r as int),
                    current == reqs[r as int]@,
                    *descriptors == reqs[r as int].descriptors,
                    d <= descriptors@.len(),
                    compatibility_verdict(before + current.take(d as int)) is None,
                    seen@.len() == (before + current.take(d as int)).len(),
                    forall|x: int| 0 <= x < seen@.len() ==> (#[trigger] seen@[x]).0 == (before + current.take(d as int))[x].0
                        && seen@[x].1@ == (before + current.take(d as int))[x].1,
                decreases descriptors@.len() - d,
            {
                let ghost prefix = before + current.take(d as int);
                let ghost e = current[d as int];
                let ghost next = before + current.take(d + 1);
                assert(next =~= prefix.push(e));
                assert(e == descriptor_view(descriptors@[d as int]));
                let key = descriptors[d].0;
                let mut x: usize = 0;
                #[verifier::loop_isolation(false)]
                while x < seen.len()
                    invariant
                        x <= seen@.len(),
                        seen@.len() == prefix.len(),
                        key == e.0,
                        forall|y: int| 0 <= y < seen@.len() ==> (#[trigger] seen@[y]).0 == prefix[y].0
                            && seen@[y].1@ == prefix[y].1,
                        forall|y: int| 0 <= y < x ==> (#[trigger] prefix[y]).0 != e.0,
                    decreases seen@.len() - x,
                {
                    if seen[x].0.0 == key.0 && seen[x].0.1 == key.1 {
                        let agrees = seen[x].1.same_as(&descriptors[d].1);
                        proof {
                            assert(prefix[x as int].0 == e.0);
                            lemma_no_verdict_distinct(prefix);
                            assert(next.drop_last() =~= prefix);
                            assert forall|i: int| 0 <= i < prefix.len() && (#[trigger] prefix[i]).0 == e.0 implies i == x by {
                                if i != x {
                                    if i < x {
                                        assert(prefix[i].0 != prefix[x as int].0);
                                    } else {
                                        assert(prefix[x as int].0 != prefix[i].0);
                                    }
                                }
                            }
                            assert(compatibility_verdict(next) == Some(agrees));
                            lemma_flat_range_split(reqs, 0, r as int, reqs.len() as int);
                            lemma_flat_range_split(reqs, r as int, r + 1, reqs.len() as int);
                            assert(flat_range(reqs, r as int, r as int) =~= Seq::<DescriptorView>::empty());
                            assert(flat_range(reqs, r as int, r + 1) =~= current);
                            let rest = current.skip(d + 1) + flat_range(reqs, r + 1, reqs.len() as int);
                            assert(all_descriptors(reqs) =~= next + rest);
                            lemma_verdict_stays(next, rest);
                        }
                        return agrees;
                    }
                    x = x + 1;
                }
                proof {
                    assert(next.drop_last() =~= prefix);
                    assert(!(exists|i: int| 0 <= i < prefix.len() && (#[trigger] prefix[i]).0 == e.0));
                }
                let copy = descriptors[d].1.duplicate();
                seen.push((key, copy));
                d = d + 1;
            }
            proof {
                assert(current.take(current.len() as int) =~= current);
                assert(flat_range(reqs, 0, r + 1) == before + current);
            }
            r = r + 1;
        }
        true
    }
}


/// The type given the first time (set, binding) `k` comes in the list.
pub open spec fn first_type(f: Seq<DescriptorView>, k: (u32, u32)) -> Option<DescriptorTypeView>
    decreases f.len(),
{
    if f.len() == 0 {
        None
    } else {
        match first_type(f.drop_last(), k) {
            Some(t) => Some(t),
            None => if f.last().0 == k { Some(f.last().1) } else { None },
        }
    }
}

/// The union of the stage bits of every descriptor at (set, binding) `k`.
pub open spec fn stages_of(f: Seq<DescriptorView>, k: (u32, u32)) -> u32
    decreases f.len(),
{
    if f.len() == 0 {
        0
    } else {
        let u = stages_of(f.drop_last(), k);
        if f.last().0 == k { u | f.last().2.bits } else { u }
    }
}

/// Whether some descriptor of the list is at (set, binding) `k`.
pub open spec fn has_key(d: Seq<DescriptorView>, k: (u32, u32)) -> bool {
    exists|i: int| 0 <= i < d.len() && (#[trigger] d[i]).0 == k
}

/// `d` holds one descriptor for each (set, binding) of `f`, with the type
/// given there first and the union of the stages given there, in ascending
/// order of key.
pub open spec fn combines(d: Seq<DescriptorView>, f: Seq<DescriptorView>) -> bool {
    &&& ordered(d)
    &&& forall|i: int, j: int| #![trigger d[i], d[j]] 0 <= i < j < d.len() ==> d[i].0 != d[j].0
    &&& forall|i: int| 0 <= i < d.len() ==> first_type(f, (#[trigger] d[i]).0) == Some(d[i].1) && d[i].2.bits == stages_of(f, d[i].0)
    &&& forall|k: (u32, u32)| #[trigger] first_type(f, k) is Some ==> has_key(d, k)
}

proof fn lemma_unseen_no_stages(f: Seq<DescriptorView>, k: (u32, u32))
    requires
        first_type(f, k) is None,
    ensures
        stages_of(f, k) == 0,
    decreases f.len(),
{
    if f.len() > 0 {
        lemma_unseen_no_stages(f.drop_last(), k);
    }
}

impl DescriptorRequirements {
    /// The requirements of shaders used together: one descriptor for each
    /// (set, binding) any of them gives, with the type given there first and
    /// the union of the stages of all that give it, in ascending order of key.
    pub fn combine(requirements: &[DescriptorRequirements]) -> (r: Self)
        ensures
            combines(r@, all_descriptors(requirements@)),
    {
        let ghost reqs = requirements@;
        let mut acc: Vec<((u32, u32), DescriptorType, ShaderStages)> = Vec::new();
        let mut r: usize = 0;
        while r < requirements.len()
            invariant
                reqs == requirements@,
                r <= reqs.len(),
                combines(descriptors_view(acc@), flat_range(reqs, 0, r as int)),
            decreases reqs.len() - r,
        {
            let ghost before = flat_range(reqs, 0, r as int);
            let ghost current = reqs[r as int]@;
            let descriptors = &requirements[r].descriptors;
            let mut d: usize = 0;
            while d < descriptors.len()
                invariant
                    reqs == requirements@,
                    r < reqs.len(),
                    before == flat_range(reqs, 0, r as int),
                    current == reqs[r as int]@,
                    *descriptors == reqs[r as int].descriptors,
                    d <= descriptors@.len(),
                    combines(descriptors_view(acc@), before + current.take(d as int)),
                decreases descriptors@.len() - d,
            {
                let ghost prefix = before + current.take(d as int);
                let ghost e = current[d as int];
                let ghost next = before + current.take(d + 1);
                let ghost av = descriptors_view(acc@);
                proof {
                    assert(next =~= prefix.push(e));
                    assert(next.drop_last() =~= prefix);
                    assert(e == descriptor_view(descriptors@[d as int]));
                }
                let key = descriptors[d].0;
                let stages = descriptors[d].2;
                let mut x: usize = 0;
                #[verifier::loop_isolation(false)]
                while x < acc.len() && !(acc[x].0.0 == key.0 && acc[x].0.1 == key.1)
                    invariant
                        x <= acc@.len(),
                        forall|y: int| 0 <= y < x ==> (#[trigger] av[y]).0 != e.0,
                    decreases acc@.len() - x,
                {
                    x = x + 1;
                }
                if x < acc.len() {
                    let mut entry = acc.remove(x);
                    entry.2 = entry.2.union(stages);
                    acc.insert(x, entry);
                    proof {
                        let av2 = descriptors_view(acc@);
                        assert(av2 =~= av.update(x as int, (e.0, av[x as int].1, ShaderStages { bits: av[x as int].2.bits | e.2.bits })));
                        assert forall|i: int, j: int| #![trigger av2[i], av2[j]] 0 <= i < j < av2.len() implies order_key(av2[i].0) <= order_key(av2[j].0) by {
                            assert(av2[i].0 == av[i].0 && av2[j].0 == av[j].0);
                        }
                        assert forall|i: int, j: int| #![trigger av2[i], av2[j]] 0 <= i < j < av2.len() implies av2[i].0 != av2[j].0 by {
                            assert(av2[i].0 == av[i].0 && av2[j].0 == av[j].0);
                        }
                        assert forall|i: int| 0 <= i < av2.len() implies first_type(next, (#[trigger] av2[i]).0) == Some(av2[i].1) && av2[i].2.bits == stages_of(next, av2[i].0) by {
                            assert(first_type(prefix, av[i].0) == Some(av[i].1));
                        }
                        assert forall|k: (u32, u32)| #[trigger] first_type(next, k) is Some implies has_key(av2, k) by {
                            if k == e.0 {
                                assert(av2[x as int].0 == k);
                            } else {
                                assert(first_type(prefix, k) is Some);
                                assert(has_key(av, k));
                                let i = choose|i: int| 0 <= i < av.len() && (#[trigger] av[i]).0 == k;
                                assert(av2[i].0 == k);
                            }
                        }
                    }
                } else {
                    proof {
                        if first_type(prefix, e.0) is Some {
                            assert(has_key(av, e.0));
                            let i = choose|i: int| 0 <= i < av.len() && (#[trigger] av[i]).0 == e.0;
                        }
                        lemma_unseen_no_stages(prefix, e.0);
                    }
                    let order_value: u64 = (key.0 as u64) * 65536 + (key.1 as u64);
                    let mut pos: usize = 0;
                    #[verifier::loop_isolation(false)]
                    while pos < acc.len() && (acc[pos].0.0 as u64) * 65536 + (acc[pos].0.1 as u64) <= order_value
                        invariant
                            pos <= acc@.len(),
                            forall|y: int| 0 <= y < pos ==> order_key((#[trigger] av[y]).0) <= order_key(e.0),
                        decreases acc@.len() - pos,
                    {
                        pos = pos + 1;
                    }
                    let new_type = descriptors[d].1.duplicate();
                    let new_entry = (key, new_type, ShaderStages::empty().union(stages));
                    let ghost ev = descriptor_view(new_entry);
                    assert forall|y: int| pos <= y < av.len() implies order_key((#[trigger] av[y]).0) > order_key(ev.0) by {
                        assert(order_key(av[pos as int].0) > order_key(ev.0));
                        if y > pos {
                            assert(order_key(av[pos as int].0) <= order_key(av[y].0));
                        }
                    }
                    proof {
                        lemma_insert_ordered(av, pos as int, ev);
                    }
                    acc.insert(pos, new_entry);
                    proof {
                        let av2 = descriptors_view(acc@);
                        assert(av2 =~= av.insert(pos as int, ev));
                        assert forall|i: int, j: int| #![trigger av2[i], av2[j]] 0 <= i < j < av2.len() implies av2[i].0 != av2[j].0 by {
                            if i < pos && j < pos {
                            } else if i == pos {
                                assert(av2[j] == av[j - 1]);
                            } else if j == pos {
                                assert(av2[i] == av[i]);
                            } else if i < pos {
                                assert(av2[j] == av[j - 1]);
                            } else {
                                assert(av2[i] == av[i - 1]);
                                assert(av2[j] == av[j - 1]);
                            }
                        }
                        assert forall|i: int| 0 <= i < av2.len() implies first_type(next, (#[trigger] av2[i]).0) == Some(av2[i].1) && av2[i].2.bits == stages_of(next, av2[i].0) by {
                            if i < pos {
                                assert(av2[i] == av[i]);
                                assert(first_type(prefix, av[i].0) == Some(av[i].1));
                            } else if i > pos {
                                assert(av2[i] == av[i - 1]);
                                assert(first_type(prefix, av[i - 1].0) == Some(av[i - 1].1));
                            }
                        }
                        assert forall|k: (u32, u32)| #[trigger] first_type(next, k) is Some implies has_key(av2, k) by {
                            if k == e.0 {
                                assert(av2[pos as int].0 == k);
                            } else {
                                assert(first_type(prefix, k) is Some);
                                assert(has_key(av, k));
                                let i = choose|i: int| 0 <= i < av.len() && (#[trigger] av[i]).0 == k;
                                if i < pos {
                                    assert(av2[i].0 == k);
                                } else {
                                    assert(av2[i + 1].0 == k);
                                }
                            }
                        }
                    }
                }
                d = d + 1;
            }
            proof {
                assert(current.take(current.len() as int) =~= current);
                assert(flat_range(reqs, 0, r + 1) == before + current);
            }
            r = r + 1;
        }
        DescriptorRequirements { descriptors: acc }
    }
}


/// Descriptors whose (set, binding) keys are all different always pass the
/// compatibility check.
pub proof fn lemma_distinct_keys_compatible(f: Seq<DescriptorView>)
    requires
        forall|i: int, j: int| #![trigger f[i], f[j]] 0 <= i < j < f.len() ==> f[i].0 != f[j].0,
    ensures
        compatibility_verdict(f) is None,
        compatible(f),
    decreases f.len(),
{
    if f.len() > 0 {
        let p = f.drop_last();
        assert forall|i: int, j: int| #![trigger p[i], p[j]] 0 <= i < j < p.len() implies p[i].0 != p[j].0 by {
            assert(p[i] == f[i] && p[j] == f[j]);
        }
        lemma_distinct_keys_compatible(p);
        assert forall|i: int| 0 <= i < p.len() implies (#[trigger] p[i]).0 != f.last().0 by {
            assert(p[i] == f[i]);
            assert(f[i].0 != f[f.len() - 1].0);
        }
    }
}

/// The verdict is decided at the first (set, binding) that comes twice: where
/// the descriptors before position `j` all have different keys and the one
/// at `i < j` has the key of the one at `j`, the check passes exactly when
/// the two descriptor types are equal as values, the member lists of
/// uniform buffers included.
pub proof fn lemma_first_repeat_decides(f: Seq<DescriptorView>, i: int, j: int)
    requires
        0 <= i < j < f.len(),
        f[i].0 == f[j].0,
        forall|a: int, b: int| #![trigger f[a], f[b]] 0 <= a < b < j ==> f[a].0 != f[b].0,
    ensures
        compatible(f) == (f[i].1 == f[j].1),
{
    let p = f.take(j);
    assert forall|a: int, b: int| #![trigger p[a], p[b]] 0 <= a < b < p.len() implies p[a].0 != p[b].0 by {
        assert(p[a] == f[a] && p[b] == f[b]);
    }
    lemma_distinct_keys_compatible(p);
    let q = f.take(j + 1);
    assert(q.drop_last() =~= p);
    assert(q.last() == f[j]);
    assert(p[i] == f[i]);
    assert(exists|x: int| 0 <= x < p.len() && (#[trigger] p[x]).0 == f[j].0);
    assert((forall|x: int| 0 <= x < p.len() && (#[trigger] p[x]).0 == f[j].0 ==> p[x].1 == f[j].1) == (f[i].1
        == f[j].1)) by {
        assert forall|x: int| 0 <= x < p.len() && (#[trigger] p[x]).0 == f[j].0 implies x == i by {
            if x < i {
                assert(f[x].0 != f[i].0);
            } else if x > i {
                assert(f[i].0 != f[x].0);
            }
        }
    }
    assert(compatibility_verdict(q) == Some(f[i].1 == f[j].1));
    let rest = f.subrange(j + 1, f.len() as int);
    lemma_verdict_stays(q, rest);
    assert(q + rest =~= f);
}

/// Two uniform buffers at the same (set, binding) whose member lists differ
/// make the check of two requirements fail.
pub proof fn lemma_different_members_incompatible(
    a: DescriptorRequirements,
    b: DescriptorRequirements,
    reqs: Seq<DescriptorRequirements>,
)
    requires
        reqs == seq![a, b],
        a@.len() == 1,
        b@.len() >= 1,
        a@[0].0 == b@[0].0,
        a@[0].1 is UniformBuffer,
        b@[0].1 is UniformBuffer,
        a@[0].1->UniformBuffer_0 != b@[0].1->UniformBuffer_0,
    ensures
        !compatible(all_descriptors(reqs)),
{
    let f = all_descriptors(reqs);
    assert(flat_range(reqs, 0, 0) =~= Seq::<DescriptorView>::empty());
    assert(flat_range(reqs, 0, 1) =~= a@);
    assert(f =~= a@ + b@);
    assert(f[0] == a@[0] && f[1] == b@[0]);
    lemma_first_repeat_decides(f, 0, 1);
}

/// The descriptors of a single requirement are those of the requirement.
pub proof fn lemma_single_requirement(reqs: Seq<DescriptorRequirements>)
    requires
        reqs.len() == 1,
    ensures
        all_descriptors(reqs) == reqs[0]@,
{
    assert(flat_range(reqs, 0, 0) =~= Seq::<DescriptorView>::empty());
    assert(flat_range(reqs, 0, 1) =~= reqs[0]@);
}

/// Combined requirements always pass the compatibility check: each
/// (set, binding) appears in them once.
pub proof fn lemma_combined_compatible(d: Seq<DescriptorView>, f: Seq<DescriptorView>)
    requires
        combines(d, f),
    ensures
        compatible(d),
{
    lemma_distinct_keys_compatible(d);
}

/// The stages that requirements combined give a (set, binding) include
/// the stages of every descriptor at that place.
pub proof fn lemma_combined_stages_cover(f: Seq<DescriptorView>, i: int)
    requires
        0 <= i < f.len(),
    ensures
        stages_of(f, f[i].0) & f[i].2.bits == f[i].2.bits,
    decreases f.len(),
{
    let k = f[i].0;
    let b = f[i].2.bits;
    let p = f.drop_last();
    let u = stages_of(p, k);
    if i == f.len() - 1 {
        assert((u | b) & b == b) by (bit_vector);
    } else {
        lemma_combined_stages_cover(p, i);
        assert(p[i] == f[i]);
        if f.last().0 == k {
            let x = f.last().2.bits;
            assert(u & b == b ==> (u | x) & b == b) by (bit_vector);
        }
    }
}

/// Every descriptor of the requirements reaches the combination: there is
/// one at its (set, binding), whose stages include its stages.
pub proof fn lemma_combine_keeps_every_descriptor(d: Seq<DescriptorView>, f: Seq<DescriptorView>, i: int)
    requires
        combines(d, f),
        0 <= i < f.len(),
    ensures
        has_key(d, f[i].0),
        forall|j: int| 0 <= j < d.len() && (#[trigger] d[j]).0 == f[i].0 ==> d[j].2.bits & f[i].2.bits == f[i].2.bits,
{
    lemma_first_type_found(f, i);
    lemma_combined_stages_cover(f, i);
}

proof fn lemma_first_type_found(f: Seq<DescriptorView>, i: int)
    requires
        0 <= i < f.len(),
    ensures
        first_type(f, f[i].0) is Some,
    decreases f.len(),
{
    if i < f.len() - 1 {
        lemma_first_type_found(f.drop_last(), i);
        assert(f.drop_last()[i] == f[i]);
    }
}


/// Every descriptor a shader module declares is used by the stage of that
/// shader alone.
pub proof fn lemma_declared_stages(d: Seq<DescriptorView>, t: ScanTables, stages: u32)
    requires
        lists_descriptors(d, t, stages),
    ensures
        forall|i: int| 0 <= i < d.len() ==> (#[trigger] d[i]).2.bits == stages,
{
    let order = choose|order: Seq<u32>| #[trigger] listed_in_order(d, t, stages, order);
    assert forall|i: int| 0 <= i < d.len() implies (#[trigger] d[i]).2.bits == stages by {
        assert(Some(d[i]) == descriptor_of(t, order[i], stages));
    }
}

} // verus!
