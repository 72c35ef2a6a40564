use vstd::prelude::*;

use crate::data_type::{DType, DataType};
use crate::enumerations::{Decoration, ExecutionModel, Instruction, StorageClass};
use crate::id_table::{
    array_type, constant_value, data_type_of, decorate, entry_view, float_type, initial_state,
    instruction_at, int_type, is_data_type, matrix_type, members_in_bound, module_state,
    pointer_value, run, spec_word_count, step, struct_type, table_view, variable_value,
    vector_type, Constant, Decorations, IdValue, SpecId, TableState,
};
use crate::shader::{
    accepts_module, describes, insert_uniform, lemma_describes_unique, sets_view, stage_of_model, DescriptorSet, ShaderStage,
};

verus! {

/// Reads the shader stage and the variable layout of SPIR-V modules.
pub struct Interpreter {}

/// Walks the instructions of a module, from word 5 on.
struct InstructionIterator<'a> {
    current_word: usize,
    binary: &'a [u32],
}

impl<'a> InstructionIterator<'a> {
    fn new(binary: &'a [u32]) -> (r: Self)
        ensures
            r.current_word == 5,
            r.binary@ == binary@,
    {
        InstructionIterator { current_word: 5, binary: binary }
    }

    /// Returns the next instruction as its opcode, the word it starts at and
    /// its number of words, and moves past it.
    fn next_instruction(&mut self) -> (r: Option<(Instruction, usize, usize)>)
        requires
            old(self).current_word == old(self).binary@.len() || (old(self).current_word
                < old(self).binary@.len() && old(self).current_word + spec_word_count(
                old(self).binary@[old(self).current_word as int],
            ) <= old(self).binary@.len()),
        ensures
            final(self).binary == old(self).binary,
            old(self).current_word == old(self).binary@.len() ==> r is None && final(self).current_word
                == old(self).current_word,
            old(self).current_word != old(self).binary@.len() ==> {
                let wc = spec_word_count(old(self).binary@[old(self).current_word as int]) as usize;
                &&& r == Some((instruction_at(old(self).binary@, old(self).current_word as int), old(self).current_word, wc))
                &&& final(self).current_word == old(self).current_word + wc
            },
    {
        if self.current_word == self.binary.len() {
            return None;
        }
        let first = self.binary[self.current_word];
        let word_count = (first >> 16) as u16;
        let instruction = (0x00FF & first) as u16;
        let out = Some((Instruction::from_code(instruction), self.current_word, word_count as usize));
        self.current_word = self.current_word + word_count as usize;
        out
    }

    fn is_at_end(&self) -> (r: bool)
        ensures
            r == (self.current_word == self.binary@.len()),
    {
        self.current_word == self.binary.len()
    }
}

/// The stage of the first `OpEntryPoint` at or after word `p`, or `None`
/// where the walk fails before one is found, none is found, or its execution
/// model is unknown.
pub open spec fn entry_stage(s: Seq<u32>, p: int) -> Option<ShaderStage>
    decreases s.len() - p,
{
    if p < 0 || p >= s.len() {
        None
    } else {
        let wc = spec_word_count(s[p]) as int;
        if wc == 0 || p + wc > s.len() {
            None
        } else if instruction_at(s, p) == Instruction::OpEntryPoint {
            if wc >= 2 {
                match ExecutionModel::spec_from_code(s[p + 1]) {
                    Some(model) => Some(stage_of_model(model)),
                    None => None,
                }
            } else {
                None
            }
        } else {
            entry_stage(s, p + wc)
        }
    }
}

/// The stage of the module's first entry point, or `None` where the
/// interpreter would fail to read one.
pub open spec fn spec_shader_stage(s: Seq<u32>) -> Option<ShaderStage> {
    entry_stage(s, 5)
}

/// The data types of the variables of storage class `c`, by ascending id,
/// among the first `n` ids.
pub open spec fn variables_of(ids: Seq<Option<SpecId>>, c: StorageClass, n: int) -> Seq<DType>
    decreases n,
{
    if n <= 0 {
        Seq::empty()
    } else {
        let prev = variables_of(ids, c, n - 1);
        match ids[n - 1] {
            Some(SpecId::Variable(d, c2)) => if c2 == c { prev.push(d) } else { prev },
            _ => prev,
        }
    }
}

/// The uniform variables among the first `n` ids that carry both a set and
/// a binding, keyed by (set, binding); where two share a key, the lower id wins.
pub open spec fn uniforms_of(ids: Seq<Option<SpecId>>, decorations: Seq<Option<Decorations>>, n: int) -> Map<(u32, u32), DType>
    decreases n,
{
    if n <= 0 {
        Map::empty()
    } else {
        let prev = uniforms_of(ids, decorations, n - 1);
        match ids[n - 1] {
            Some(SpecId::Variable(d, StorageClass::Uniform)) => match decorations[n - 1] {
                Some(Decorations { set: Some(s), binding: Some(b) }) => if prev.contains_key((s, b)) {
                    prev
                } else {
                    prev.insert((s, b), d)
                },
                _ => prev,
            },
            _ => prev,
        }
    }
}

/// The model of a list of data types.
pub open spec fn types_view(v: Seq<DataType>) -> Seq<DType> {
    Seq::new(v.len(), |i: int| v[i]@)
}

/// What a layout read from a module whose walk ends in `st` holds: the input
/// and output variables by ascending id, and the uniform variables grouped
/// by set.
pub open spec fn is_layout_of(
    inputs: Seq<DType>,
    outputs: Seq<DType>,
    uniforms: Seq<(u32, Seq<(u32, DType)>)>,
    st: TableState,
) -> bool {
    &&& inputs == variables_of(st.ids, StorageClass::Input, st.ids.len() as int)
    &&& outputs == variables_of(st.ids, StorageClass::Output, st.ids.len() as int)
    &&& describes(uniforms, uniforms_of(st.ids, st.decorations, st.ids.len() as int))
}

/// The layout of a module is unique: two layouts of the same tables are
/// equal, inputs, outputs and uniform sets alike.
pub proof fn lemma_layout_unique(
    inputs1: Seq<DType>,
    outputs1: Seq<DType>,
    uniforms1: Seq<(u32, Seq<(u32, DType)>)>,
    inputs2: Seq<DType>,
    outputs2: Seq<DType>,
    uniforms2: Seq<(u32, Seq<(u32, DType)>)>,
    st: TableState,
)
    requires
        is_layout_of(inputs1, outputs1, uniforms1, st),
        is_layout_of(inputs2, outputs2, uniforms2, st),
    ensures
        inputs1 == inputs2,
        outputs1 == outputs2,
        uniforms1 == uniforms2,
{
    lemma_describes_unique(uniforms1, uniforms2, uniforms_of(st.ids, st.decorations, st.ids.len() as int));
}

/// The model of the tables of the interpreter.
pub open spec fn state_of(ids: Seq<Option<IdValue>>, decorations: Seq<Option<Decorations>>) -> TableState {
    TableState { ids: table_view(ids), decorations }
}

/// Copies a table entry.
fn duplicate_entry(e: &Option<IdValue>) -> (r: Option<IdValue>)
    ensures
        entry_view(r) == entry_view(*e),
{
    match e {
        None => None,
        Some(IdValue::Error) => Some(IdValue::Error),
        Some(IdValue::DataType(d)) => Some(IdValue::DataType(d.duplicate())),
        Some(IdValue::Pointer(d, c)) => Some(IdValue::Pointer(d.duplicate(), *c)),
        Some(IdValue::Constant(c)) => Some(IdValue::Constant(*c)),
        Some(IdValue::Variable(d, c)) => Some(IdValue::Variable(d.duplicate(), *c)),
    }
}

fn exec_int_type(width: u32, signedness: u32) -> (r: IdValue)
    ensures
        r@ == int_type(width, signedness),
{
    if width == 32 {
        if signedness != 0 {
            IdValue::DataType(DataType::Int)
        } else {
            IdValue::DataType(DataType::UInt)
        }
    } else {
        IdValue::Error
    }
}

fn exec_float_type(width: u32) -> (r: IdValue)
    ensures
        r@ == float_type(width),
{
    if width == 32 {
        IdValue::DataType(DataType::Float)
    } else if width == 64 {
        IdValue::DataType(DataType::Double)
    } else {
        IdValue::Error
    }
}

fn exec_vector_type(component: &Option<IdValue>, n: u32) -> (r: IdValue)
    ensures
        r@ == vector_type(entry_view(*component), n),
{
    match component {
        Some(IdValue::DataType(DataType::Float)) => if n == 2 { IdValue::DataType(DataType::Vec2) } else if n == 3 { IdValue::DataType(DataType::Vec3) } else if n == 4 { IdValue::DataType(DataType::Vec4) } else { IdValue::Error },
        Some(IdValue::DataType(DataType::Double)) => if n == 2 { IdValue::DataType(DataType::DVec2) } else if n == 3 { IdValue::DataType(DataType::DVec3) } else if n == 4 { IdValue::DataType(DataType::DVec4) } else { IdValue::Error },
        Some(IdValue::DataType(DataType::Int)) => if n == 2 { IdValue::DataType(DataType::IVec2) } else if n == 3 { IdValue::DataType(DataType::IVec3) } else if n == 4 { IdValue::DataType(DataType::IVec4) } else { IdValue::Error },
        Some(IdValue::DataType(DataType::UInt)) => if n == 2 { IdValue::DataType(DataType::UVec2) } else if n == 3 { IdValue::DataType(DataType::UVec3) } else if n == 4 { IdValue::DataType(DataType::UVec4) } else { IdValue::Error },
        _ => IdValue::Error,
    }
}

fn exec_matrix_type(column: &Option<IdValue>, n: u32) -> (r: IdValue)
    ensures
        r@ == matrix_type(entry_view(*column), n),
{
    match column {
        Some(IdValue::DataType(DataType::Vec2)) => if n == 2 { IdValue::DataType(DataType::Mat2) } else { IdValue::Error },
        Some(IdValue::DataType(DataType::Vec3)) => if n == 3 { IdValue::DataType(DataType::Mat3) } else { IdValue::Error },
        Some(IdValue::DataType(DataType::Vec4)) => if n == 4 { IdValue::DataType(DataType::Mat4) } else { IdValue::Error },
        Some(IdValue::DataType(DataType::DVec2)) => if n == 2 { IdValue::DataType(DataType::DMat2) } else { IdValue::Error },
        Some(IdValue::DataType(DataType::DVec3)) => if n == 3 { IdValue::DataType(DataType::DMat3) } else { IdValue::Error },
        Some(IdValue::DataType(DataType::DVec4)) => if n == 4 { IdValue::DataType(DataType::DMat4) } else { IdValue::Error },
        Some(IdValue::DataType(DataType::IVec2)) => if n == 2 { IdValue::DataType(DataType::IMat2) } else { IdValue::Error },
        Some(IdValue::DataType(DataType::IVec3)) => if n == 3 { IdValue::DataType(DataType::IMat3) } else { IdValue::Error },
        Some(IdValue::DataType(DataType::IVec4)) => if n == 4 { IdValue::DataType(DataType::IMat4) } else { IdValue::Error },
        Some(IdValue::DataType(DataType::UVec2)) => if n == 2 { IdValue::DataType(DataType::UMat2) } else { IdValue::Error },
        Some(IdValue::DataType(DataType::UVec3)) => if n == 3 { IdValue::DataType(DataType::UMat3) } else { IdValue::Error },
        Some(IdValue::DataType(DataType::UVec4)) => if n == 4 { IdValue::DataType(DataType::UMat4) } else { IdValue::Error },
        _ => IdValue::Error,
    }
}

fn exec_array_type(element: &Option<IdValue>, length: &Option<IdValue>) -> (r: IdValue)
    ensures
        r@ == array_type(entry_view(*element), entry_view(*length)),
{
    let data_type = match element {
        Some(IdValue::DataType(d)) => Some(d.duplicate()),
        _ => None,
    };
    let count: Option<usize> = match length {
        Some(IdValue::Constant(Constant::Int(l))) => Some(*l as usize),
        Some(IdValue::Constant(Constant::UInt(l))) => Some(*l as usize),
        _ => None,
    };
    match (data_type, count) {
        (Some(d), Some(n)) => IdValue::DataType(DataType::Array { element_type: Box::new(d), count: n }),
        _ => IdValue::Error,
    }
}

fn exec_struct_type(ids: &Vec<Option<IdValue>>, binary: &[u32], p: usize, wc: usize) -> (r: IdValue)
    requires
        2 <= wc,
        p + wc <= binary@.len(),
        members_in_bound(binary@, p as int, 2, wc as int, ids@.len() as int),
    ensures
        r@ == struct_type(table_view(ids@), binary@, p as int, wc as int),
{
    let _len = binary.len();
    let ghost t = table_view(ids@);
    let mut k: usize = 2;
    while k < wc
        invariant
            2 <= k <= wc,
            p + wc <= binary@.len(),
            _len == binary@.len(),
            t == table_view(ids@),
            members_in_bound(binary@, p as int, 2, wc as int, ids@.len() as int),
            forall|x: int| 2 <= x < k ==> is_data_type(#[trigger] t[binary@[p + x] as int]),
        decreases wc - k,
    {
        assert(binary@[p + k] < ids@.len());
        let id = binary[p + k] as usize;
        match &ids[id] {
            Some(IdValue::DataType(_)) => {},
            _ => {
                assert(!is_data_type(t[binary@[p + k] as int]));
                return IdValue::Error;
            },
        }
        k = k + 1;
    }
    let mut members: Vec<DataType> = Vec::new();
    let mut k: usize = 2;
    while k < wc
        invariant
            2 <= k <= wc,
            p + wc <= binary@.len(),
            _len == binary@.len(),
            t == table_view(ids@),
            members_in_bound(binary@, p as int, 2, wc as int, ids@.len() as int),
            forall|x: int| 2 <= x < wc ==> is_data_type(#[trigger] t[binary@[p + x] as int]),
            members.len() == k - 2,
            forall|x: int| 0 <= x < k - 2 ==> members[x]@ == data_type_of(t[binary@[p + 2 + x] as int]),
        decreases wc - k,
    {
        assert(binary@[p + k] < ids@.len());
        let id = binary[p + k] as usize;
        assert(is_data_type(t[binary@[p + k] as int]));
        match &ids[id] {
            Some(IdValue::DataType(d)) => {
                members.push(d.duplicate());
            },
            _ => {
                assert(false);
            },
        }
        k = k + 1;
    }
    let r = IdValue::DataType(DataType::Struct { members });
    assert(r@ == struct_type(t, binary@, p as int, wc as int)) by {
        if let SpecId::DataType(DType::Struct { members: rm }) = r@ {
            assert(rm =~= Seq::new((wc - 2) as nat, |x: int| data_type_of(t[binary@[p + 2 + x] as int])));
        }
    }
    r
}

fn exec_constant_value(ty: &Option<IdValue>, binary: &[u32], p: usize, wc: usize) -> (r: IdValue)
    requires
        p + wc <= binary@.len(),
        constant_value(entry_view(*ty), binary@, p as int, wc as int) is Some,
    ensures
        Some(r@) == constant_value(entry_view(*ty), binary@, p as int, wc as int),
{
    let _len = binary.len();
    match ty {
        Some(IdValue::DataType(DataType::Float)) => IdValue::Constant(Constant::Float(binary[p + 3])),
        Some(IdValue::DataType(DataType::Double)) => IdValue::Constant(Constant::Double(binary[p + 3], binary[p + 4])),
        Some(IdValue::DataType(DataType::Int)) => IdValue::Constant(Constant::Int(binary[p + 3] as i32)),
        Some(IdValue::DataType(DataType::UInt)) => IdValue::Constant(Constant::UInt(binary[p + 3])),
        _ => IdValue::Error,
    }
}

fn exec_pointer_value(pointee: &Option<IdValue>, class_word: u32) -> (r: IdValue)
    requires
        pointer_value(entry_view(*pointee), class_word) is Some,
    ensures
        Some(r@) == pointer_value(entry_view(*pointee), class_word),
{
    match pointee {
        Some(IdValue::DataType(d)) => IdValue::Pointer(d.duplicate(), StorageClass::from_code(class_word)),
        _ => IdValue::Error,
    }
}

fn exec_variable_value(pointer: &Option<IdValue>, binary: &[u32], p: usize, wc: usize) -> (r: IdValue)
    requires
        p + wc <= binary@.len(),
        variable_value(entry_view(*pointer), binary@, p as int, wc as int) is Some,
    ensures
        Some(r@) == variable_value(entry_view(*pointer), binary@, p as int, wc as int),
{
    let _len = binary.len();
    match pointer {
        Some(IdValue::Pointer(d, c)) => {
            let c2 = StorageClass::from_code(binary[p + 3]);
            if *c != c2 {
                IdValue::Error
            } else {
                IdValue::Variable(d.duplicate(), *c)
            }
        },
        _ => IdValue::Error,
    }
}

fn exec_decorate(cur: Option<Decorations>, binary: &[u32], p: usize, wc: usize) -> (r: Decorations)
    requires
        3 <= wc,
        p + wc <= binary@.len(),
        decorate(cur, binary@, p as int, wc as int) is Some,
    ensures
        Some(r) == decorate(cur, binary@, p as int, wc as int),
{
    let _len = binary.len();
    let mut d = match cur {
        Some(d) => d,
        None => Decorations { set: None, binding: None },
    };
    match Decoration::from_code(binary[p + 2]) {
        Decoration::Binding => {
            d.binding = Some(binary[p + 3]);
        },
        Decoration::DescriptorSet => {
            d.set = Some(binary[p + 3]);
        },
        Decoration::Error => {},
    }
    d
}

/// Stores `v` as the entry of `id`.
fn set_entry(ids: &mut Vec<Option<IdValue>>, id: u32, v: IdValue)
    requires
        id < old(ids)@.len(),
    ensures
        table_view(final(ids)@) == table_view(old(ids)@).update(id as int, Some(v@)),
        final(ids)@.len() == old(ids)@.len(),
{
    let ghost vv = v@;
    ids.set(id as usize, Some(v));
    assert(table_view(ids@) =~= table_view(old(ids)@).update(id as int, Some(vv)));
}

/// Applies the instruction of `wc` words at word `p` to the tables.
fn apply_instruction(
    binary: &[u32],
    p: usize,
    wc: usize,
    instruction: Instruction,
    ids: &mut Vec<Option<IdValue>>,
    decorations: &mut Vec<Option<Decorations>>,
    types_only: bool,
)
    requires
        0 < wc,
        p + wc <= binary@.len(),
        instruction == instruction_at(binary@, p as int),
        old(ids)@.len() == old(decorations)@.len(),
        step(binary@, p as int, wc as int, state_of(old(ids)@, old(decorations)@), types_only) is Some,
    ensures
        final(ids)@.len() == old(ids)@.len(),
        final(decorations)@.len() == old(decorations)@.len(),
        Some(state_of(final(ids)@, final(decorations)@)) == step(
            binary@,
            p as int,
            wc as int,
            state_of(old(ids)@, old(decorations)@),
            types_only,
        ),
{
    let _len = binary.len();
    let ghost st = state_of(ids@, decorations@);
    let ghost s = binary@;
    assert(st.ids.len() == ids@.len());
    match instruction {
        Instruction::OpDecorate => {
            if !types_only {
                let id = binary[p + 1];
                let d = exec_decorate(decorations[id as usize], binary, p, wc);
                decorations.set(id as usize, Some(d));
                assert(state_of(ids@, decorations@) == step(s, p as int, wc as int, st, types_only).unwrap());
            }
        },
        Instruction::OpTypeInt => {
            let v = exec_int_type(binary[p + 2], binary[p + 3]);
            set_entry(ids, binary[p + 1], v);
        },
        Instruction::OpTypeFloat => {
            let v = exec_float_type(binary[p + 2]);
            set_entry(ids, binary[p + 1], v);
        },
        Instruction::OpTypeVector => {
            let v = exec_vector_type(&ids[binary[p + 2] as usize], binary[p + 3]);
            set_entry(ids, binary[p + 1], v);
        },
        Instruction::OpTypeMatrix => {
            let v = exec_matrix_type(&ids[binary[p + 2] as usize], binary[p + 3]);
            set_entry(ids, binary[p + 1], v);
        },
        Instruction::OpTypeArray => {
            if !types_only {
                let v = exec_array_type(&ids[binary[p + 2] as usize], &ids[binary[p + 3] as usize]);
                set_entry(ids, binary[p + 1], v);
            }
        },
        Instruction::OpTypeStruct => {
            let v = exec_struct_type(ids, binary, p, wc);
            set_entry(ids, binary[p + 1], v);
        },
        Instruction::OpTypePointer => {
            if !types_only {
                let v = exec_pointer_value(&ids[binary[p + 3] as usize], binary[p + 2]);
                set_entry(ids, binary[p + 1], v);
            }
        },
        Instruction::OpConstant => {
            if !types_only {
                let v = exec_constant_value(&ids[binary[p + 1] as usize], binary, p, wc);
                set_entry(ids, binary[p + 2], v);
            }
        },
        Instruction::OpVariable => {
            if !types_only {
                let v = exec_variable_value(&ids[binary[p + 1] as usize], binary, p, wc);
                set_entry(ids, binary[p + 2], v);
            }
        },
        Instruction::OpNop => {},
        Instruction::OpEntryPoint => {},
    }
}

/// Runs every instruction of the module over fresh tables.
fn build_tables(binary: &[u32], types_only: bool) -> (r: (Vec<Option<IdValue>>, Vec<Option<Decorations>>))
    requires
        module_state(binary@, types_only) is Some,
    ensures
        r.0@.len() == r.1@.len(),
        Some(state_of(r.0@, r.1@)) == module_state(binary@, types_only),
{
    let bound = binary[3];
    let mut ids: Vec<Option<IdValue>> = Vec::new();
    let mut decorations: Vec<Option<Decorations>> = Vec::new();
    let mut i: u32 = 0;
    while i < bound
        invariant
            i <= bound,
            ids@.len() == i,
            decorations@.len() == i,
            forall|j: int| 0 <= j < i ==> ids@[j] is None,
            forall|j: int| 0 <= j < i ==> decorations@[j] is None,
        decreases bound - i,
    {
        ids.push(None);
        decorations.push(None);
        i = i + 1;
    }
    assert(state_of(ids@, decorations@).ids =~= initial_state(bound).ids);
    assert(state_of(ids@, decorations@).decorations =~= initial_state(bound).decorations);
    let ghost s = binary@;
    let mut iter = InstructionIterator::new(binary);
    while !iter.is_at_end()
        invariant
            iter.binary@ == s,
            s == binary@,
            iter.current_word <= s.len(),
            ids@.len() == decorations@.len(),
            run(s, iter.current_word as int, state_of(ids@, decorations@), types_only) == module_state(s, types_only),
            module_state(s, types_only) is Some,
        decreases s.len() - iter.current_word,
    {
        let ghost p = iter.current_word as int;
        let ghost st = state_of(ids@, decorations@);
        proof {
            let wc = spec_word_count(s[p]) as int;
            assert(run(s, p, st, types_only) is Some);
            assert(wc > 0 && p + wc <= s.len());
            assert(step(s, p, wc, st, types_only) is Some);
        }
        let next = iter.next_instruction();
        match next {
            Some((instruction, start, word_count)) => {
                apply_instruction(binary, start, word_count, instruction, &mut ids, &mut decorations, types_only);
            },
            None => {
                assert(false);
            },
        }
    }
    (ids, decorations)
}

/// Whether every member id of the `OpTypeStruct` of `wc` words at word `p`
/// is below `bound`.
fn members_below(binary: &[u32], p: usize, wc: usize, bound: usize) -> (r: bool)
    requires
        2 <= wc,
        p + wc <= binary@.len(),
    ensures
        r == members_in_bound(binary@, p as int, 2, wc as int, bound as int),
{
    let ghost s = binary@;
    let len = binary.len();
    let mut k: usize = 2;
    while k < wc
        invariant
            2 <= k <= wc,
            p + wc <= len,
            len == s.len(),
            s == binary@,
            members_in_bound(s, p as int, 2, k as int, bound as int),
        decreases wc - k,
    {
        if binary[p + k] as usize >= bound {
            assert(!(s[p + k] < bound));
            return false;
        }
        k = k + 1;
    }
    true
}

/// Whether the interpreter can apply the instruction of `wc` words at word
/// `p` to the tables.
fn step_ok(
    binary: &[u32],
    p: usize,
    wc: usize,
    ids: &Vec<Option<IdValue>>,
    decorations: &Vec<Option<Decorations>>,
    types_only: bool,
) -> (r: bool)
    requires
        0 < wc,
        p + wc <= binary@.len(),
        ids@.len() == decorations@.len(),
    ensures
        r == step(binary@, p as int, wc as int, state_of(ids@, decorations@), types_only) is Some,
{
    let ghost s = binary@;
    let ghost st = state_of(ids@, decorations@);
    let bound = ids.len();
    assert(st.ids.len() == bound);
    let instruction = Instruction::from_code((0x00FF & binary[p]) as u16);
    assert(instruction == instruction_at(s, p as int));
    match instruction {
        Instruction::OpDecorate => {
            if types_only {
                true
            } else if wc < 3 || binary[p + 1] as usize >= bound {
                false
            } else {
                match Decoration::from_code(binary[p + 2]) {
                    Decoration::Error => true,
                    _ => wc >= 4,
                }
            }
        },
        Instruction::OpTypeInt => wc >= 4 && (binary[p + 1] as usize) < bound,
        Instruction::OpTypeFloat => wc >= 3 && (binary[p + 1] as usize) < bound,
        Instruction::OpTypeVector => wc >= 4 && (binary[p + 1] as usize) < bound && (binary[p + 2] as usize) < bound,
        Instruction::OpTypeMatrix => wc >= 4 && (binary[p + 1] as usize) < bound && (binary[p + 2] as usize) < bound,
        Instruction::OpTypeArray => {
            types_only || (wc >= 4 && (binary[p + 1] as usize) < bound && (binary[p + 2] as usize) < bound && (
            binary[p + 3] as usize) < bound)
        },
        Instruction::OpTypeStruct => {
            wc >= 2 && (binary[p + 1] as usize) < bound && members_below(binary, p, wc, bound)
        },
        Instruction::OpTypePointer => {
            if types_only {
                true
            } else if wc < 4 || binary[p + 1] as usize >= bound || binary[p + 3] as usize >= bound {
                false
            } else {
                match &ids[binary[p + 3] as usize] {
                    Some(IdValue::DataType(_)) => 1 <= binary[p + 2] && binary[p + 2] <= 3,
                    _ => true,
                }
            }
        },
        Instruction::OpConstant => {
            if types_only {
                true
            } else if wc < 3 || binary[p + 1] as usize >= bound || binary[p + 2] as usize >= bound {
                false
            } else {
                match &ids[binary[p + 1] as usize] {
                    Some(IdValue::DataType(DataType::Float)) => wc >= 4,
                    Some(IdValue::DataType(DataType::Double)) => wc >= 5,
                    Some(IdValue::DataType(DataType::Int)) => wc >= 4,
                    Some(IdValue::DataType(DataType::UInt)) => wc >= 4,
                    _ => true,
                }
            }
        },
        Instruction::OpVariable => {
            if types_only {
                true
            } else if wc < 3 || binary[p + 1] as usize >= bound || binary[p + 2] as usize >= bound {
                false
            } else {
                match &ids[binary[p + 1] as usize] {
                    Some(IdValue::Pointer(_, _)) => wc >= 4 && 1 <= binary[p + 3] && binary[p + 3] <= 3,
                    _ => true,
                }
            }
        },
        Instruction::OpNop => true,
        Instruction::OpEntryPoint => true,
    }
}

/// Whether the interpreter can read the whole module into its tables.
fn tables_readable(binary: &[u32], types_only: bool) -> (r: bool)
    ensures
        r == module_state(binary@, types_only) is Some,
{
    if binary.len() < 5 {
        return false;
    }
    let bound = binary[3];
    let mut ids: Vec<Option<IdValue>> = Vec::new();
    let mut decorations: Vec<Option<Decorations>> = Vec::new();
    let mut i: u32 = 0;
    while i < bound
        invariant
            i <= bound,
            ids@.len() == i,
            decorations@.len() == i,
            forall|j: int| 0 <= j < i ==> ids@[j] is None,
            forall|j: int| 0 <= j < i ==> decorations@[j] is None,
        decreases bound - i,
    {
        ids.push(None);
        decorations.push(None);
        i = i + 1;
    }
    assert(state_of(ids@, decorations@).ids =~= initial_state(bound).ids);
    assert(state_of(ids@, decorations@).decorations =~= initial_state(bound).decorations);
    let ghost s = binary@;
    let n = binary.len();
    let mut p: usize = 5;
    while p < n
        invariant
            n == s.len(),
            s == binary@,
            p <= n,
            ids@.len() == decorations@.len(),
            run(s, p as int, state_of(ids@, decorations@), types_only) == module_state(s, types_only),
        decreases n - p,
    {
        let wc = (binary[p] >> 16) as u16 as usize;
        assert(wc == spec_word_count(s[p as int]));
        if wc == 0 || wc > n - p {
            return false;
        }
        if !step_ok(binary, p, wc, &ids, &decorations, types_only) {
            return false;
        }
        let instruction = Instruction::from_code((0x00FF & binary[p]) as u16);
        apply_instruction(binary, p, wc, instruction, &mut ids, &mut decorations, types_only);
        p = p + wc;
    }
    true
}

/// Whether the walk from word `p` finds an entry point of a known execution
/// model.
fn stage_readable(binary: &[u32]) -> (r: bool)
    ensures
        r == spec_shader_stage(binary@) is Some,
{
    let ghost s = binary@;
    let n = binary.len();
    let mut p: usize = 5;
    while p < n
        invariant
            n == s.len(),
            s == binary@,
            5 <= p,
            entry_stage(s, p as int) == spec_shader_stage(s),
        decreases n - p,
    {
        let wc = (binary[p] >> 16) as u16 as usize;
        assert(wc == spec_word_count(s[p as int]));
        if wc == 0 || wc > n - p {
            return false;
        }
        let instruction = Instruction::from_code((0x00FF & binary[p]) as u16);
        assert(instruction == instruction_at(s, p as int));
        if instruction == Instruction::OpEntryPoint {
            return wc >= 2 && binary[p + 1] <= 4 && (binary[p + 1] == 0 || binary[p + 1] == 4);
        }
        p = p + wc;
    }
    false
}

impl Interpreter {
    /// Whether the interpreter can read the module: it finds the stage of
    /// its first entry point and can read every instruction into its tables.
    pub fn accepts(binary: &[u32]) -> (r: bool)
        ensures
            r == accepts_module(binary@),
    {
        stage_readable(binary) && tables_readable(binary, false)
    }

    /// Whether the interpreter can read the declared types of the module.
    pub fn reads_types(binary: &[u32]) -> (r: bool)
        ensures
            r == module_state(binary@, true) is Some,
    {
        tables_readable(binary, true)
    }
}

impl Interpreter {
    /// The stage of the module: that of its first `OpEntryPoint`.
    pub fn get_shader_stage(binary: &[u32]) -> (r: ShaderStage)
        requires
            spec_shader_stage(binary@) is Some,
        ensures
            spec_shader_stage(binary@) == Some(r),
    {
        let ghost s = binary@;
        let mut iter = InstructionIterator::new(binary);
        while !iter.is_at_end()
            invariant
                iter.binary@ == s,
                s == binary@,
                5 <= iter.current_word <= s.len(),
                entry_stage(s, iter.current_word as int) == spec_shader_stage(s),
                spec_shader_stage(s) is Some,
            decreases s.len() - iter.current_word,
        {
            proof {
                let p = iter.current_word as int;
                let wc = spec_word_count(s[p]) as int;
                assert(entry_stage(s, p) is Some);
                assert(wc > 0 && p + wc <= s.len());
            }
            let next = iter.next_instruction();
            match next {
                Some((instruction, start, word_count)) => {
                    if instruction == Instruction::OpEntryPoint {
                        let model = ExecutionModel::from_code(binary[start + 1]);
                        return ShaderStage::from(model);
                    }
                },
                None => {
                    assert(false);
                },
            }
        }
        assert(false);
        ShaderStage::Unknown
    }
}


impl Interpreter {
    /// The variable layout of the module: the data types of its input
    /// variables and of its output variables, by ascending id, and its
    /// uniform variables that carry both a set and a binding, grouped by set
    /// in ascending order, each set's bindings in ascending order; where two
    /// uniform variables share a set and a binding, the one with the lower id
    /// is kept.
    pub fn get_variable_layout(binary: &[u32]) -> (r: (Vec<DataType>, Vec<DataType>, Vec<DescriptorSet>))
        requires
            module_state(binary@, false) is Some,
        ensures
            is_layout_of(
                types_view(r.0@),
                types_view(r.1@),
                sets_view(r.2@),
                module_state(binary@, false).unwrap(),
            ),
    {
        let (ids, decorations) = build_tables(binary, false);
        let ghost st = state_of(ids@, decorations@);
        let mut inputs: Vec<DataType> = Vec::new();
        let mut outputs: Vec<DataType> = Vec::new();
        let mut uniforms: Vec<DescriptorSet> = Vec::new();
        assert(describes(sets_view(uniforms@), uniforms_of(st.ids, st.decorations, 0)));
        assert(types_view(inputs@) =~= variables_of(st.ids, StorageClass::Input, 0));
        assert(types_view(outputs@) =~= variables_of(st.ids, StorageClass::Output, 0));
        let mut i: usize = 0;
        while i < ids.len()
            invariant
                i <= ids@.len(),
                ids@.len() == decorations@.len(),
                st == state_of(ids@, decorations@),
                types_view(inputs@) == variables_of(st.ids, StorageClass::Input, i as int),
                types_view(outputs@) == variables_of(st.ids, StorageClass::Output, i as int),
                describes(sets_view(uniforms@), uniforms_of(st.ids, st.decorations, i as int)),
            decreases ids@.len() - i,
        {
            let ghost m = uniforms_of(st.ids, st.decorations, i as int);
            assert(st.ids[i as int] == entry_view(ids@[i as int]));
            match &ids[i] {
                Some(IdValue::Variable(d, StorageClass::Input)) => {
                    let ghost old_inputs = inputs@;
                    inputs.push(d.duplicate());
                    assert(types_view(inputs@) =~= types_view(old_inputs).push(d@));
                },
                Some(IdValue::Variable(d, StorageClass::Output)) => {
                    let ghost old_outputs = outputs@;
                    outputs.push(d.duplicate());
                    assert(types_view(outputs@) =~= types_view(old_outputs).push(d@));
                },
                Some(IdValue::Variable(d, StorageClass::Uniform)) => {
                    match decorations[i] {
                        Some(Decorations { set: Some(set), binding: Some(binding) }) => {
                            insert_uniform(&mut uniforms, set, binding, d.duplicate(), Ghost(m));
                        },
                        _ => {},
                    }
                },
                _ => {},
            }
            i = i + 1;
        }
        (inputs, outputs, uniforms)
    }

    /// The id table of the declared scalar, vector, matrix and struct types
    /// of the module; every other instruction is passed over.
    pub fn get_type_table(binary: &[u32]) -> (r: Vec<Option<IdValue>>)
        requires
            module_state(binary@, true) is Some,
        ensures
            table_view(r@) == module_state(binary@, true).unwrap().ids,
    {
        let (ids, _decorations) = build_tables(binary, true);
        ids
    }
}

} // verus!
