use render_engine::data_type::DataType;
use render_engine::enumerations::{Decoration, ExecutionModel, Instruction, StorageClass};
use render_engine::id_table::{Constant, IdValue};
use render_engine::interpreter::Interpreter;
use render_engine::shader::{ShaderStage, SpirvShader};

/// `gl_Position = vec4(0.0, 0.0, 0.0, 1.0);` compiled for the vertex stage.
const VERTEX_BINARY: [u32; 188] = [
    0x07230203, 0x00010000, 0x000D000B, 0x00000015, 0x00000000,
    0x00020011, 0x00000001, 0x0006000B, 0x00000001, 0x4C534C47,
    0x6474732E, 0x3035342E, 0x00000000, 0x0003000E, 0x00000000,
    0x00000001, 0x0006000F, 0x00000000, 0x00000004, 0x6E69616D,
    0x00000000, 0x0000000D, 0x00030003, 0x00000002, 0x000001CC,
    0x000A0004, 0x475F4C47, 0x4C474F4F, 0x70635F45, 0x74735F70,
    0x5F656C79, 0x656E696C, 0x7269645F, 0x69746365, 0x00006576,
    0x00080004, 0x475F4C47, 0x4C474F4F, 0x6E695F45, 0x64756C63,
    0x69645F65, 0x74636572, 0x00657669, 0x00040005, 0x00000004,
    0x6E69616D, 0x00000000, 0x00060005, 0x0000000B, 0x505F6C67,
    0x65567265, 0x78657472, 0x00000000, 0x00060006, 0x0000000B,
    0x00000000, 0x505F6C67, 0x7469736F, 0x006E6F69, 0x00070006,
    0x0000000B, 0x00000001, 0x505F6C67, 0x746E696F, 0x657A6953,
    0x00000000, 0x00070006, 0x0000000B, 0x00000002, 0x435F6C67,
    0x4470696C, 0x61747369, 0x0065636E, 0x00070006, 0x0000000B,
    0x00000003, 0x435F6C67, 0x446C6C75, 0x61747369, 0x0065636E,
    0x00030005, 0x0000000D, 0x00000000, 0x00030047, 0x0000000B,
    0x00000002, 0x00050048, 0x0000000B, 0x00000000, 0x0000000B,
    0x00000000, 0x00050048, 0x0000000B, 0x00000001, 0x0000000B,
    0x00000001, 0x00050048, 0x0000000B, 0x00000002, 0x0000000B,
    0x00000003, 0x00050048, 0x0000000B, 0x00000003, 0x0000000B,
    0x00000004, 0x00020013, 0x00000002, 0x00030021, 0x00000003,
    0x00000002, 0x00030016, 0x00000006, 0x00000020, 0x00040017,
    0x00000007, 0x00000006, 0x00000004, 0x00040015, 0x00000008,
    0x00000020, 0x00000000, 0x0004002B, 0x00000008, 0x00000009,
    0x00000001, 0x0004001C, 0x0000000A, 0x00000006, 0x00000009,
    0x0006001E, 0x0000000B, 0x00000007, 0x00000006, 0x0000000A,
    0x0000000A, 0x00040020, 0x0000000C, 0x00000003, 0x0000000B,
    0x0004003B, 0x0000000C, 0x0000000D, 0x00000003, 0x00040015,
    0x0000000E, 0x00000020, 0x00000001, 0x0004002B, 0x0000000E,
    0x0000000F, 0x00000000, 0x0004002B, 0x00000006, 0x00000010,
    0x00000000, 0x0004002B, 0x00000006, 0x00000011, 0x3F800000,
    0x0007002C, 0x00000007, 0x00000012, 0x00000010, 0x00000010,
    0x00000010, 0x00000011, 0x00040020, 0x00000013, 0x00000003,
    0x00000007, 0x00050036, 0x00000002, 0x00000004, 0x00000000,
    0x00000003, 0x000200F8, 0x00000005, 0x00050041, 0x00000013,
    0x00000014, 0x0000000D, 0x0000000F, 0x0003003E, 0x00000014,
    0x00000012, 0x000100FD, 0x00010038,
];

const PER_VERTEX: &str =
    "Struct { members: [Vec4, Float, Array { element_type: Float, count: 1 }, Array { element_type: Float, count: 1 }] }";

/// A fragment module with one vec4 input, one vec4 output and two uniform
/// buffers in set 0: `{ mat4 }` at binding 1 (id 10) and
/// `{ float, vec3 }` at binding 0 (id 11).
fn fragment_module() -> Vec<u32> {
    vec![
        0x07230203, 0x00010000, 0, 20, 0,
        // OpEntryPoint Fragment %1 "main"
        0x0005000F, 4, 1, 0x6E69616D, 0,
        // OpDecorate %10 DescriptorSet 0 / Binding 1
        0x00040047, 10, 0x22, 0,
        0x00040047, 10, 0x21, 1,
        // OpDecorate %11 DescriptorSet 0 / Binding 0
        0x00040047, 11, 0x22, 0,
        0x00040047, 11, 0x21, 0,
        // %2 = float, %3 = vec4, %4 = mat4, %5 = struct { mat4 }
        0x00030016, 2, 32,
        0x00040017, 3, 2, 4,
        0x00040018, 4, 3, 4,
        0x0003001E, 5, 4,
        // %6 = pointer Uniform %5, %10 = variable
        0x00040020, 6, 2, 5,
        0x0004003B, 6, 10, 2,
        // %7 = vec3, %8 = struct { float, vec3 }, %9 = pointer Uniform %8, %11 = variable
        0x00040017, 7, 2, 3,
        0x0004001E, 8, 2, 7,
        0x00040020, 9, 2, 8,
        0x0004003B, 9, 11, 2,
        // %12 = pointer Input vec4, %13 = input variable
        0x00040020, 12, 1, 3,
        0x0004003B, 12, 13, 1,
        // %14 = pointer Output vec4, %15 = output variable
        0x00040020, 14, 3, 3,
        0x0004003B, 14, 15, 3,
    ]
}

/// A vertex module with uniform buffers at (set 1, binding 0) (id 10),
/// (set 0, binding 2) (id 11) and again at (set 0, binding 2) (id 12, of
/// another type).
fn uniforms_module() -> Vec<u32> {
    vec![
        0x07230203, 0x00010000, 0, 16, 0,
        0x0005000F, 0, 1, 0x6E69616D, 0,
        0x00040047, 10, 0x22, 1,
        0x00040047, 10, 0x21, 0,
        0x00040047, 11, 0x22, 0,
        0x00040047, 11, 0x21, 2,
        0x00040047, 12, 0x22, 0,
        0x00040047, 12, 0x21, 2,
        // %2 = float, %3 = int, %4 = struct { float }, %5 = struct { int }
        0x00030016, 2, 32,
        0x00040015, 3, 32, 1,
        0x0003001E, 4, 2,
        0x0003001E, 5, 3,
        0x00040020, 6, 2, 4,
        0x00040020, 7, 2, 5,
        0x0004003B, 6, 10, 2,
        0x0004003B, 6, 11, 2,
        0x0004003B, 7, 12, 2,
    ]
}

fn debug_all(types: &[DataType]) -> Vec<String> {
    types.iter().map(|t| format!("{:?}", t)).collect()
}

#[test]
fn vertex_binary_stage() {
    assert_eq!(Interpreter::get_shader_stage(&VERTEX_BINARY), ShaderStage::Vertex);
}

#[test]
fn fragment_module_stage() {
    assert_eq!(Interpreter::get_shader_stage(&fragment_module()), ShaderStage::Fragment);
}

#[test]
fn vertex_binary_layout() {
    let (inputs, outputs, uniforms) = Interpreter::get_variable_layout(&VERTEX_BINARY);
    assert!(inputs.is_empty());
    assert_eq!(debug_all(&outputs), vec![PER_VERTEX.to_string()]);
    assert!(uniforms.is_empty());
}

#[test]
fn fragment_module_layout() {
    let (inputs, outputs, uniforms) = Interpreter::get_variable_layout(&fragment_module());
    assert_eq!(debug_all(&inputs), vec!["Vec4".to_string()]);
    assert_eq!(debug_all(&outputs), vec!["Vec4".to_string()]);
    assert_eq!(uniforms.len(), 1);
    assert_eq!(uniforms[0].set, 0);
    assert_eq!(uniforms[0].bindings.len(), 2);
    assert_eq!(uniforms[0].bindings[0].binding, 0);
    assert_eq!(format!("{:?}", uniforms[0].bindings[0].data_type), "Struct { members: [Float, Vec3] }");
    assert_eq!(uniforms[0].bindings[1].binding, 1);
    assert_eq!(format!("{:?}", uniforms[0].bindings[1].data_type), "Struct { members: [Mat4] }");
}

#[test]
fn uniform_sets_sorted_and_first_declared_kept() {
    let (inputs, outputs, uniforms) = Interpreter::get_variable_layout(&uniforms_module());
    assert!(inputs.is_empty());
    assert!(outputs.is_empty());
    assert_eq!(uniforms.len(), 2);
    assert_eq!(uniforms[0].set, 0);
    assert_eq!(uniforms[0].bindings.len(), 1);
    assert_eq!(uniforms[0].bindings[0].binding, 2);
    assert_eq!(format!("{:?}", uniforms[0].bindings[0].data_type), "Struct { members: [Float] }");
    assert_eq!(uniforms[1].set, 1);
    assert_eq!(uniforms[1].bindings.len(), 1);
    assert_eq!(uniforms[1].bindings[0].binding, 0);
}

#[test]
fn type_table_of_vertex_binary() {
    let table = Interpreter::get_type_table(&VERTEX_BINARY);
    assert_eq!(table.len(), 0x15);
    assert!(matches!(&table[6], Some(IdValue::DataType(DataType::Float))));
    assert!(matches!(&table[7], Some(IdValue::DataType(DataType::Vec4))));
    assert!(matches!(&table[8], Some(IdValue::DataType(DataType::UInt))));
    assert!(matches!(&table[0xE], Some(IdValue::DataType(DataType::Int))));
    // Arrays, constants and variables are passed over, so the struct that
    // holds an array is not a known type.
    assert!(table[9].is_none());
    assert!(table[0xA].is_none());
    assert!(matches!(&table[0xB], Some(IdValue::Error)));
    assert!(table[0xD].is_none());
}

#[test]
fn spirv_shader_reads_module() {
    let binary = fragment_module();
    let shader = SpirvShader::from_binary(binary.clone());
    assert_eq!(shader.get_binary(), binary.as_slice());
    assert_eq!(*shader.get_stage(), ShaderStage::Fragment);
    assert_eq!(debug_all(shader.get_inputs()), vec!["Vec4".to_string()]);
    assert_eq!(debug_all(shader.get_outputs()), vec!["Vec4".to_string()]);
    assert_eq!(shader.get_uniforms().len(), 1);
    assert_eq!(shader.get_uniforms()[0].bindings.len(), 2);
}

#[test]
fn discard_binary_keeps_layout() {
    let shader = SpirvShader::from_binary(VERTEX_BINARY.to_vec());
    let info = shader.discard_binary();
    assert_eq!(*info.get_stage(), ShaderStage::Vertex);
    assert!(info.get_inputs().is_empty());
    assert_eq!(debug_all(info.get_outputs()), vec![PER_VERTEX.to_string()]);
    assert!(info.get_uniforms().is_empty());
}

#[test]
fn enumeration_codes() {
    assert_eq!(ExecutionModel::from_code(0), ExecutionModel::Vertex);
    assert_eq!(ExecutionModel::from_code(4), ExecutionModel::Fragment);
    assert_eq!(StorageClass::from_code(1), StorageClass::Input);
    assert_eq!(StorageClass::from_code(2), StorageClass::Uniform);
    assert_eq!(StorageClass::from_code(3), StorageClass::Output);
    assert_eq!(Decoration::from_code(0x21), Decoration::Binding);
    assert_eq!(Decoration::from_code(0x22), Decoration::DescriptorSet);
    assert_eq!(Decoration::from_code(0x0B), Decoration::Error);
    assert_eq!(Instruction::from_code(0x3B), Instruction::OpVariable);
    assert_eq!(Instruction::from_code(0x0F), Instruction::OpEntryPoint);
    assert_eq!(Instruction::from_code(0x41), Instruction::OpNop);
}

#[test]
fn stage_from_execution_model() {
    assert_eq!(ShaderStage::from(ExecutionModel::Vertex), ShaderStage::Vertex);
    assert_eq!(ShaderStage::from(ExecutionModel::Fragment), ShaderStage::Fragment);
}

#[test]
fn constants_compare_by_value() {
    assert_eq!(Constant::UInt(1), Constant::UInt(1));
    assert_ne!(Constant::UInt(1), Constant::Int(1));
}

#[test]
fn data_type_clone_is_deep() {
    let t = DataType::Array {
        element_type: Box::new(DataType::Struct { members: vec![DataType::Mat3, DataType::IVec2] }),
        count: 3,
    };
    let c = t.clone();
    assert_eq!(format!("{:?}", c), format!("{:?}", t));
    assert_eq!(
        format!("{:?}", c),
        "Array { element_type: Struct { members: [Mat3, IVec2] }, count: 3 }"
    );
}

#[test]
fn interpreter_accepts_modules() {
    assert!(Interpreter::accepts(&VERTEX_BINARY));
    assert!(Interpreter::accepts(&fragment_module()));
    assert!(Interpreter::reads_types(&VERTEX_BINARY));
}

#[test]
fn interpreter_refuses_broken_modules() {
    // Too short to hold a header.
    assert!(!Interpreter::accepts(&[0x07230203, 0x00010000, 0, 4]));
    assert!(!Interpreter::reads_types(&[0x07230203, 0x00010000, 0, 4]));
    // The last instruction claims more words than are left.
    let mut truncated = fragment_module();
    truncated.push(0x00040017);
    truncated.push(16);
    assert!(!Interpreter::accepts(&truncated));
    assert!(!Interpreter::reads_types(&truncated));
    // An instruction of zero words.
    let mut stuck = fragment_module();
    stuck.push(0x0000_0000);
    assert!(!Interpreter::accepts(&stuck));
    // An id at or above the module's bound.
    let mut out_of_bound = fragment_module();
    out_of_bound.extend_from_slice(&[0x00030016, 20, 32]);
    assert!(!Interpreter::accepts(&out_of_bound));
    assert!(!Interpreter::reads_types(&out_of_bound));
    // A pointer of an unknown storage class.
    let mut unknown_class = fragment_module();
    unknown_class.extend_from_slice(&[0x00040020, 16, 7, 3]);
    assert!(!Interpreter::accepts(&unknown_class));
    assert!(Interpreter::reads_types(&unknown_class));
}

#[test]
fn interpreter_needs_known_entry_point() {
    // No entry point at all.
    let no_entry: Vec<u32> = vec![0x07230203, 0x00010000, 0, 4, 0, 0x00030016, 2, 32];
    assert!(!Interpreter::accepts(&no_entry));
    assert!(Interpreter::reads_types(&no_entry));
    // A compute entry point.
    let compute: Vec<u32> = vec![0x07230203, 0x00010000, 0, 4, 0, 0x0005000F, 5, 1, 0x6E69616D, 0];
    assert!(!Interpreter::accepts(&compute));
}

#[test]
fn layout_is_the_same_on_every_read() {
    let module = uniforms_module();
    let (i1, o1, u1) = Interpreter::get_variable_layout(&module);
    let (i2, o2, u2) = Interpreter::get_variable_layout(&module);
    assert_eq!(debug_all(&i1), debug_all(&i2));
    assert_eq!(debug_all(&o1), debug_all(&o2));
    assert_eq!(format!("{:?}", u1), format!("{:?}", u2));
}
