use render_engine::descriptor_requirements::{DescriptorRequirements, DescriptorType, UniformBufferElement};
use render_engine::descriptor_requirements::UniformBufferElement::{Float, Mat2, Mat3, Mat4, Vec2, Vec3, Vec4};
use render_engine::descriptor_set_data::DescriptorData;
use render_engine::shader_type::{ShaderStages, ShaderType};

/// A fragment module with a vec4 input, a vec4 output and two uniform
/// buffers in set 0: `{ mat4 }` at binding 1 and `{ float, vec3 }` at
/// binding 0.
fn fragment_module() -> Vec<u32> {
    vec![
        0x07230203, 0x00010000, 0, 20, 0,
        0x0005000F, 4, 1, 0x6E69616D, 0,
        0x00040047, 10, 0x22, 0,
        0x00040047, 10, 0x21, 1,
        0x00040047, 11, 0x22, 0,
        0x00040047, 11, 0x21, 0,
        0x00030016, 2, 32,
        0x00040017, 3, 2, 4,
        0x00040018, 4, 3, 4,
        0x0003001E, 5, 4,
        0x00040020, 6, 2, 5,
        0x0004003B, 6, 10, 2,
        0x00040017, 7, 2, 3,
        0x0004001E, 8, 2, 7,
        0x00040020, 9, 2, 8,
        0x0004003B, 9, 11, 2,
        0x00040020, 12, 1, 3,
        0x0004003B, 12, 13, 1,
        0x00040020, 14, 3, 3,
        0x0004003B, 14, 15, 3,
    ]
}

/// A fragment module with one sampled image at (set 1, binding 2) and a
/// `{ mat4 }` uniform buffer at (set 0, binding 5).
fn sampler_module() -> Vec<u32> {
    vec![
        0x07230203, 0x00010000, 0, 30, 0,
        0x0005000F, 4, 1, 0x6E69616D, 0,
        0x00040047, 23, 0x22, 1,
        0x00040047, 23, 0x21, 2,
        0x00040047, 10, 0x22, 0,
        0x00040047, 10, 0x21, 5,
        0x00030016, 2, 32,
        0x00040017, 3, 2, 4,
        0x00040018, 4, 3, 4,
        0x0003001E, 5, 4,
        0x00040020, 6, 2, 5,
        0x0004003B, 6, 10, 2,
        // %20 = image, %21 = sampled image, %22 = pointer UniformConstant, %23 = variable
        0x00090019, 20, 2, 1, 0, 0, 0, 1, 0,
        0x0003001B, 21, 20,
        0x00040020, 22, 0, 21,
        0x0004003B, 22, 23, 0,
    ]
}

fn buffer(elements: &[UniformBufferElement]) -> DescriptorType {
    DescriptorType::UniformBuffer(elements.to_vec())
}

fn requirements(list: Vec<((u32, u32), DescriptorType, ShaderStages)>) -> DescriptorRequirements {
    DescriptorRequirements { descriptors: list }
}

#[test]
fn uniform_buffer_sizes() {
    assert_eq!(UniformBufferElement::size(&[]), 0);
    assert_eq!(UniformBufferElement::size(&[Float]), 4);
    assert_eq!(UniformBufferElement::size(&[Vec2]), 8);
    assert_eq!(UniformBufferElement::size(&[Vec3]), 12);
    assert_eq!(UniformBufferElement::size(&[Vec4]), 16);
    assert_eq!(UniformBufferElement::size(&[Mat2]), 16);
    assert_eq!(UniformBufferElement::size(&[Mat3]), 36);
    assert_eq!(UniformBufferElement::size(&[Mat4]), 64);
    assert_eq!(UniformBufferElement::size(&[Mat4, Vec3, Float]), 80);
}

#[test]
fn buffer_size_of_concatenation() {
    let a = [Mat3, Vec2];
    let b = [Vec4, Float, Mat2];
    let ab: Vec<UniformBufferElement> = a.iter().chain(b.iter()).copied().collect();
    assert_eq!(UniformBufferElement::size(&ab), UniformBufferElement::size(&a) + UniformBufferElement::size(&b));
}

#[test]
fn fragment_module_descriptors() {
    let r = DescriptorRequirements::from_binary(&fragment_module(), ShaderType::Fragment);
    assert_eq!(r.descriptors.len(), 2);
    assert_eq!(r.descriptors[0].0, (0, 0));
    assert!(r.descriptors[0].1.same_as(&buffer(&[Float, Vec3])));
    assert_eq!(r.descriptors[0].2, ShaderStages::fragment());
    assert_eq!(r.descriptors[1].0, (0, 1));
    assert!(r.descriptors[1].1.same_as(&buffer(&[Mat4])));
    assert_eq!(r.descriptors[1].2.bits, 0x10);
}

#[test]
fn sampler_module_descriptors() {
    let r = DescriptorRequirements::from_binary(&sampler_module(), ShaderType::Vertex);
    assert_eq!(r.descriptors.len(), 2);
    assert_eq!(r.descriptors[0].0, (0, 5));
    assert!(r.descriptors[0].1.same_as(&buffer(&[Mat4])));
    assert_eq!(r.descriptors[1].0, (1, 2));
    assert!(matches!(r.descriptors[1].1, DescriptorType::CombinedImageSampler));
    assert_eq!(r.descriptors[1].2, ShaderStages::vertex());
}

#[test]
fn module_without_descriptors() {
    let module: Vec<u32> = vec![0x07230203, 0x00010000, 0, 4, 0, 0x0005000F, 0, 1, 0x6E69616D, 0];
    let r = DescriptorRequirements::from_binary(&module, ShaderType::Vertex);
    assert!(r.descriptors.is_empty());
}

#[test]
fn compatible_when_shared_bindings_agree() {
    let vertex = requirements(vec![((0, 0), buffer(&[Mat4]), ShaderStages::vertex())]);
    let fragment = requirements(vec![
        ((0, 0), buffer(&[Mat4]), ShaderStages::fragment()),
        ((0, 1), DescriptorType::CombinedImageSampler, ShaderStages::fragment()),
    ]);
    assert!(DescriptorRequirements::test_compatibility(&[vertex, fragment]));
}

#[test]
fn incompatible_when_shared_binding_differs() {
    let vertex = requirements(vec![((0, 0), buffer(&[Mat4]), ShaderStages::vertex())]);
    let fragment = requirements(vec![((0, 0), DescriptorType::CombinedImageSampler, ShaderStages::fragment())]);
    assert!(!DescriptorRequirements::test_compatibility(&[vertex, fragment]));
}

#[test]
fn compatible_without_shared_bindings() {
    let vertex = requirements(vec![((0, 0), buffer(&[Mat4]), ShaderStages::vertex())]);
    let fragment = requirements(vec![((1, 0), DescriptorType::CombinedImageSampler, ShaderStages::fragment())]);
    assert!(DescriptorRequirements::test_compatibility(&[vertex, fragment]));
    assert!(DescriptorRequirements::test_compatibility(&[]));
}

#[test]
fn only_first_repeated_binding_is_checked() {
    let a = requirements(vec![
        ((0, 0), buffer(&[Mat4]), ShaderStages::vertex()),
        ((0, 1), buffer(&[Vec4]), ShaderStages::vertex()),
    ]);
    let b = requirements(vec![
        ((0, 0), buffer(&[Mat4]), ShaderStages::fragment()),
        ((0, 1), DescriptorType::CombinedImageSampler, ShaderStages::fragment()),
    ]);
    assert!(DescriptorRequirements::test_compatibility(&[a, b]));
}

#[test]
fn combine_merges_stages_and_sorts() {
    let vertex = requirements(vec![
        ((1, 0), DescriptorType::CombinedImageSampler, ShaderStages::vertex()),
        ((0, 0), buffer(&[Mat4]), ShaderStages::vertex()),
    ]);
    let fragment = requirements(vec![
        ((0, 0), buffer(&[Mat4]), ShaderStages::fragment()),
        ((0, 3), buffer(&[Vec2]), ShaderStages::fragment()),
    ]);
    let c = DescriptorRequirements::combine(&[vertex, fragment]);
    assert_eq!(c.descriptors.len(), 3);
    assert_eq!(c.descriptors[0].0, (0, 0));
    assert!(c.descriptors[0].1.same_as(&buffer(&[Mat4])));
    assert_eq!(c.descriptors[0].2.bits, 0x11);
    assert_eq!(c.descriptors[1].0, (0, 3));
    assert_eq!(c.descriptors[1].2, ShaderStages::fragment());
    assert_eq!(c.descriptors[2].0, (1, 0));
    assert!(matches!(c.descriptors[2].1, DescriptorType::CombinedImageSampler));
    assert_eq!(c.descriptors[2].2, ShaderStages::vertex());
}

#[test]
fn combine_keeps_first_type() {
    let a = requirements(vec![((2, 1), buffer(&[Vec3]), ShaderStages::vertex())]);
    let b = requirements(vec![((2, 1), DescriptorType::CombinedImageSampler, ShaderStages::fragment())]);
    let c = DescriptorRequirements::combine(&[a, b]);
    assert_eq!(c.descriptors.len(), 1);
    assert!(c.descriptors[0].1.same_as(&buffer(&[Vec3])));
    assert_eq!(c.descriptors[0].2.bits, 0x11);
    let empty = DescriptorRequirements::combine(&[]);
    assert!(empty.descriptors.is_empty());
}

#[test]
fn single_requirement_combines_to_itself() {
    let only = requirements(vec![
        ((0, 0), buffer(&[Mat4]), ShaderStages::vertex()),
        ((0, 1), DescriptorType::CombinedImageSampler, ShaderStages::vertex()),
    ]);
    let c = DescriptorRequirements::combine(&[only.clone()]);
    assert_eq!(c.descriptors.len(), 2);
    for i in 0..2 {
        assert_eq!(c.descriptors[i].0, only.descriptors[i].0);
        assert!(c.descriptors[i].1.same_as(&only.descriptors[i].1));
        assert_eq!(c.descriptors[i].2, only.descriptors[i].2);
    }
    assert!(DescriptorRequirements::test_compatibility(&[only]));
}

#[test]
fn descriptor_type_comparison() {
    assert!(buffer(&[Mat4, Float]).same_as(&buffer(&[Mat4, Float])));
    assert!(!buffer(&[Mat4, Float]).same_as(&buffer(&[Mat4])));
    assert!(!buffer(&[]).same_as(&DescriptorType::CombinedImageSampler));
    assert!(DescriptorType::CombinedImageSampler.same_as(&DescriptorType::CombinedImageSampler));
    assert!(buffer(&[Vec2]).duplicate().same_as(&buffer(&[Vec2])));
}

#[test]
fn data_compatibility() {
    let bytes: DescriptorData<u32> = DescriptorData::UniformBuffer(vec![0u8; 64]);
    assert!(bytes.compatable_with(&buffer(&[Mat4])));
    assert!(!bytes.compatable_with(&buffer(&[Mat3])));
    assert!(!bytes.compatable_with(&DescriptorType::CombinedImageSampler));
    let texture: DescriptorData<u32> = DescriptorData::CombinedImageSampler(7);
    assert!(texture.compatable_with(&DescriptorType::CombinedImageSampler));
    assert!(!texture.compatable_with(&buffer(&[Mat4])));
}

#[test]
fn update_descriptor_incorrect_descriptor_type() {
    // The fragment shader samples a texture at (0, 0); a uniform buffer of a
    // mat4 is refused there.
    let pipeline = requirements(vec![((0, 0), DescriptorType::CombinedImageSampler, ShaderStages::fragment())]);
    let data: DescriptorData<u32> = DescriptorData::UniformBuffer(vec![0u8; 4 * 4 * 4]);
    assert!(!pipeline.check_update(0, 0, &data));
}

#[test]
fn update_descriptor_accepted_and_refused() {
    let pipeline = requirements(vec![
        ((0, 0), buffer(&[Mat4]), ShaderStages::vertex()),
        ((0, 1), DescriptorType::CombinedImageSampler, ShaderStages::fragment()),
    ]);
    let uniform: DescriptorData<u32> = DescriptorData::UniformBuffer(vec![0u8; 64]);
    let texture: DescriptorData<u32> = DescriptorData::CombinedImageSampler(3);
    assert!(pipeline.check_update(0, 0, &uniform));
    assert!(pipeline.check_update(0, 1, &texture));
    assert!(!pipeline.check_update(0, 1, &uniform));
    assert!(!pipeline.check_update(0, 2, &texture));
    let short: DescriptorData<u32> = DescriptorData::UniformBuffer(vec![0u8; 63]);
    assert!(!pipeline.check_update(0, 0, &short));
}

#[test]
fn set_runs_split_by_set() {
    let r = requirements(vec![
        ((0, 0), buffer(&[Mat4]), ShaderStages::vertex()),
        ((0, 1), buffer(&[Float]), ShaderStages::vertex()),
        ((2, 0), DescriptorType::CombinedImageSampler, ShaderStages::fragment()),
        ((3, 1), DescriptorType::CombinedImageSampler, ShaderStages::fragment()),
        ((3, 4), DescriptorType::CombinedImageSampler, ShaderStages::fragment()),
    ]);
    assert_eq!(r.set_runs(), vec![(0, 0, 2), (2, 2, 3), (3, 3, 5)]);
    assert!(requirements(vec![]).set_runs().is_empty());
}

#[test]
fn shader_type_stages() {
    assert_eq!(ShaderType::Vertex.to_stages().bits, 0x01);
    assert_eq!(ShaderType::Fragment.to_stages().bits, 0x10);
    assert_eq!(ShaderStages::vertex().union(ShaderStages::fragment()).bits, 0x11);
    assert_eq!(ShaderStages::empty().union(ShaderStages::vertex()), ShaderStages::vertex());
}

#[test]
fn descriptor_scan_accepts_modules() {
    assert!(DescriptorRequirements::accepts_binary(&fragment_module()));
    assert!(DescriptorRequirements::accepts_binary(&sampler_module()));
    assert!(DescriptorRequirements::accepts_binary(&[0x07230203, 0x00010000, 0, 4, 0]));
}

#[test]
fn descriptor_scan_refuses_modules() {
    // A uniform buffer with an integer member is not supported.
    let int_member: Vec<u32> = vec![
        0x07230203, 0x00010000, 0, 12, 0,
        0x00040047, 10, 0x22, 0,
        0x00040047, 10, 0x21, 0,
        0x00040015, 2, 32, 1,
        0x0003001E, 3, 2,
        0x00040020, 4, 2, 3,
        0x0004003B, 4, 10, 2,
    ];
    assert!(!DescriptorRequirements::accepts_binary(&int_member));
    // A uniform buffer without a binding.
    let mut no_binding = fragment_module();
    no_binding.extend_from_slice(&[0x0004003B, 6, 16, 2]);
    assert!(!DescriptorRequirements::accepts_binary(&no_binding));
    // An `OpDecorate` cut short.
    let mut short = fragment_module();
    short.extend_from_slice(&[0x00030047, 10, 0x21]);
    assert!(!DescriptorRequirements::accepts_binary(&short));
    // A variable of an unknown storage class.
    let mut unknown_class = fragment_module();
    unknown_class.extend_from_slice(&[0x0004003B, 6, 17, 9]);
    assert!(!DescriptorRequirements::accepts_binary(&unknown_class));
    // An instruction that runs past the end.
    let mut truncated = fragment_module();
    truncated.extend_from_slice(&[0x00040017, 16]);
    assert!(!DescriptorRequirements::accepts_binary(&truncated));
}

#[test]
fn combined_requirements_are_compatible() {
    let a = requirements(vec![((0, 0), buffer(&[Mat4]), ShaderStages::vertex())]);
    let b = requirements(vec![
        ((0, 0), DescriptorType::CombinedImageSampler, ShaderStages::fragment()),
        ((0, 1), buffer(&[Vec4]), ShaderStages::fragment()),
    ]);
    assert!(!DescriptorRequirements::test_compatibility(&[a.clone(), b.clone()]));
    let c = DescriptorRequirements::combine(&[a, b]);
    assert!(DescriptorRequirements::test_compatibility(&[c]));
}

#[test]
fn declared_descriptors_carry_the_shader_stage() {
    let r = DescriptorRequirements::from_binary(&sampler_module(), ShaderType::Fragment);
    assert!(r.descriptors.iter().all(|d| d.2 == ShaderStages::fragment()));
}
