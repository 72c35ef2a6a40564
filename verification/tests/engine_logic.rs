use render_engine::compiler::{warning_lines, SpirvShader, WarningResult};
use render_engine::device_selection::{
    count_flags, family_union, select_physical_device, select_queues, DeviceCandidate, DeviceKind, QUEUE_GRAPHICS,
    QUEUE_TRANSFER,
};
use render_engine::operation::{Operation, OperationType};
use render_engine::shader::ShaderStage;

fn candidate(kind: DeviceKind, families: Vec<u32>) -> DeviceCandidate {
    DeviceCandidate { supports_extensions: true, supports_features: true, family_flags: families, kind }
}

#[test]
fn no_warnings_when_none_counted() {
    assert!(warning_lines(0, "line one\nline two").is_empty());
}

#[test]
fn warnings_split_at_newlines() {
    assert_eq!(warning_lines(2, "first\nsecond"), vec!["first".to_string(), "second".to_string()]);
    assert_eq!(warning_lines(1, "only"), vec!["only".to_string()]);
}

#[test]
fn trailing_newline_gives_empty_last_line() {
    assert_eq!(warning_lines(1, "warning: x\n"), vec!["warning: x".to_string(), String::new()]);
    assert_eq!(warning_lines(1, ""), vec![String::new()]);
    assert_eq!(warning_lines(3, "\n\n"), vec![String::new(), String::new(), String::new()]);
}

#[test]
fn split_then_join_gives_text_back() {
    let text = "a: one\nb: two\n\nc";
    let lines = warning_lines(1, text);
    assert_eq!(lines.join("\n"), text);
    assert_eq!(lines.len(), text.matches('\n').count() + 1);
    assert!(lines.iter().all(|l| !l.contains('\n')));
}

#[test]
fn warning_result_unwrap() {
    let ok: WarningResult<u32, String, ()> = WarningResult { result: Ok(5), warnings: vec!["w".to_string()] };
    assert_eq!(ok.unwrap(), 5);
}

#[test]
fn compiled_module_keeps_words_and_stage() {
    let s = SpirvShader::from_binary(vec![0x07230203, 1, 2], ShaderStage::Fragment);
    assert_eq!(s.binary, vec![0x07230203, 1, 2]);
    assert_eq!(s.shader_stage, ShaderStage::Fragment);
}

#[test]
fn semaphore_only_across_queues() {
    let g = Operation::graphics(1u8);
    assert_eq!(g.operation_type, OperationType::Graphics);
    assert_eq!(g.future, Some(1u8));
    assert!(!g.needs_semaphore(OperationType::Graphics));
    assert!(g.needs_semaphore(OperationType::Transfer));
    let t = Operation::transfer(2u8);
    assert!(t.needs_semaphore(OperationType::Graphics));
    assert!(!t.needs_semaphore(OperationType::Transfer));
    let done: Operation<u8> = Operation { operation_type: OperationType::Transfer, future: None };
    assert!(!done.needs_semaphore(OperationType::Graphics));
    assert!(!done.needs_semaphore(OperationType::Transfer));
}

#[test]
fn flags_counted() {
    assert_eq!(count_flags(0), 0);
    assert_eq!(count_flags(QUEUE_GRAPHICS | QUEUE_TRANSFER), 2);
    assert_eq!(count_flags(0x7F), 7);
    assert_eq!(count_flags(u32::MAX), 32);
    assert_eq!(family_union(&vec![0x1, 0x4, 0x2]), 0x7);
    assert_eq!(family_union(&Vec::new()), 0);
}

#[test]
fn physical_device_preference() {
    let devices = vec![
        candidate(DeviceKind::Cpu, vec![0x7]),
        candidate(DeviceKind::IntegratedGpu, vec![0x1, 0x4]),
        candidate(DeviceKind::DiscreteGpu, vec![0x1]),
        candidate(DeviceKind::IntegratedGpu, vec![0x5]),
    ];
    // The discrete GPU has no transfer family, so the first integrated GPU wins.
    assert_eq!(select_physical_device(&devices), Some(1));
}

#[test]
fn physical_device_needs_support() {
    let mut no_ext = candidate(DeviceKind::DiscreteGpu, vec![0x7]);
    no_ext.supports_extensions = false;
    let mut no_features = candidate(DeviceKind::DiscreteGpu, vec![0x7]);
    no_features.supports_features = false;
    assert_eq!(select_physical_device(&[no_ext.clone(), no_features.clone()]), None);
    let other = candidate(DeviceKind::Other, vec![0x5]);
    assert_eq!(select_physical_device(&[no_ext, no_features, other]), Some(2));
    assert_eq!(select_physical_device(&[]), None);
}

#[test]
fn queues_with_dedicated_transfer_family() {
    // (flags, queue count): graphics families 0 and 2 have 4 queues each, the
    // later one is taken; among the transfer families, 3 has the fewest flags.
    let families = [(0x7, 4), (0x6, 1), (0x7, 4), (0x4, 2), (0xC, 1)];
    assert_eq!(select_queues(&families), Some(((2, 0), (3, 0))));
}

#[test]
fn queues_on_one_family() {
    assert_eq!(select_queues(&[(0x7, 16)]), Some(((0, 0), (0, 1))));
    assert_eq!(select_queues(&[(0x7, 1)]), Some(((0, 0), (0, 0))));
    assert_eq!(select_queues(&[(0x1, 2), (0x2, 1)]), Some(((0, 0), (0, 1))));
}

#[test]
fn queues_need_graphics() {
    assert_eq!(select_queues(&[(0x4, 2), (0x2, 1)]), None);
    assert_eq!(select_queues(&[]), None);
}
