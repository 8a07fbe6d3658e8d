use beach::ast::{Program, SourceFault};
use beach::ir::{Data, Executable, GeneratableTask, ImmediateOrRefrence, LowerFault};
use beach::generator::HardwareData;
use beach::lst::SyntaxRoot;

fn program(text: &str) -> Result<Program, SourceFault> {
    Program::from_lst(SyntaxRoot::from_string(text.to_string()).unwrap(), None)
}

#[test]
fn hello_world_end_to_end() {
    let p = program("system stdout; main { stdout(\"Hello, world!\"); return; }").unwrap();
    let exe = Executable::from_ast(p).unwrap();
    assert_eq!(exe.platform_requirements, vec!["stdout".to_string()]);
    let label = "compiler_ir_const_data_allocation_0".to_string();
    assert_eq!(
        exe.data,
        vec![Data { label: label.clone(), size: 13, default: Some(b"Hello, world!".to_vec()) }]
    );
    assert_eq!(
        exe.entry_point.tasks,
        vec![
            GeneratableTask::SetCallArgument { argument_number: 0, argument_value: ImmediateOrRefrence::Refrence(label) },
            GeneratableTask::Call("stdout".to_string()),
            GeneratableTask::EndCall,
        ]
    );
    assert!(exe.code_sections.is_empty());
}

#[test]
fn small_integers_are_inline() {
    let exe = Executable::from_ast(program("main { f(5); }").unwrap()).unwrap();
    assert!(exe.data.is_empty());
    assert_eq!(
        exe.entry_point.tasks[0],
        GeneratableTask::SetCallArgument { argument_number: 0, argument_value: ImmediateOrRefrence::Immediate(vec![5]) }
    );
    let edge = Executable::from_ast(program("main { f(4294967295); }").unwrap()).unwrap();
    assert!(edge.data.is_empty());
}

#[test]
fn large_integers_are_stored() {
    let exe = Executable::from_ast(program("main { f(a, 4294967296); }").unwrap()).unwrap();
    assert_eq!(
        exe.data,
        vec![Data {
            label: "compiler_ir_const_data_allocation_0".to_string(),
            size: 5,
            default: Some(vec![0, 0, 0, 0, 1]),
        }]
    );
    assert_eq!(
        exe.entry_point.tasks,
        vec![
            GeneratableTask::SetCallArgument { argument_number: 0, argument_value: ImmediateOrRefrence::Refrence("a".to_string()) },
            GeneratableTask::SetCallArgument {
                argument_number: 1,
                argument_value: ImmediateOrRefrence::Refrence("compiler_ir_const_data_allocation_0".to_string()),
            },
            GeneratableTask::Call("f".to_string()),
        ]
    );
}

#[test]
fn data_labels_count_up() {
    let exe = Executable::from_ast(program("main { f(\"a\"); g(\"b\"); }").unwrap()).unwrap();
    assert_eq!(exe.data[1].label, "compiler_ir_const_data_allocation_1");
}

#[test]
fn staged_arguments_are_not_lowered_yet() {
    let p = program("main { f(g(1)); }").unwrap();
    assert_eq!(Executable::from_ast(p).unwrap_err(), LowerFault::Unimplemented);
}

#[test]
fn operands_become_hardware_data() {
    assert_eq!(ImmediateOrRefrence::Immediate(vec![1, 2]).into_hardware_data(), HardwareData::Immediate(vec![1, 2]));
    assert_eq!(ImmediateOrRefrence::Refrence("x".to_string()).into_hardware_data(), HardwareData::Label("x".to_string()));
}
