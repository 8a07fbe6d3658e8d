use beach::generator::{AArch64AssemblyGenerator, AssemblyGenerator, HardwareData};
use beach::ir::{GenerateFault, GeneratableTask, ImmediateOrRefrence};
use beach::platform::{get_all_platforms, get_this, PlatformFault};
use beach::ast::Program;
use beach::ir::Executable;
use beach::lst::SyntaxRoot;

#[test]
fn arguments_are_saved_then_set() {
    let t = GeneratableTask::SetCallArgument {
        argument_number: 0,
        argument_value: ImmediateOrRefrence::Refrence("msg".to_string()),
    };
    assert_eq!(t.call_generator::<AArch64AssemblyGenerator>(), Ok("str x0, [sp, #-16]!\nadr x0, msg\n".to_string()));
    let t = GeneratableTask::SetCallArgument {
        argument_number: 1,
        argument_value: ImmediateOrRefrence::Immediate(vec![42]),
    };
    assert_eq!(t.call_generator::<AArch64AssemblyGenerator>(), Ok("str x1, [sp, #-16]!\nmovz x1, #42\n".to_string()));
    let t = GeneratableTask::SetCallArgument {
        argument_number: 8,
        argument_value: ImmediateOrRefrence::Immediate(vec![1]),
    };
    assert_eq!(t.call_generator::<AArch64AssemblyGenerator>(), Err(GenerateFault::TooManyArguments));
}

#[test]
fn calls_and_returns() {
    assert_eq!(
        GeneratableTask::Call("stdout".to_string()).call_generator::<AArch64AssemblyGenerator>(),
        Ok("stp x29, x30, [sp, #-16]!\nmov x29, sp\nadr x9, stdout\nblr x9\nldp x29, x30, [sp], #16\n".to_string())
    );
    assert_eq!(GeneratableTask::EndCall.call_generator::<AArch64AssemblyGenerator>(), Ok("ret\n".to_string()));
    assert_eq!(
        GeneratableTask::GoTo("x".to_string()).call_generator::<AArch64AssemblyGenerator>(),
        Err(GenerateFault::Unsupported)
    );
}

#[test]
fn aarch64_pieces() {
    assert_eq!(AArch64AssemblyGenerator::label("start".to_string()), "start:\n");
    assert_eq!(AArch64AssemblyGenerator::goto(HardwareData::ImmediateRegister("x3".to_string())), Some("br x3\n".to_string()));
    assert_eq!(
        AArch64AssemblyGenerator::set(HardwareData::ImmediateRegister("x0".to_string()), HardwareData::ImmediateRegister("x1".to_string())),
        Some("mov x0, x1\n".to_string())
    );
    assert_eq!(AArch64AssemblyGenerator::set(HardwareData::Label("a".to_string()), HardwareData::Immediate(vec![1])), None);
    assert_eq!(AArch64AssemblyGenerator::pointer_width(), 8);
}

#[test]
fn platforms() {
    let p = get_this();
    assert_eq!(p.friendly_name, "MacOS");
    assert_eq!(p.memory_size_minimum, 8 * 1024 * 1024 * 1024);
    assert_eq!(p.features[0].0, "stdout");
    assert_eq!(get_all_platforms().len(), 1);
}

#[test]
fn data_is_written_as_bytes() {
    assert_eq!(
        AArch64AssemblyGenerator::data("d".to_string(), &vec![0x48, 0x0A, 0xFF]),
        "d:\n.byte 0x48, 0xA, 0xFF\n.align 2\n"
    );
}

#[test]
fn hello_world_assembly() {
    let root = SyntaxRoot::from_string("system stdout; main { stdout(\"Hi\"); return; }".to_string()).unwrap();
    let exe = Executable::from_ast(Program::from_lst(root, None).unwrap()).unwrap();
    let p = get_this();
    let text = p.generate_assembly(&exe).unwrap();
    let expected_start = ".global _start\ncompiler_ir_const_data_allocation_0:\n.byte 0x48, 0x69\n.align 2\nstdout:\n";
    assert!(text.starts_with(expected_start));
    assert!(text.contains(
        "_start:\nstr x0, [sp, #-16]!\nadr x0, compiler_ir_const_data_allocation_0\nstp x29, x30, [sp, #-16]!\nmov x29, sp\nadr x9, stdout\nblr x9\nldp x29, x30, [sp], #16\nret\nmov x0, #0\n"
    ));
    assert!(text.ends_with("svc #0\n"));

    let root = SyntaxRoot::from_string("system screen;".to_string()).unwrap();
    let exe = Executable::from_ast(Program::from_lst(root, None).unwrap()).unwrap();
    assert_eq!(p.generate_assembly(&exe), Err(PlatformFault::MissingFeature));
}
