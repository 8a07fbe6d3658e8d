use beach::ast::{global_scope, ImportKind, ParseFault, Program, SourceFault};
use beach::ast_types::{Definition, Evaluatable, Task, Value};
use beach::lst::SyntaxRoot;
use beach::utils::Bigint;

fn program(text: &str) -> Result<Program, SourceFault> {
    Program::from_lst(SyntaxRoot::from_string(text.to_string()).unwrap(), None)
}

#[test]
fn string_argument_is_one_call() {
    let p = program("main { stdout(\"hi; there\"); }").unwrap();
    assert_eq!(
        p.main_tasks,
        vec![Task::Call {
            function_identifier: "stdout".to_string(),
            arguments: vec![Value::String("hi; there".to_string())],
        }]
    );
}

#[test]
fn compound_argument_is_staged() {
    let p = program("main { stdout(f(1)); }").unwrap();
    let label = "compiler_ast_call_eval_0".to_string();
    assert_eq!(
        p.main_tasks,
        vec![
            Task::Evaluate {
                label: label.clone(),
                task: Evaluatable::Call {
                    label: "f".to_string(),
                    arguments: vec![Value::Integer(Bigint::from_u8(1))],
                },
            },
            Task::Call { function_identifier: "stdout".to_string(), arguments: vec![Value::Label(label.clone())] },
            Task::FreeEvaluated { label },
        ]
    );
}

#[test]
fn staged_labels_follow_argument_positions() {
    let p = program("main { g(\"a\", x + 2); }").unwrap();
    let label = "compiler_ast_call_eval_1".to_string();
    assert_eq!(p.main_tasks.len(), 3);
    assert_eq!(
        p.main_tasks[1],
        Task::Call {
            function_identifier: "g".to_string(),
            arguments: vec![Value::String("a".to_string()), Value::Label(label.clone())],
        }
    );
    assert_eq!(p.main_tasks[2], Task::FreeEvaluated { label });
}

#[test]
fn aliases_take_one_hop() {
    let p = program("out => io~write; main { out; out(\"x\"); return; }").unwrap();
    assert_eq!(
        p.definitions,
        vec![Definition::Alias { from: "out".to_string(), to: "io~write".to_string(), export: false }]
    );
    assert_eq!(
        p.main_tasks,
        vec![
            Task::Call { function_identifier: "io~write".to_string(), arguments: vec![] },
            Task::Call {
                function_identifier: "io~write".to_string(),
                arguments: vec![Value::String("x".to_string())],
            },
            Task::ExitBlock,
        ]
    );
    let q = program("a =>! b;").unwrap();
    assert_eq!(q.definitions, vec![Definition::Alias { from: "a".to_string(), to: "b".to_string(), export: true }]);
}

#[test]
fn imports_are_recorded() {
    let p = program("system stdout; file lib:text; include io:print; !!core mem/alloc;").unwrap();
    assert_eq!(
        p.definitions,
        vec![
            Definition::System { label: "stdout".to_string() },
            Definition::File { label: "lib/text".to_string() },
        ]
    );
    let got: Vec<(ImportKind, String)> = p.imports.iter().map(|i| (i.kind, i.path.clone())).collect();
    assert_eq!(
        got,
        vec![
            (ImportKind::File, "lib/text".to_string()),
            (ImportKind::Std, "io/print".to_string()),
            (ImportKind::Core, "mem/alloc".to_string()),
        ]
    );
}

#[test]
fn parse_faults() {
    assert_eq!(program("main { stdout(\"x\")").unwrap_err(), SourceFault::Parse(ParseFault::UnexpectedEnd));
    assert_eq!(program("main { stdout; ").unwrap_err(), SourceFault::Parse(ParseFault::UnclosedMain));
    assert_eq!(program("main stdout;").unwrap_err(), SourceFault::Parse(ParseFault::ExpectedOpenBrace));
    assert_eq!(program("system stdout").unwrap_err(), SourceFault::Parse(ParseFault::UnexpectedEnd));
    assert_eq!(program("system 5;").unwrap_err(), SourceFault::Parse(ParseFault::ExpectedLabel));
    assert_eq!(program("main { return }").unwrap_err(), SourceFault::Parse(ParseFault::ExpectedSemicolon));
    assert_eq!(program("type T { }").unwrap_err(), SourceFault::Parse(ParseFault::Unimplemented));
    assert_eq!(program("main { f(\"a\" + \"b\"); }").unwrap_err(), SourceFault::Parse(ParseFault::UnexpectedSymbol));
    assert_eq!(program("main { f(1 + 2); }").unwrap_err(), SourceFault::Parse(ParseFault::UnexpectedSymbol));
    assert_eq!(program("; x").unwrap_err(), SourceFault::Parse(ParseFault::UnexpectedSymbol));
}

#[test]
fn prefix_comes_first() {
    let root = SyntaxRoot::from_string("system b;".to_string()).unwrap();
    let p = Program::from_lst(root, Some("system a;".to_string())).unwrap();
    assert_eq!(
        p.definitions,
        vec![Definition::System { label: "a".to_string() }, Definition::System { label: "b".to_string() }]
    );
}

#[test]
fn global_scope_adds_to_a_program() {
    let mut p = program("system a;").unwrap();
    let syms = SyntaxRoot::from_string("system b; // done".to_string()).unwrap().symbols;
    global_scope(&mut p, &syms).unwrap();
    assert_eq!(p.definitions.len(), 2);
}

#[test]
fn adding_programs_appends() {
    let a = program("system a; main { f; }").unwrap();
    let b = program("system b; main { g; }").unwrap();
    let c = a.add(b);
    assert_eq!(c.definitions.len(), 2);
    assert_eq!(c.main_tasks.len(), 1);
    assert_eq!(c.global_tasks, vec![Task::Call { function_identifier: "g".to_string(), arguments: vec![] }]);
}

#[test]
fn trait_headers_are_checked() {
    assert_eq!(program("trait").unwrap_err(), SourceFault::Parse(ParseFault::UnexpectedEnd));
    assert_eq!(program("trait ;").unwrap_err(), SourceFault::Parse(ParseFault::ExpectedLabel));
    assert_eq!(program("trait Name;").unwrap_err(), SourceFault::Parse(ParseFault::ExpectedOpenBrace));
    assert_eq!(program("trait Name").unwrap_err(), SourceFault::Parse(ParseFault::UnexpectedEnd));
    assert_eq!(program("trait Name { f;").unwrap_err(), SourceFault::Parse(ParseFault::UnexpectedEnd));
    assert_eq!(program("trait Name { f; }").unwrap_err(), SourceFault::Parse(ParseFault::Unimplemented));
}

#[test]
fn literal_arguments_are_one_value() {
    let syms = SyntaxRoot::from_string("\"a\" + \"b\"".to_string()).unwrap().symbols;
    assert_eq!(
        Evaluatable::from_symbols(&syms, 0),
        Ok((Evaluatable::Value { value: Value::String("a".to_string()) }, 1))
    );
}
