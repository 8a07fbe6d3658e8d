use vstd::prelude::*;

use crate::utils::{Bigcplx, Bigfloat, Bigint};

verus! {

/// A declaration at the top level of a program.
#[derive(Debug, PartialEq)]
pub enum Definition {
    /// A platform capability that the program needs.
    System { label: String },
    /// An import of a file of the project.
    File { label: String },
    /// An external library.
    Library { name: String, version: String },
    /// A second name for a function.
    Alias { from: String, to: String, export: bool },
    GlobalConstant { label: String, value: Value },
    Function(Function),
    Type { name: String, data: Vec<(String, TypeIdentity)>, methods: Vec<Function> },
    Trait { name: String, methods: Vec<Function> },
}

/// A step that the program takes when it runs.
#[derive(Debug, PartialEq)]
pub enum Task {
    /// Gives `label` a value.
    Assign { label: String, type_: Option<String>, value: Value },
    Call { function_identifier: String, arguments: Vec<Value> },
    /// Computes `task` and binds the result to `label`.
    Evaluate { label: String, task: Evaluatable },
    /// Ends the binding that an `Evaluate` made.
    FreeEvaluated { label: String },
    ExitBlock,
}

/// An expression that may have to be computed before it is used.
#[derive(Debug, PartialEq)]
pub enum Evaluatable {
    Call { label: String, arguments: Vec<Value> },
    Math { a: Value, b: Value },
    Value { value: Value },
}

/// A value that a program names directly.
#[derive(Debug, Clone, PartialEq)]
pub enum Value {
    Integer(Bigint),
    Float(Bigfloat),
    Complex(Bigcplx),
    String(String),
    Bool(bool),
    /// A reference to something by name.
    Label(String),
}

#[derive(Debug, PartialEq)]
pub struct Function {
    pub name: String,
    pub arguments: Vec<FunctionArgument>,
    pub returns: TypeIdentity,
    pub code: Vec<Task>,
}

#[derive(Debug, Clone, PartialEq)]
pub struct FunctionArgument {
    pub name: String,
    pub arg_type: TypeIdentity,
}

#[derive(Debug, Clone, Copy, PartialEq, Eq, Structural)]
pub enum PrimitiveType {
    ArchUnsigned,
    ArchSigned,
    U8,
    I8,
}

#[derive(Debug, Clone, PartialEq)]
pub enum TypeIdentity {
    Primitive(PrimitiveType),
    Trait(String),
    Enum(String),
    Structured(String),
}

/// What a [Value] stands for.
pub enum ValueView {
    Integer(int),
    Float,
    Complex,
    String(Seq<char>),
    Bool(bool),
    Label(Seq<char>),
}

/// What an [Evaluatable] stands for.
pub enum EvaluatableView {
    Call { label: Seq<char>, arguments: Seq<ValueView> },
    Math { a: ValueView, b: ValueView },
    Value { value: ValueView },
}

/// What a [Task] stands for.
pub enum TaskView {
    Assign { label: Seq<char>, type_: Option<Seq<char>>, value: ValueView },
    Call { function_identifier: Seq<char>, arguments: Seq<ValueView> },
    Evaluate { label: Seq<char>, task: EvaluatableView },
    FreeEvaluated { label: Seq<char> },
    ExitBlock,
}

/// What a [Definition] stands for; functions, types and traits by their names.
pub enum DefinitionView {
    System { label: Seq<char> },
    File { label: Seq<char> },
    Library { name: Seq<char>, version: Seq<char> },
    Alias { from: Seq<char>, to: Seq<char>, export: bool },
    GlobalConstant { label: Seq<char>, value: ValueView },
    Function { name: Seq<char> },
    Type { name: Seq<char> },
    Trait { name: Seq<char> },
}

impl View for Value {
    type V = ValueView;

    open spec fn view(&self) -> ValueView {
        match self {
            Value::Integer(b) => ValueView::Integer(b.value()),
            Value::Float(_) => ValueView::Float,
            Value::Complex(_) => ValueView::Complex,
            Value::String(s) => ValueView::String(s@),
            Value::Bool(b) => ValueView::Bool(*b),
            Value::Label(s) => ValueView::Label(s@),
        }
    }
}

/// The views of a sequence of values.
pub open spec fn values_view(v: Seq<Value>) -> Seq<ValueView> {
    v.map_values(|x: Value| x@)
}

impl View for Evaluatable {
    type V = EvaluatableView;

    open spec fn view(&self) -> EvaluatableView {
        match self {
            Evaluatable::Call { label, arguments } => EvaluatableView::Call {
                label: label@,
                arguments: values_view(arguments@),
            },
            Evaluatable::Math { a, b } => EvaluatableView::Math { a: a@, b: b@ },
            Evaluatable::Value { value } => EvaluatableView::Value { value: value@ },
        }
    }
}

impl View for Task {
    type V = TaskView;

    open spec fn view(&self) -> TaskView {
        match self {
            Task::Assign { label, type_, value } => TaskView::Assign {
                label: label@,
                type_: match type_ {
                    Some(t) => Some(t@),
                    None => None,
                },
                value: value@,
            },
            Task::Call { function_identifier, arguments } => TaskView::Call {
                function_identifier: function_identifier@,
                arguments: values_view(arguments@),
            },
            Task::Evaluate { label, task } => TaskView::Evaluate { label: label@, task: task@ },
            Task::FreeEvaluated { label } => TaskView::FreeEvaluated { label: label@ },
            Task::ExitBlock => TaskView::ExitBlock,
        }
    }
}

/// The views of a sequence of tasks.
pub open spec fn tasks_view(v: Seq<Task>) -> Seq<TaskView> {
    v.map_values(|x: Task| x@)
}

impl View for Definition {
    type V = DefinitionView;

    open spec fn view(&self) -> DefinitionView {
        match self {
            Definition::System { label } => DefinitionView::System { label: label@ },
            Definition::File { label } => DefinitionView::File { label: label@ },
            Definition::Library { name, version } => DefinitionView::Library {
                name: name@,
                version: version@,
            },
            Definition::Alias { from, to, export } => DefinitionView::Alias {
                from: from@,
                to: to@,
                export: *export,
            },
            Definition::GlobalConstant { label, value } => DefinitionView::GlobalConstant {
                label: label@,
                value: value@,
            },
            Definition::Function(f) => DefinitionView::Function { name: f.name@ },
            Definition::Type { name, .. } => DefinitionView::Type { name: name@ },
            Definition::Trait { name, .. } => DefinitionView::Trait { name: name@ },
        }
    }
}

/// The views of a sequence of definitions.
pub open spec fn definitions_view(v: Seq<Definition>) -> Seq<DefinitionView> {
    v.map_values(|x: Definition| x@)
}

} // verus!
