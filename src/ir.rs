use vstd::prelude::*;
use vstd::utf8::encode_utf8;

use crate::ast::Program;
use crate::ast_types::{Definition, DefinitionView, Task, TaskView, Value, ValueView};
use crate::generator::{AssemblyGenerator, HardwareData, HardwareDataView};
use crate::utils::{canonical_bytes, decimal_of, decimal_string, le_value, pow256};

verus! {

/// An operand of a generated task: bytes given inline, or the name of stored data.
#[derive(Debug, PartialEq)]
pub enum ImmediateOrRefrence {
    /// Raw bytes, least significant first when numeric.
    Immediate(Vec<u8>),
    /// The label of a data entry or a binding.
    Refrence(String),
}

/// One step of generated code, as a code generator receives it.
#[derive(Debug, PartialEq)]
pub enum GeneratableTask {
    GoTo(String),
    SetCallArgument { argument_number: usize, argument_value: ImmediateOrRefrence },
    Call(String),
    EndCall,
    Add(String, String),
    Assign(String),
    RequiredExtension(Vec<String>),
}

/// A labelled list of generated tasks.
#[derive(Debug, PartialEq)]
pub struct CodeSegment {
    pub label: String,
    pub tasks: Vec<GeneratableTask>,
}

/// A block of data in the executable; `default` holds its initial bytes, if any.
#[derive(Debug, PartialEq)]
pub struct Data {
    pub label: String,
    pub size: usize,
    pub default: Option<Vec<u8>>,
}

/// A program lowered for code generators: the platform capabilities it needs, its data, and its
/// code. Data labels are numbered by the count of data entries before them.
#[derive(Debug, PartialEq)]
pub struct Executable {
    pub platform_requirements: Vec<String>,
    pub data: Vec<Data>,
    pub code_sections: Vec<CodeSegment>,
    /// The segment that runs on startup.
    pub entry_point: CodeSegment,
}

/// What an [ImmediateOrRefrence] stands for.
pub enum OperandView {
    Immediate(Seq<u8>),
    Reference(Seq<char>),
}

/// What a [GeneratableTask] stands for.
pub enum GenTaskView {
    GoTo(Seq<char>),
    SetCallArgument { argument_number: nat, argument_value: OperandView },
    Call(Seq<char>),
    EndCall,
    Add(Seq<char>, Seq<char>),
    Assign(Seq<char>),
    RequiredExtension(Seq<Seq<char>>),
}

/// What a [Data] stands for.
pub struct DataView {
    pub label: Seq<char>,
    pub size: nat,
    pub default: Option<Seq<u8>>,
}

impl View for ImmediateOrRefrence {
    type V = OperandView;

    open spec fn view(&self) -> OperandView {
        match self {
            ImmediateOrRefrence::Immediate(b) => OperandView::Immediate(b@),
            ImmediateOrRefrence::Refrence(l) => OperandView::Reference(l@),
        }
    }
}

impl View for GeneratableTask {
    type V = GenTaskView;

    open spec fn view(&self) -> GenTaskView {
        match self {
            GeneratableTask::GoTo(l) => GenTaskView::GoTo(l@),
            GeneratableTask::SetCallArgument { argument_number, argument_value } =>
                GenTaskView::SetCallArgument {
                argument_number: *argument_number as nat,
                argument_value: argument_value@,
            },
            GeneratableTask::Call(l) => GenTaskView::Call(l@),
            GeneratableTask::EndCall => GenTaskView::EndCall,
            GeneratableTask::Add(a, b) => GenTaskView::Add(a@, b@),
            GeneratableTask::Assign(l) => GenTaskView::Assign(l@),
            GeneratableTask::RequiredExtension(v) => GenTaskView::RequiredExtension(
                v@.map_values(|s: String| s@),
            ),
        }
    }
}

impl View for Data {
    type V = DataView;

    open spec fn view(&self) -> DataView {
        DataView {
            label: self.label@,
            size: self.size as nat,
            default: match &self.default {
                Some(b) => Some(b@),
                None => None,
            },
        }
    }
}

/// The views of generated tasks.
pub open spec fn gen_tasks_view(v: Seq<GeneratableTask>) -> Seq<GenTaskView> {
    v.map_values(|t: GeneratableTask| t@)
}

/// The views of data entries.
pub open spec fn data_view(v: Seq<Data>) -> Seq<DataView> {
    v.map_values(|d: Data| d@)
}

/// The label of the `n`-th data entry that lowering allocates.
pub open spec fn data_label(n: nat) -> Seq<char> {
    "compiler_ir_const_data_allocation_"@ + decimal_of(n)
}

/// The bytes of `n`, least significant first, without a needless leading zero byte.
pub open spec fn le_bytes_of(n: nat) -> Seq<u8>
    decreases n,
{
    if n < 256 {
        seq![n as u8]
    } else {
        seq![(n % 256) as u8] + le_bytes_of(n / 256)
    }
}

/// The capabilities that `System` definitions name, in order.
pub open spec fn system_labels(defs: Seq<DefinitionView>) -> Seq<Seq<char>>
    decreases defs.len(),
{
    if defs.len() == 0 {
        Seq::empty()
    } else {
        system_labels(defs.drop_last()) + match defs.last() {
            DefinitionView::System { label } => seq![label],
            _ => Seq::empty(),
        }
    }
}

/// Why a program could not be lowered.
#[derive(Debug, Clone, Copy, PartialEq, Eq, Structural)]
pub enum LowerFault {
    /// The program holds a construct that has no lowering yet.
    Unimplemented,
    /// An integer argument is below zero.
    NegativeInteger,
}

/// Integers below this bound are passed inline.
pub open spec fn inline_bound() -> nat {
    0x1_0000_0000
}

/// Lowers the `n`-th argument `v` of a call, given the data so far: the data after it, and the
/// task that passes it.
pub open spec fn lower_argument(v: ValueView, n: nat, data: Seq<DataView>) -> Result<
    (Seq<DataView>, GenTaskView),
    LowerFault,
> {
    let fresh = data_label(data.len());
    match v {
        ValueView::Label(l) => Ok(
            (
                data,
                GenTaskView::SetCallArgument {
                    argument_number: n,
                    argument_value: OperandView::Reference(l),
                },
            ),
        ),
        ValueView::String(s) => Ok(
            (
                data.push(
                    DataView {
                        label: fresh,
                        size: encode_utf8(s).len(),
                        default: Some(encode_utf8(s)),
                    },
                ),
                GenTaskView::SetCallArgument {
                    argument_number: n,
                    argument_value: OperandView::Reference(fresh),
                },
            ),
        ),
        ValueView::Integer(i) => if i < 0 {
            Err(LowerFault::NegativeInteger)
        } else if i < inline_bound() {
            Ok(
                (
                    data,
                    GenTaskView::SetCallArgument {
                        argument_number: n,
                        argument_value: OperandView::Immediate(le_bytes_of(i as nat)),
                    },
                ),
            )
        } else {
            Ok(
                (
                    data.push(
                        DataView {
                            label: fresh,
                            size: le_bytes_of(i as nat).len(),
                            default: Some(le_bytes_of(i as nat)),
                        },
                    ),
                    GenTaskView::SetCallArgument {
                        argument_number: n,
                        argument_value: OperandView::Reference(fresh),
                    },
                ),
            )
        },
        _ => Err(LowerFault::Unimplemented),
    }
}

/// Lowers the arguments `args` from the `n`-th on, given the data and code so far.
pub open spec fn lower_arguments(
    args: Seq<ValueView>,
    n: nat,
    data: Seq<DataView>,
    code: Seq<GenTaskView>,
) -> Result<(Seq<DataView>, Seq<GenTaskView>), LowerFault>
    decreases args.len() - n,
{
    if n >= args.len() {
        Ok((data, code))
    } else {
        match lower_argument(args[n as int], n, data) {
            Err(f) => Err(f),
            Ok((d, t)) => lower_arguments(args, n + 1, d, code.push(t)),
        }
    }
}

/// Lowers one task of `main`, given the data and code so far.
pub open spec fn lower_task(task: TaskView, data: Seq<DataView>, code: Seq<GenTaskView>) -> Result<
    (Seq<DataView>, Seq<GenTaskView>),
    LowerFault,
> {
    match task {
        TaskView::ExitBlock => Ok((data, code.push(GenTaskView::EndCall))),
        TaskView::Call { function_identifier, arguments } => match lower_arguments(
            arguments,
            0,
            data,
            code,
        ) {
            Err(f) => Err(f),
            Ok((d, c)) => Ok((d, c.push(GenTaskView::Call(function_identifier)))),
        },
        _ => Err(LowerFault::Unimplemented),
    }
}

/// Lowers the tasks of `main` from the `k`-th on, given the data and code so far.
pub open spec fn lower_tasks(
    tasks: Seq<TaskView>,
    k: nat,
    data: Seq<DataView>,
    code: Seq<GenTaskView>,
) -> Result<(Seq<DataView>, Seq<GenTaskView>), LowerFault>
    decreases tasks.len() - k,
{
    if k >= tasks.len() {
        Ok((data, code))
    } else {
        match lower_task(tasks[k as int], data, code) {
            Err(f) => Err(f),
            Ok((d, c)) => lower_tasks(tasks, k + 1, d, c),
        }
    }
}

/// Canonical bytes are the bytes of their value.
pub proof fn lemma_canonical_le_bytes(b: Seq<u8>)
    requires
        canonical_bytes(b),
    ensures
        b == le_bytes_of(le_value(b)),
    decreases b.len(),
{
    let rest = b.drop_first();
    let v = le_value(b);
    if b.len() == 1 {
        assert(rest.len() == 0);
        assert(le_value(rest) == 0);
        assert(le_bytes_of(v) =~= b);
    } else {
        assert(rest.last() == b.last());
        crate::utils::lemma_le_value_positive(rest);
        lemma_canonical_le_bytes(rest);
        let x = le_value(rest);
        assert(v == b[0] + 256 * x);
        assert(v % 256 == b[0] && v / 256 == x) by (nonlinear_arith)
            requires
                v == b[0] + 256 * x,
                0 <= b[0] < 256,
        ;
        assert(le_bytes_of(v) =~= seq![b[0]] + rest);
        assert(seq![b[0]] + rest =~= b);
    }
}

/// The bytes of `n` number at most `k` exactly when `n` is below `256` to the `k`.
pub proof fn lemma_le_bytes_len(n: nat, k: nat)
    requires
        k >= 1,
    ensures
        le_bytes_of(n).len() <= k <==> n < pow256(k),
    decreases k,
{
    crate::utils::lemma_pow256_positive((k - 1) as nat);
    assert(pow256(k) == 256 * pow256((k - 1) as nat));
    if n < 256 {
        assert(le_bytes_of(n).len() == 1);
    } else {
        let rest = le_bytes_of(n / 256);
        assert(le_bytes_of(n) == seq![(n % 256) as u8] + rest);
        assert(rest.len() >= 1);
        assert(le_bytes_of(n).len() == 1 + rest.len());
        if k > 1 {
            lemma_le_bytes_len(n / 256, (k - 1) as nat);
            let p = pow256((k - 1) as nat);
            assert(n / 256 < p <==> n < 256 * p) by (nonlinear_arith)
                requires
                    p >= 1,
            ;
        } else {
            assert(pow256(0) == 1);
        }
    }
}

impl CodeSegment {
    pub fn new(label: &str) -> (r: CodeSegment)
        ensures
            r.label@ == label@,
            r.tasks@.len() == 0,
    {
        CodeSegment { label: label.to_owned(), tasks: Vec::new() }
    }

    fn add_task(&mut self, task: GeneratableTask)
        ensures
            final(self).label == old(self).label,
            gen_tasks_view(final(self).tasks@) == gen_tasks_view(old(self).tasks@).push(task@),
    {
        let ghost before = self.tasks@;
        self.tasks.push(task);
        assert(gen_tasks_view(self.tasks@) =~= gen_tasks_view(before).push(task@));
    }
}

impl ImmediateOrRefrence {
    /// The operand as hardware data: bytes stay bytes, a reference becomes a label.
    pub fn into_hardware_data(&self) -> (r: HardwareData)
        ensures
            r@ == operand_data(self@),
    {
        match self {
            ImmediateOrRefrence::Immediate(data) => {
                let copy = data.clone();
                assert(copy@ =~= data@);
                HardwareData::Immediate(copy)
            },
            ImmediateOrRefrence::Refrence(ref_name) => HardwareData::Label(ref_name.clone()),
        }
    }
}

/// The label for a data entry that follows `n` others.
fn data_label_string(n: usize) -> (r: String)
    ensures
        r@ == data_label(n as nat),
{
    let mut s = String::from_str("compiler_ir_const_data_allocation_");
    let digits = decimal_string(n);
    s.append(digits.as_str());
    s
}

/// Whether `e` holds the data `data`, and its entry segment the tasks `code`.
pub open spec fn lowering_done(e: Executable, data: Seq<DataView>, code: Seq<GenTaskView>) -> bool {
    &&& data_view(e.data@) == data
    &&& gen_tasks_view(e.entry_point.tasks@) == code
}

impl Executable {
    fn empty() -> (r: Executable)
        ensures
            r.platform_requirements@.len() == 0,
            r.data@.len() == 0,
            r.code_sections@.len() == 0,
            r.entry_point.label@ == Seq::<char>::empty(),
            r.entry_point.tasks@.len() == 0,
    {
        proof {
            reveal_strlit("");
        }
        Executable {
            platform_requirements: Vec::new(),
            data: Vec::new(),
            code_sections: Vec::new(),
            entry_point: CodeSegment::new(""),
        }
    }

    /// Lowers the `n`-th argument `v` of a call into the entry segment.
    fn lower_argument(&mut self, n: usize, v: &Value) -> (r: Result<(), LowerFault>)
        ensures
            final(self).platform_requirements == old(self).platform_requirements,
            final(self).code_sections == old(self).code_sections,
            final(self).entry_point.label == old(self).entry_point.label,
            match lower_argument(v@, n as nat, data_view(old(self).data@)) {
                Ok((d, t)) => r is Ok && lowering_done(
                    *final(self),
                    d,
                    gen_tasks_view(old(self).entry_point.tasks@).push(t),
                ),
                Err(f) => r == Err::<(), LowerFault>(f),
            },
    {
        match v {
            Value::Label(label) => {
                self.entry_point.add_task(
                    GeneratableTask::SetCallArgument {
                        argument_number: n,
                        argument_value: ImmediateOrRefrence::Refrence(label.clone()),
                    },
                );
                Ok(())
            },
            Value::String(text) => {
                let bytes = text.as_str().as_bytes_vec();
                let label = data_label_string(self.data.len());
                let reference = data_label_string(self.data.len());
                let ghost before = self.data@;
                let size = bytes.len();
                let ghost bv = bytes@;
                self.data.push(Data { label, size, default: Some(bytes) });
                assert(data_view(self.data@) =~= data_view(before).push(
                    DataView { label: data_label(before.len()), size: bv.len(), default: Some(bv) },
                ));
                self.entry_point.add_task(
                    GeneratableTask::SetCallArgument {
                        argument_number: n,
                        argument_value: ImmediateOrRefrence::Refrence(reference),
                    },
                );
                Ok(())
            },
            Value::Integer(number) => {
                let bytes = match number.to_le_bytes() {
                    Ok(bytes) => bytes,
                    Err(_) => {
                        return Err(LowerFault::NegativeInteger);
                    },
                };
                proof {
                    lemma_canonical_le_bytes(bytes@);
                    lemma_le_bytes_len(le_value(bytes@), 4);
                    reveal_with_fuel(pow256, 5);
                }
                if bytes.len() <= 4 {
                    self.entry_point.add_task(
                        GeneratableTask::SetCallArgument {
                            argument_number: n,
                            argument_value: ImmediateOrRefrence::Immediate(bytes),
                        },
                    );
                } else {
                    let label = data_label_string(self.data.len());
                    let reference = data_label_string(self.data.len());
                    let ghost before = self.data@;
                    let size = bytes.len();
                    let ghost bv = bytes@;
                    self.data.push(Data { label, size, default: Some(bytes) });
                    assert(data_view(self.data@) =~= data_view(before).push(
                        DataView { label: data_label(before.len()), size: bv.len(), default: Some(bv) },
                    ));
                    self.entry_point.add_task(
                        GeneratableTask::SetCallArgument {
                            argument_number: n,
                            argument_value: ImmediateOrRefrence::Refrence(reference),
                        },
                    );
                }
                Ok(())
            },
            _ => Err(LowerFault::Unimplemented),
        }
    }

    /// Lowers a parsed program: its `System` definitions become platform requirements, and the
    /// tasks of `main` become the entry segment, each call's arguments passed in order before
    /// it and each `return` ending in `EndCall`.
    pub fn from_ast(ast: Program) -> (r: Result<Executable, LowerFault>)
        ensures
            match lower_tasks(ast@.main_tasks, 0, Seq::empty(), Seq::empty()) {
                Ok((d, c)) => r is Ok && lowering_done(r->Ok_0, d, c)
                    && r->Ok_0.platform_requirements@.map_values(|s: String| s@) == system_labels(
                    ast@.definitions,
                ) && r->Ok_0.code_sections@.len() == 0 && r->Ok_0.entry_point.label@
                    == Seq::<char>::empty(),
                Err(f) => r == Err::<Executable, LowerFault>(f),
            },
    {
        let mut program = Executable::empty();
        let ghost defs = ast@.definitions;
        let mut i: usize = 0;
        proof {
            assert(defs.take(0) =~= Seq::<DefinitionView>::empty());
            assert(program.platform_requirements@.map_values(|s: String| s@) =~= Seq::<Seq<char>>::empty());
        }
        while i < ast.definitions.len()
            invariant
                defs == ast@.definitions,
                i <= ast.definitions.len(),
                program.data@.len() == 0,
                program.code_sections@.len() == 0,
                program.entry_point.label@ == Seq::<char>::empty(),
                program.entry_point.tasks@.len() == 0,
                program.platform_requirements@.map_values(|s: String| s@) == system_labels(defs.take(i as int)),
            decreases ast.definitions.len() - i,
        {
            let ghost before = program.platform_requirements@;
            proof {
                assert(defs.take(i + 1).drop_last() =~= defs.take(i as int));
                assert(defs.take(i + 1).last() == ast.definitions@[i as int]@);
            }
            match &ast.definitions[i] {
                Definition::System { label } => {
                    program.platform_requirements.push(label.clone());
                    assert(program.platform_requirements@.map_values(|s: String| s@) =~= before.map_values(|s: String| s@).push(label@));
                },
                _ => {},
            }
            i = i + 1;
        }
        proof {
            assert(defs.take(i as int) =~= defs);
        }
        let ghost tasks = ast@.main_tasks;
        let mut k: usize = 0;
        proof {
            assert(data_view(program.data@) =~= Seq::<DataView>::empty());
            assert(gen_tasks_view(program.entry_point.tasks@) =~= Seq::<GenTaskView>::empty());
        }
        while k < ast.main_tasks.len()
            invariant
                tasks == ast@.main_tasks,
                k <= ast.main_tasks.len(),
                program.code_sections@.len() == 0,
                program.entry_point.label@ == Seq::<char>::empty(),
                program.platform_requirements@.map_values(|s: String| s@) == system_labels(defs),
                lower_tasks(tasks, 0, Seq::empty(), Seq::empty()) == lower_tasks(
                    tasks,
                    k as nat,
                    data_view(program.data@),
                    gen_tasks_view(program.entry_point.tasks@),
                ),
            decreases ast.main_tasks.len() - k,
        {
            match &ast.main_tasks[k] {
                Task::ExitBlock => {
                    program.entry_point.add_task(GeneratableTask::EndCall);
                },
                Task::Call { function_identifier, arguments } => {
                    let ghost args = crate::ast_types::values_view(arguments@);
                    let ghost d0 = data_view(program.data@);
                    let ghost c0 = gen_tasks_view(program.entry_point.tasks@);
                    let mut a: usize = 0;
                    assert(tasks[k as int] == ast.main_tasks@[k as int]@);
                    assert(tasks[k as int] == TaskView::Call {
                        function_identifier: function_identifier@,
                        arguments: args,
                    });
                    while a < arguments.len()
                        invariant
                            args == crate::ast_types::values_view(arguments@),
                            tasks == ast@.main_tasks,
                            k < ast.main_tasks.len(),
                            tasks[k as int] == (TaskView::Call {
                                function_identifier: function_identifier@,
                                arguments: args,
                            }),
                            lower_tasks(tasks, 0, Seq::empty(), Seq::empty()) == lower_tasks(tasks, k as nat, d0, c0),
                            a <= arguments.len(),
                            program.code_sections@.len() == 0,
                            program.entry_point.label@ == Seq::<char>::empty(),
                            program.platform_requirements@.map_values(|s: String| s@) == system_labels(defs),
                            lower_arguments(args, 0, d0, c0) == lower_arguments(
                                args,
                                a as nat,
                                data_view(program.data@),
                                gen_tasks_view(program.entry_point.tasks@),
                            ),
                        decreases arguments.len() - a,
                    {
                        assert(args[a as int] == arguments@[a as int]@);
                        match program.lower_argument(a, &arguments[a]) {
                            Ok(()) => {},
                            Err(f) => {
                                assert(lower_arguments(args, 0, d0, c0) == Err::<(Seq<DataView>, Seq<GenTaskView>), LowerFault>(f));
                                assert(lower_task(tasks[k as int], d0, c0) == Err::<(Seq<DataView>, Seq<GenTaskView>), LowerFault>(f));
                                assert(lower_tasks(tasks, k as nat, d0, c0) == Err::<(Seq<DataView>, Seq<GenTaskView>), LowerFault>(f));
                                return Err(f);
                            },
                        }
                        a = a + 1;
                    }
                    program.entry_point.add_task(GeneratableTask::Call(function_identifier.clone()));
                },
                _ => {
                    return Err(LowerFault::Unimplemented);
                },
            }
            k = k + 1;
        }
        Ok(program)
    }
}

/// Why a generated task could not be written as assembly.
#[derive(Debug, Clone, Copy, PartialEq, Eq, Structural)]
pub enum GenerateFault {
    /// The platform has no register for an argument this far along.
    TooManyArguments,
    /// The platform, or this library, writes no assembly for the task.
    Unsupported,
}

/// An operand as hardware data: bytes stay bytes, a reference becomes a label.
pub open spec fn operand_data(v: OperandView) -> HardwareDataView {
    match v {
        OperandView::Immediate(b) => HardwareDataView::Immediate(b),
        OperandView::Reference(l) => HardwareDataView::Label(l),
    }
}

/// The assembly that `G` writes for a generated task: an argument is saved to the stack and
/// set in its register; a call and its end are the platform's own.
pub open spec fn assembly_for<G: AssemblyGenerator>(t: GenTaskView) -> Result<Seq<char>, GenerateFault> {
    match t {
        GenTaskView::SetCallArgument { argument_number, argument_value } => match G::spec_argument_register(
            argument_number,
        ) {
            None => Err(GenerateFault::TooManyArguments),
            Some(reg) => match (
                G::spec_push(HardwareDataView::ImmediateRegister(reg)),
                G::spec_set(HardwareDataView::ImmediateRegister(reg), operand_data(argument_value)),
            ) {
                (Some(a), Some(b)) => Ok(a + b),
                _ => Err(GenerateFault::Unsupported),
            },
        },
        GenTaskView::Call(l) => match G::spec_call(HardwareDataView::Label(l)) {
            Some(x) => Ok(x),
            None => Err(GenerateFault::Unsupported),
        },
        GenTaskView::EndCall => Ok(G::spec_endcall()),
        _ => Err(GenerateFault::Unsupported),
    }
}

impl GeneratableTask {
    pub fn call_generator<G: AssemblyGenerator>(&self) -> (r: Result<String, GenerateFault>)
        ensures
            match assembly_for::<G>(self@) {
                Ok(t) => r is Ok && r->Ok_0@ == t,
                Err(f) => r == Err::<String, GenerateFault>(f),
            },
    {
        match self {
            GeneratableTask::SetCallArgument { argument_number, argument_value } => {
                let reg = match G::argument_register(*argument_number) {
                    Some(reg) => reg,
                    None => {
                        return Err(GenerateFault::TooManyArguments);
                    },
                };
                let saved = G::push(HardwareData::ImmediateRegister(reg.clone()));
                let set = G::set(HardwareData::ImmediateRegister(reg), argument_value.into_hardware_data());
                match (saved, set) {
                    (Some(a), Some(b)) => {
                        let mut text = a;
                        text.append(b.as_str());
                        Ok(text)
                    },
                    _ => Err(GenerateFault::Unsupported),
                }
            },
            GeneratableTask::Call(to_call) => match G::call(HardwareData::Label(to_call.clone())) {
                Some(x) => Ok(x),
                None => Err(GenerateFault::Unsupported),
            },
            GeneratableTask::EndCall => Ok(G::endcall()),
            _ => Err(GenerateFault::Unsupported),
        }
    }
}

/// An integer argument below `2^32` is passed inline as its bytes, least significant first (at
/// most four of them); a larger one is stored in a fresh data entry, labelled after the entries
/// before it, and passed by that label.
pub proof fn lemma_integer_lowering(v: nat, n: nat, data: Seq<DataView>)
    ensures
        v < inline_bound() ==> le_bytes_of(v).len() <= 4 && lower_argument(
            ValueView::Integer(v as int),
            n,
            data,
        ) == Ok::<(Seq<DataView>, GenTaskView), LowerFault>(
            (
                data,
                GenTaskView::SetCallArgument {
                    argument_number: n,
                    argument_value: OperandView::Immediate(le_bytes_of(v)),
                },
            ),
        ),
        v >= inline_bound() ==> le_bytes_of(v).len() > 4 && lower_argument(
            ValueView::Integer(v as int),
            n,
            data,
        ) == Ok::<(Seq<DataView>, GenTaskView), LowerFault>(
            (
                data.push(
                    DataView {
                        label: data_label(data.len()),
                        size: le_bytes_of(v).len(),
                        default: Some(le_bytes_of(v)),
                    },
                ),
                GenTaskView::SetCallArgument {
                    argument_number: n,
                    argument_value: OperandView::Reference(data_label(data.len())),
                },
            ),
        ),
{
    lemma_le_bytes_len(v, 4);
    reveal_with_fuel(pow256, 5);
}

/// Whether each data entry is labelled by its position.
pub open spec fn labelled_in_order(data: Seq<DataView>) -> bool {
    forall|i: int| 0 <= i < data.len() ==> (#[trigger] data[i]).label == data_label(i as nat)
}

proof fn lemma_argument_keeps_order(v: ValueView, n: nat, data: Seq<DataView>)
    requires
        labelled_in_order(data),
    ensures
        lower_argument(v, n, data) matches Ok((d, _)) ==> labelled_in_order(d),
{
}

proof fn lemma_arguments_keep_order(args: Seq<ValueView>, n: nat, data: Seq<DataView>, code: Seq<GenTaskView>)
    requires
        labelled_in_order(data),
    ensures
        lower_arguments(args, n, data, code) matches Ok((d, _)) ==> labelled_in_order(d),
    decreases args.len() - n,
{
    if n < args.len() {
        lemma_argument_keeps_order(args[n as int], n, data);
        match lower_argument(args[n as int], n, data) {
            Ok((d, t)) => lemma_arguments_keep_order(args, n + 1, d, code.push(t)),
            Err(_) => {},
        }
    }
}

proof fn lemma_tasks_keep_order(tasks: Seq<TaskView>, k: nat, data: Seq<DataView>, code: Seq<GenTaskView>)
    requires
        labelled_in_order(data),
    ensures
        lower_tasks(tasks, k, data, code) matches Ok((d, _)) ==> labelled_in_order(d),
    decreases tasks.len() - k,
{
    if k < tasks.len() {
        match tasks[k as int] {
            TaskView::Call { function_identifier: _, arguments } => {
                lemma_arguments_keep_order(arguments, 0, data, code);
            },
            _ => {},
        }
        match lower_task(tasks[k as int], data, code) {
            Ok((d, c)) => lemma_tasks_keep_order(tasks, k + 1, d, c),
            Err(_) => {},
        }
    }
}

/// Different positions give different data labels.
pub proof fn lemma_data_label_injective(a: nat, b: nat)
    requires
        data_label(a) == data_label(b),
    ensures
        a == b,
{
    let prefix = "compiler_ir_const_data_allocation_"@;
    assert(data_label(a).skip(prefix.len() as int) =~= decimal_of(a));
    assert(data_label(b).skip(prefix.len() as int) =~= decimal_of(b));
    crate::utils::lemma_decimal_injective(a, b);
}

/// Lowering labels the data entries it allocates by their positions, so no two entries share a
/// label.
pub proof fn lemma_data_labels_unique(tasks: Seq<TaskView>)
    ensures
        lower_tasks(tasks, 0, Seq::empty(), Seq::empty()) matches Ok((d, _)) ==> (forall|i: int, j: int|
            0 <= i < j < d.len() ==> d[i].label != d[j].label),
{
    lemma_tasks_keep_order(tasks, 0, Seq::empty(), Seq::empty());
    match lower_tasks(tasks, 0, Seq::empty(), Seq::empty()) {
        Ok((d, _)) => {
            assert forall|i: int, j: int| 0 <= i < j < d.len() implies d[i].label != d[j].label by {
                if d[i].label == d[j].label {
                    assert(d[i].label == data_label(i as nat));
                    assert(d[j].label == data_label(j as nat));
                    lemma_data_label_injective(i as nat, j as nat);
                }
            }
        },
        Err(_) => {},
    }
}

} // verus!
