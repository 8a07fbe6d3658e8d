use vstd::prelude::*;

use crate::ast_types::{
    definitions_view, tasks_view, values_view, Definition, DefinitionView, Evaluatable,
    EvaluatableView, Task, TaskView, Value, ValueView,
};
use crate::lst::{symbols_view, tokenize, Keyword, LexFault, Symbol, SymbolView, SyntaxRoot};
use crate::utils::{decimal_of, decimal_string};

verus! {

/// Why a sequence of symbols is not a program.
#[derive(Debug, Clone, Copy, PartialEq, Eq, Structural)]
pub enum ParseFault {
    /// The symbols end where more were needed.
    UnexpectedEnd,
    /// A symbol stands where it cannot.
    UnexpectedSymbol,
    /// A name was needed.
    ExpectedLabel,
    /// A `;` was needed.
    ExpectedSemicolon,
    /// A `{` was needed.
    ExpectedOpenBrace,
    /// The symbols end inside the `main` block.
    UnclosedMain,
    /// The construct is known but has no meaning yet.
    Unimplemented,
}

/// Whether the symbol at `i` is `s`.
pub open spec fn at(t: Seq<SymbolView>, i: int, s: SymbolView) -> bool {
    0 <= i < t.len() && t[i] == s
}

/// The fault for a symbol that is missing at `i`.
pub open spec fn missing(t: Seq<SymbolView>, i: int, f: ParseFault) -> ParseFault {
    if i >= t.len() {
        ParseFault::UnexpectedEnd
    } else {
        f
    }
}

/// The name at `i`, if a label stands there.
pub open spec fn label_of(t: Seq<SymbolView>, i: int) -> Option<Seq<char>> {
    if 0 <= i < t.len() {
        match t[i] {
            SymbolView::Label(l) => Some(l),
            _ => None,
        }
    } else {
        None
    }
}

/// A value written out at `i`: a string, an integer, or a name that does not start a call.
pub open spec fn simple_value(t: Seq<SymbolView>, i: int) -> Option<ValueView> {
    if 0 <= i < t.len() {
        match t[i] {
            SymbolView::String(s) => Some(ValueView::String(s)),
            SymbolView::Integer(n) => Some(ValueView::Integer(n)),
            SymbolView::Label(l) => if at(t, i + 1, SymbolView::OpenParenthesis) {
                None
            } else {
                Some(ValueView::Label(l))
            },
            _ => None,
        }
    } else {
        None
    }
}

/// The values of a call inside an argument, from `i` (after `(` or `,`) to the closing `)`.
pub open spec fn parse_value_list(t: Seq<SymbolView>, i: int, acc: Seq<ValueView>) -> Result<
    (Seq<ValueView>, int),
    ParseFault,
>
    decreases t.len() - i,
{
    if i < 0 || i >= t.len() {
        Err(ParseFault::UnexpectedEnd)
    } else if at(t, i, SymbolView::CloseParenthesis) {
        Ok((acc, i + 1))
    } else {
        match simple_value(t, i) {
            None => Err(ParseFault::UnexpectedSymbol),
            Some(v) => if at(t, i + 1, SymbolView::Also) {
                parse_value_list(t, i + 2, acc.push(v))
            } else if at(t, i + 1, SymbolView::CloseParenthesis) {
                Ok((acc.push(v), i + 2))
            } else {
                Err(missing(t, i + 1, ParseFault::UnexpectedSymbol))
            },
        }
    }
}

/// The argument expression at `i`, and the index after it: a string or an integer is one value
/// whatever follows it; a name starts a call when `(` follows it and a sum when `+` does.
pub open spec fn parse_evaluatable(t: Seq<SymbolView>, i: int) -> Result<
    (EvaluatableView, int),
    ParseFault,
> {
    if i < 0 || i >= t.len() {
        Err(ParseFault::UnexpectedEnd)
    } else if label_of(t, i) is Some && at(t, i + 1, SymbolView::OpenParenthesis) {
        match parse_value_list(t, i + 2, Seq::empty()) {
            Ok((args, j)) => Ok((EvaluatableView::Call { label: label_of(t, i)->0, arguments: args }, j)),
            Err(f) => Err(f),
        }
    } else {
        match simple_value(t, i) {
            None => Err(ParseFault::UnexpectedSymbol),
            Some(a) => if label_of(t, i) is Some && at(t, i + 1, SymbolView::Add) {
                match simple_value(t, i + 2) {
                    Some(b) => Ok((EvaluatableView::Math { a, b }, i + 3)),
                    None => Err(missing(t, i + 2, ParseFault::UnexpectedSymbol)),
                }
            } else {
                Ok((EvaluatableView::Value { value: a }, i + 1))
            },
        }
    }
}

/// The arguments of a call, from `i` (after `(` or `,`) to the closing `)`.
pub open spec fn parse_arguments(t: Seq<SymbolView>, i: int, acc: Seq<EvaluatableView>) -> Result<
    (Seq<EvaluatableView>, int),
    ParseFault,
>
    decreases t.len() - i,
{
    if i < 0 || i >= t.len() {
        Err(ParseFault::UnexpectedEnd)
    } else if at(t, i, SymbolView::CloseParenthesis) {
        Ok((acc, i + 1))
    } else {
        match parse_evaluatable(t, i) {
            Err(f) => Err(f),
            Ok((e, j)) => if j <= i || j > t.len() {
                Err(ParseFault::UnexpectedSymbol)
            } else if at(t, j, SymbolView::Also) {
                parse_arguments(t, j + 1, acc.push(e))
            } else if at(t, j, SymbolView::CloseParenthesis) {
                Ok((acc.push(e), j + 1))
            } else {
                Err(missing(t, j, ParseFault::UnexpectedSymbol))
            },
        }
    }
}

/// The name bound to the value of the `n`-th argument of a call while the call runs.
pub open spec fn eval_label(n: nat) -> Seq<char> {
    "compiler_ast_call_eval_"@ + decimal_of(n)
}

/// Whether an argument is computed before its call rather than passed as written.
pub open spec fn is_staged(e: EvaluatableView) -> bool {
    !(e is Value)
}

/// What the call receives for its `n`-th argument `e`.
pub open spec fn argument_value(e: EvaluatableView, n: nat) -> ValueView {
    match e {
        EvaluatableView::Value { value } => value,
        _ => ValueView::Label(eval_label(n)),
    }
}

/// The values that a call with arguments `args` receives.
pub open spec fn call_arguments(args: Seq<EvaluatableView>) -> Seq<ValueView> {
    Seq::new(args.len(), |i: int| argument_value(args[i], i as nat))
}

/// The `Evaluate` tasks for the staged arguments among the first `n`.
pub open spec fn staging_tasks(args: Seq<EvaluatableView>, n: nat) -> Seq<TaskView>
    decreases n,
{
    if n == 0 || n > args.len() {
        Seq::empty()
    } else {
        staging_tasks(args, (n - 1) as nat) + if is_staged(args[n - 1]) {
            seq![TaskView::Evaluate { label: eval_label((n - 1) as nat), task: args[n - 1] }]
        } else {
            Seq::empty()
        }
    }
}

/// The `FreeEvaluated` tasks for the staged arguments among the first `n`.
pub open spec fn release_tasks(args: Seq<EvaluatableView>, n: nat) -> Seq<TaskView>
    decreases n,
{
    if n == 0 || n > args.len() {
        Seq::empty()
    } else {
        release_tasks(args, (n - 1) as nat) + if is_staged(args[n - 1]) {
            seq![TaskView::FreeEvaluated { label: eval_label((n - 1) as nat) }]
        } else {
            Seq::empty()
        }
    }
}

/// The tasks for a call of `target` with `args`: each staged argument is evaluated before the
/// call, passed by its name, and released after it.
pub open spec fn call_tasks(target: Seq<char>, args: Seq<EvaluatableView>) -> Seq<TaskView> {
    staging_tasks(args, args.len()) + seq![
        TaskView::Call { function_identifier: target, arguments: call_arguments(args) },
    ] + release_tasks(args, args.len())
}

/// The function that `name` calls: the target of the latest alias from `name`, else `name`.
pub open spec fn resolve_alias(defs: Seq<DefinitionView>, name: Seq<char>) -> Seq<char>
    decreases defs.len(),
{
    if defs.len() == 0 {
        name
    } else {
        match defs.last() {
            DefinitionView::Alias { from, to, export: _ } => if from == name {
                to
            } else {
                resolve_alias(defs.drop_last(), name)
            },
            _ => resolve_alias(defs.drop_last(), name),
        }
    }
}

/// The statements of a `main` block from `i` to its closing `}`: the tasks after them, and the
/// index after the `}`.
pub open spec fn parse_main(
    t: Seq<SymbolView>,
    i: int,
    defs: Seq<DefinitionView>,
    tasks: Seq<TaskView>,
) -> Result<(Seq<TaskView>, int), ParseFault>
    decreases t.len() - i,
{
    if i < 0 || i >= t.len() {
        Err(ParseFault::UnclosedMain)
    } else {
        match t[i] {
            SymbolView::Comment(_) => parse_main(t, i + 1, defs, tasks),
            SymbolView::Comments(_) => parse_main(t, i + 1, defs, tasks),
            SymbolView::CloseBrace => Ok((tasks, i + 1)),
            SymbolView::Keyword(k) => if k == Keyword::Kreturn {
                if at(t, i + 1, SymbolView::PhraseEnd) {
                    parse_main(t, i + 2, defs, tasks.push(TaskView::ExitBlock))
                } else {
                    Err(missing(t, i + 1, ParseFault::ExpectedSemicolon))
                }
            } else {
                Err(ParseFault::Unimplemented)
            },
            SymbolView::Label(l) => if at(t, i + 1, SymbolView::PhraseEnd) {
                parse_main(
                    t,
                    i + 2,
                    defs,
                    tasks.push(
                        TaskView::Call {
                            function_identifier: resolve_alias(defs, l),
                            arguments: Seq::empty(),
                        },
                    ),
                )
            } else if at(t, i + 1, SymbolView::OpenParenthesis) {
                match parse_arguments(t, i + 2, Seq::empty()) {
                    Err(f) => Err(f),
                    Ok((args, j)) => if j <= i || j > t.len() {
                        Err(ParseFault::UnexpectedSymbol)
                    } else if at(t, j, SymbolView::PhraseEnd) {
                        parse_main(t, j + 1, defs, tasks + call_tasks(resolve_alias(defs, l), args))
                    } else {
                        Err(missing(t, j, ParseFault::ExpectedSemicolon))
                    },
                }
            } else {
                Err(missing(t, i + 1, ParseFault::UnexpectedSymbol))
            },
            _ => Err(ParseFault::UnexpectedSymbol),
        }
    }
}

/// A path of names from `i`, each pair parted by `sep` (written `joint` in the result), up to
/// a `;`: the path, and the index after the `;`.
pub open spec fn parse_path(
    t: Seq<SymbolView>,
    i: int,
    sep: SymbolView,
    joint: Seq<char>,
    acc: Seq<char>,
) -> Result<(Seq<char>, int), ParseFault>
    decreases t.len() - i,
{
    if i < 0 || i >= t.len() {
        Err(ParseFault::UnexpectedEnd)
    } else {
        match label_of(t, i) {
            None => Err(ParseFault::ExpectedLabel),
            Some(l) => if at(t, i + 1, sep) {
                parse_path(t, i + 2, sep, joint, acc + l + joint)
            } else if at(t, i + 1, SymbolView::PhraseEnd) {
                Ok((acc + l, i + 2))
            } else {
                Err(missing(t, i + 1, ParseFault::ExpectedSemicolon))
            },
        }
    }
}

/// Where an imported file is looked for.
#[derive(Debug, Clone, Copy, PartialEq, Eq, Structural)]
pub enum ImportKind {
    /// `file a:b;`: beside the importing file.
    File,
    /// `include a:b;`: in the standard library.
    Std,
    /// `!!core a/b;`: in the compiler's core library.
    Core,
}

/// A request, met while parsing, for the text of another file.
#[derive(Debug)]
pub struct Import {
    pub kind: ImportKind,
    /// The names of the path, parted by `/`.
    pub path: String,
}

/// What an [Import] stands for.
pub struct ImportView {
    pub kind: ImportKind,
    pub path: Seq<char>,
}

/// What a [Program] stands for.
pub struct ProgramView {
    pub definitions: Seq<DefinitionView>,
    pub global_tasks: Seq<TaskView>,
    pub main_tasks: Seq<TaskView>,
    pub imports: Seq<ImportView>,
}

impl ProgramView {
    pub open spec fn with_definition(self, d: DefinitionView) -> ProgramView {
        ProgramView { definitions: self.definitions.push(d), ..self }
    }

    pub open spec fn with_import(self, kind: ImportKind, path: Seq<char>) -> ProgramView {
        ProgramView { imports: self.imports.push(ImportView { kind, path }), ..self }
    }

    pub open spec fn with_main_tasks(self, tasks: Seq<TaskView>) -> ProgramView {
        ProgramView { main_tasks: tasks, ..self }
    }
}

/// Whether a `}` stands at or after `j`.
pub open spec fn closes_after(t: Seq<SymbolView>, j: int) -> bool {
    exists|k: int| j <= k < t.len() && t[k] == SymbolView::CloseBrace
}

/// The top-level statement at `i`, added to `p`: the program after it, and the index after it.
pub open spec fn global_step(t: Seq<SymbolView>, i: int, p: ProgramView) -> Result<
    (ProgramView, int),
    ParseFault,
> {
    if i < 0 || i >= t.len() {
        Err(ParseFault::UnexpectedEnd)
    } else {
        match t[i] {
            SymbolView::Comment(_) => Ok((p, i + 1)),
            SymbolView::Comments(_) => Ok((p, i + 1)),
            SymbolView::Keyword(k) => if k == Keyword::Ksystem {
                match label_of(t, i + 1) {
                    None => Err(missing(t, i + 1, ParseFault::ExpectedLabel)),
                    Some(l) => if at(t, i + 2, SymbolView::PhraseEnd) {
                        Ok((p.with_definition(DefinitionView::System { label: l }), i + 3))
                    } else {
                        Err(missing(t, i + 2, ParseFault::ExpectedSemicolon))
                    },
                }
            } else if k == Keyword::Kfile || k == Keyword::Kinclude {
                match parse_path(t, i + 1, SymbolView::Is, "/"@, Seq::empty()) {
                    Err(f) => Err(f),
                    Ok((path, j)) => if k == Keyword::Kfile {
                        Ok(
                            (
                                p.with_definition(DefinitionView::File { label: path }).with_import(
                                    ImportKind::File,
                                    path,
                                ),
                                j,
                            ),
                        )
                    } else {
                        Ok((p.with_import(ImportKind::Std, path), j))
                    },
                }
            } else if k == Keyword::Kmain {
                if at(t, i + 1, SymbolView::OpenBrace) {
                    match parse_main(t, i + 2, p.definitions, p.main_tasks) {
                        Err(f) => Err(f),
                        Ok((tasks, j)) => Ok((p.with_main_tasks(tasks), j)),
                    }
                } else {
                    Err(missing(t, i + 1, ParseFault::ExpectedOpenBrace))
                }
            } else if k == Keyword::Ktrait {
                if i + 1 >= t.len() {
                    Err(ParseFault::UnexpectedEnd)
                } else if label_of(t, i + 1) is None {
                    Err(ParseFault::ExpectedLabel)
                } else if !at(t, i + 2, SymbolView::OpenBrace) {
                    Err(missing(t, i + 2, ParseFault::ExpectedOpenBrace))
                } else if closes_after(t, i + 3) {
                    Err(ParseFault::Unimplemented)
                } else {
                    Err(ParseFault::UnexpectedEnd)
                }
            } else {
                Err(missing(t, i + 1, ParseFault::Unimplemented))
            },
            SymbolView::Compiler => match label_of(t, i + 1) {
                None => Err(missing(t, i + 1, ParseFault::ExpectedLabel)),
                Some(l) => if l == "core"@ {
                    match parse_path(t, i + 2, SymbolView::Divide, "/"@, Seq::empty()) {
                        Err(f) => Err(f),
                        Ok((path, j)) => Ok((p.with_import(ImportKind::Core, path), j)),
                    }
                } else {
                    Err(ParseFault::Unimplemented)
                },
            },
            SymbolView::Label(l) => if at(t, i + 1, SymbolView::Alias) || at(
                t,
                i + 1,
                SymbolView::ExportedAlias,
            ) {
                match parse_path(t, i + 2, SymbolView::Module, "~"@, Seq::empty()) {
                    Err(f) => Err(f),
                    Ok((to, j)) => Ok(
                        (
                            p.with_definition(
                                DefinitionView::Alias {
                                    from: l,
                                    to,
                                    export: at(t, i + 1, SymbolView::ExportedAlias),
                                },
                            ),
                            j,
                        ),
                    ),
                }
            } else if at(t, i + 1, SymbolView::OpenParenthesis) {
                Err(ParseFault::Unimplemented)
            } else {
                Err(missing(t, i + 1, ParseFault::UnexpectedSymbol))
            },
            _ => Err(ParseFault::UnexpectedSymbol),
        }
    }
}

/// The top-level statements from `i` to the end, added to `p`.
pub open spec fn parse_global(t: Seq<SymbolView>, i: int, p: ProgramView) -> Result<
    ProgramView,
    ParseFault,
>
    decreases t.len() - i,
{
    if i < 0 || i >= t.len() {
        Ok(p)
    } else {
        match global_step(t, i, p) {
            Err(f) => Err(f),
            Ok((q, j)) => if j <= i || j > t.len() {
                Err(ParseFault::UnexpectedSymbol)
            } else {
                parse_global(t, j, q)
            },
        }
    }
}

/// The punctuation that the parser looks for.
#[derive(Clone, Copy)]
enum Punct {
    PhraseEnd,
    OpenParenthesis,
    CloseParenthesis,
    Also,
    Add,
    OpenBrace,
    Module,
    Is,
    Divide,
    Alias,
    ExportedAlias,
}

spec fn punct_view(p: Punct) -> SymbolView {
    match p {
        Punct::PhraseEnd => SymbolView::PhraseEnd,
        Punct::OpenParenthesis => SymbolView::OpenParenthesis,
        Punct::CloseParenthesis => SymbolView::CloseParenthesis,
        Punct::Also => SymbolView::Also,
        Punct::Add => SymbolView::Add,
        Punct::OpenBrace => SymbolView::OpenBrace,
        Punct::Module => SymbolView::Module,
        Punct::Is => SymbolView::Is,
        Punct::Divide => SymbolView::Divide,
        Punct::Alias => SymbolView::Alias,
        Punct::ExportedAlias => SymbolView::ExportedAlias,
    }
}

/// Tests whether the symbol at `i` is the punctuation `p`.
fn punct_at(syms: &Vec<Symbol>, i: usize, p: Punct) -> (r: bool)
    ensures
        r == at(symbols_view(syms@), i as int, punct_view(p)),
{
    if i >= syms.len() {
        return false;
    }
    let s = &syms[i];
    match p {
        Punct::PhraseEnd => matches!(s, Symbol::PhraseEnd),
        Punct::OpenParenthesis => matches!(s, Symbol::OpenParenthesis),
        Punct::CloseParenthesis => matches!(s, Symbol::CloseParenthesis),
        Punct::Also => matches!(s, Symbol::Also),
        Punct::Add => matches!(s, Symbol::Add),
        Punct::OpenBrace => matches!(s, Symbol::OpenBrace),
        Punct::Module => matches!(s, Symbol::Module),
        Punct::Is => matches!(s, Symbol::Is),
        Punct::Divide => matches!(s, Symbol::Divide),
        Punct::Alias => matches!(s, Symbol::Alias),
        Punct::ExportedAlias => matches!(s, Symbol::ExportedAlias),
    }
}

/// The name at `i`, if a label stands there.
fn label_at(syms: &Vec<Symbol>, i: usize) -> (r: Option<String>)
    ensures
        r is Some == label_of(symbols_view(syms@), i as int) is Some,
        r is Some ==> r->0@ == label_of(symbols_view(syms@), i as int)->0,
{
    if i >= syms.len() {
        return None;
    }
    match &syms[i] {
        Symbol::Label(l) => Some(l.clone()),
        _ => None,
    }
}

/// The value written out at `i`, if any.
fn simple_value_at(syms: &Vec<Symbol>, i: usize) -> (r: Option<Value>)
    requires
        syms.len() < usize::MAX,
    ensures
        match simple_value(symbols_view(syms@), i as int) {
            Some(v) => r is Some && r->0@ == v,
            None => r is None,
        },
{
    if i >= syms.len() {
        return None;
    }
    match &syms[i] {
        Symbol::String(s) => Some(Value::String(s.clone())),
        Symbol::Integer(b) => Some(Value::Integer(b.duplicate())),
        Symbol::Label(l) => if punct_at(syms, i + 1, Punct::OpenParenthesis) {
            None
        } else {
            Some(Value::Label(l.clone()))
        },
        _ => None,
    }
}

/// Reads the values of a call inside an argument, from `i` (after `(`) to the closing `)`.
fn value_list(syms: &Vec<Symbol>, i: usize) -> (r: Result<(Vec<Value>, usize), ParseFault>)
    requires
        syms.len() < usize::MAX / 2,
        i <= syms.len() + 2,
    ensures
        match parse_value_list(symbols_view(syms@), i as int, Seq::empty()) {
            Ok((vs, j)) => r is Ok && values_view((r->Ok_0).0@) == vs && (r->Ok_0).1 == j,
            Err(f) => r == Err::<(Vec<Value>, usize), ParseFault>(f),
        },
{
    let ghost t = symbols_view(syms@);
    let mut values: Vec<Value> = Vec::new();
    let mut pos = i;
    assert(values_view(values@) =~= Seq::<ValueView>::empty());
    loop
        invariant
            syms.len() < usize::MAX / 2,
            t == symbols_view(syms@),
            pos <= syms.len() + 2,
            parse_value_list(t, i as int, Seq::empty()) == parse_value_list(
                t,
                pos as int,
                values_view(values@),
            ),
        decreases syms.len() + 2 - pos,
    {
        if pos >= syms.len() {
            return Err(ParseFault::UnexpectedEnd);
        }
        if punct_at(syms, pos, Punct::CloseParenthesis) {
            return Ok((values, pos + 1));
        }
        match simple_value_at(syms, pos) {
            None => {
                return Err(ParseFault::UnexpectedSymbol);
            },
            Some(v) => {
                let ghost before = values@;
                values.push(v);
                assert(values_view(values@) =~= values_view(before).push(values@.last()@));
                if punct_at(syms, pos + 1, Punct::Also) {
                    pos = pos + 2;
                } else if punct_at(syms, pos + 1, Punct::CloseParenthesis) {
                    return Ok((values, pos + 2));
                } else if pos + 1 >= syms.len() {
                    return Err(ParseFault::UnexpectedEnd);
                } else {
                    return Err(ParseFault::UnexpectedSymbol);
                }
            },
        }
    }
}

impl Evaluatable {
    /// Reads the argument expression at `i`: a string or an integer as one value, or a name as a
    /// value, a call with values for arguments (`(` after it), or a sum (`+` after it). Returns
    /// it with the index after it.
    pub fn from_symbols(syms: &Vec<Symbol>, i: usize) -> (r: Result<(Evaluatable, usize), ParseFault>)
        requires
            syms.len() < usize::MAX / 2,
        ensures
            match parse_evaluatable(symbols_view(syms@), i as int) {
                Ok((e, j)) => r is Ok && (r->Ok_0).0@ == e && (r->Ok_0).1 == j,
                Err(f) => r == Err::<(Evaluatable, usize), ParseFault>(f),
            },
    {
        if i >= syms.len() {
            return Err(ParseFault::UnexpectedEnd);
        }
        match label_at(syms, i) {
            Some(label) => {
                if punct_at(syms, i + 1, Punct::OpenParenthesis) {
                    return match value_list(syms, i + 2) {
                        Ok((arguments, j)) => Ok((Evaluatable::Call { label, arguments }, j)),
                        Err(f) => Err(f),
                    };
                }
            },
            None => {},
        }
        match simple_value_at(syms, i) {
            None => Err(ParseFault::UnexpectedSymbol),
            Some(a) => {
                if matches!(syms[i], Symbol::Label(_)) && punct_at(syms, i + 1, Punct::Add) {
                    match simple_value_at(syms, i + 2) {
                        Some(b) => Ok((Evaluatable::Math { a, b }, i + 3)),
                        None => if i + 2 >= syms.len() {
                            Err(ParseFault::UnexpectedEnd)
                        } else {
                            Err(ParseFault::UnexpectedSymbol)
                        },
                    }
                } else {
                    Ok((Evaluatable::Value { value: a }, i + 1))
                }
            },
        }
    }
}

/// The name for the `n`-th argument of a call while the call runs.
fn eval_label_string(n: usize) -> (r: String)
    ensures
        r@ == eval_label(n as nat),
{
    let mut s = String::from_str("compiler_ast_call_eval_");
    let digits = decimal_string(n);
    s.append(digits.as_str());
    s
}

/// The function that `name` calls, after one alias hop.
fn resolve_alias_name(defs: &Vec<Definition>, name: &String) -> (r: String)
    ensures
        r@ == resolve_alias(definitions_view(defs@), name@),
{
    let ghost dv = definitions_view(defs@);
    let mut k = defs.len();
    assert(dv.take(k as int) =~= dv);
    while k > 0
        invariant
            k <= defs.len(),
            dv == definitions_view(defs@),
            resolve_alias(dv, name@) == resolve_alias(dv.take(k as int), name@),
        decreases k,
    {
        let ghost pre = dv.take(k as int);
        assert(pre.drop_last() =~= dv.take(k - 1));
        assert(pre.last() == defs@[k - 1]@);
        k = k - 1;
        match &defs[k] {
            Definition::Alias { from, to, export: _ } => {
                if from.eq(name) {
                    return to.clone();
                }
            },
            _ => {},
        }
    }
    assert(dv.take(0).len() == 0);
    name.clone()
}

/// The views of a sequence of imports.
pub open spec fn imports_view(v: Seq<Import>) -> Seq<ImportView> {
    v.map_values(|x: Import| ImportView { kind: x.kind, path: x.path@ })
}

/// A parsed program: its declarations, and the tasks at the top level and in `main`.
#[derive(Debug)]
pub struct Program {
    pub definitions: Vec<Definition>,
    pub global_tasks: Vec<Task>,
    pub main_tasks: Vec<Task>,
    /// Texts of imported files that are still to be parsed into this program.
    pub pending_file_additions: Vec<String>,
    /// The imports met so far, in order.
    pub imports: Vec<Import>,
}

impl View for Program {
    type V = ProgramView;

    open spec fn view(&self) -> ProgramView {
        ProgramView {
            definitions: definitions_view(self.definitions@),
            global_tasks: tasks_view(self.global_tasks@),
            main_tasks: tasks_view(self.main_tasks@),
            imports: imports_view(self.imports@),
        }
    }
}

/// The program with nothing in it.
pub open spec fn empty_program() -> ProgramView {
    ProgramView {
        definitions: Seq::empty(),
        global_tasks: Seq::empty(),
        main_tasks: Seq::empty(),
        imports: Seq::empty(),
    }
}

/// Reads a path of names from `i`, parted by `sep` (written `joint` in the result), up to a `;`.
fn read_path(syms: &Vec<Symbol>, i: usize, sep: Punct, joint: &str) -> (r: Result<(String, usize), ParseFault>)
    requires
        syms.len() < usize::MAX / 2,
        i <= syms.len() + 2,
    ensures
        match parse_path(symbols_view(syms@), i as int, punct_view(sep), joint@, Seq::empty()) {
            Ok((path, j)) => r is Ok && (r->Ok_0).0@ == path && (r->Ok_0).1 == j,
            Err(f) => r == Err::<(String, usize), ParseFault>(f),
        },
{
    let ghost t = symbols_view(syms@);
    let mut path = String::new();
    let mut pos = i;
    loop
        invariant
            syms.len() < usize::MAX / 2,
            t == symbols_view(syms@),
            pos <= syms.len() + 2,
            parse_path(t, i as int, punct_view(sep), joint@, Seq::empty()) == parse_path(
                t,
                pos as int,
                punct_view(sep),
                joint@,
                path@,
            ),
        decreases syms.len() + 2 - pos,
    {
        if pos >= syms.len() {
            return Err(ParseFault::UnexpectedEnd);
        }
        match label_at(syms, pos) {
            None => {
                return Err(ParseFault::ExpectedLabel);
            },
            Some(l) => {
                path.append(l.as_str());
                if punct_at(syms, pos + 1, sep) {
                    path.append(joint);
                    pos = pos + 2;
                } else if punct_at(syms, pos + 1, Punct::PhraseEnd) {
                    return Ok((path, pos + 2));
                } else if pos + 1 >= syms.len() {
                    return Err(ParseFault::UnexpectedEnd);
                } else {
                    return Err(ParseFault::ExpectedSemicolon);
                }
            },
        }
    }
}

impl Program {
    fn empty() -> (r: Program)
        ensures
            r@ == empty_program(),
            r.pending_file_additions@.len() == 0,
    {
        let r = Program {
            definitions: Vec::new(),
            global_tasks: Vec::new(),
            main_tasks: Vec::new(),
            pending_file_additions: Vec::new(),
            imports: Vec::new(),
        };
        assert(r@.definitions =~= Seq::<DefinitionView>::empty());
        assert(r@.global_tasks =~= Seq::<TaskView>::empty());
        assert(r@.main_tasks =~= Seq::<TaskView>::empty());
        assert(r@.imports =~= Seq::<ImportView>::empty());
        r
    }

    /// Appends a task to `main`.
    fn push_main_task(&mut self, task: Task)
        ensures
            final(self).definitions == old(self).definitions,
            final(self).global_tasks == old(self).global_tasks,
            final(self).pending_file_additions == old(self).pending_file_additions,
            final(self).imports == old(self).imports,
            tasks_view(final(self).main_tasks@) == tasks_view(old(self).main_tasks@).push(task@),
    {
        let ghost before = self.main_tasks@;
        self.main_tasks.push(task);
        assert(tasks_view(self.main_tasks@) =~= tasks_view(before).push(task@));
    }

    /// Reads the arguments of a call of `target`, from `i` (after the `(`), and appends the
    /// call's tasks to `main`. Returns the index after the closing `)`.
    fn call_statement(&mut self, syms: &Vec<Symbol>, i: usize, target: String) -> (r: Result<usize, ParseFault>)
        requires
            syms.len() < usize::MAX / 2,
            i <= syms.len() + 2,
        ensures
            final(self).definitions == old(self).definitions,
            final(self).global_tasks == old(self).global_tasks,
            final(self).pending_file_additions == old(self).pending_file_additions,
            final(self).imports == old(self).imports,
            match parse_arguments(symbols_view(syms@), i as int, Seq::empty()) {
                Ok((args, j)) => r is Ok && r->Ok_0 as int == j && tasks_view(
                    final(self).main_tasks@,
                ) == tasks_view(old(self).main_tasks@) + call_tasks(target@, args),
                Err(f) => r == Err::<usize, ParseFault>(f),
            },
    {
        let ghost t = symbols_view(syms@);
        let ghost base = tasks_view(self.main_tasks@);
        let ghost mut args: Seq<EvaluatableView> = Seq::empty();
        let mut arguments: Vec<Value> = Vec::new();
        let mut staged: Vec<bool> = Vec::new();
        let mut pos = i;
        proof {
            assert(values_view(arguments@) =~= call_arguments(args));
            assert(base + staging_tasks(args, 0) =~= base);
        }
        let mut end: usize = 0;
        loop
            invariant_except_break
                parse_arguments(t, i as int, Seq::empty()) == parse_arguments(t, pos as int, args),
            invariant
                syms.len() < usize::MAX / 2,
                t == symbols_view(syms@),
                pos <= syms.len() + 2,
                self.definitions == old(self).definitions,
                self.global_tasks == old(self).global_tasks,
                self.pending_file_additions == old(self).pending_file_additions,
                self.imports == old(self).imports,
                base == tasks_view(old(self).main_tasks@),
                arguments.len() == args.len(),
                staged.len() == args.len(),
                values_view(arguments@) == call_arguments(args),
                forall|k: int| 0 <= k < args.len() ==> staged@[k] == is_staged(#[trigger] args[k]),
                tasks_view(self.main_tasks@) == base + staging_tasks(args, args.len()),
            ensures
                parse_arguments(t, i as int, Seq::empty()) == Ok::<(Seq<EvaluatableView>, int), ParseFault>((args, end as int)),
            decreases syms.len() + 2 - pos,
        {
            if pos >= syms.len() {
                return Err(ParseFault::UnexpectedEnd);
            }
            if punct_at(syms, pos, Punct::CloseParenthesis) {
                end = pos + 1;
                break;
            }
            let n = arguments.len();
            let (e, j) = match Evaluatable::from_symbols(syms, pos) {
                Ok(found) => found,
                Err(f) => {
                    return Err(f);
                },
            };
            if j <= pos || j > syms.len() {
                return Err(ParseFault::UnexpectedSymbol);
            }
            let ghost ev = e@;
            let ghost old_args = args;
            proof {
                args = args.push(ev);
                assert(args.drop_last() == old_args);
                assert(staging_tasks(args, (args.len() - 1) as nat) =~= staging_tasks(old_args, old_args.len()))
                    by {
                    lemma_staging_prefix(old_args, ev, old_args.len());
                }
            }
            let ghost before_values = arguments@;
            match e {
                Evaluatable::Value { value } => {
                    arguments.push(value);
                    staged.push(false);
                    assert(tasks_view(self.main_tasks@) =~= base + staging_tasks(args, args.len()));
                },
                other => {
                    let label = eval_label_string(n);
                    self.push_main_task(Task::Evaluate { label, task: other });
                    arguments.push(Value::Label(eval_label_string(n)));
                    staged.push(true);
                    assert(tasks_view(self.main_tasks@) =~= base + staging_tasks(args, args.len()));
                },
            }
            assert(values_view(arguments@) =~= call_arguments(args)) by {
                assert(values_view(before_values) == call_arguments(old_args));
                assert forall|k: int| 0 <= k < old_args.len() implies #[trigger] call_arguments(args)[k]
                    == call_arguments(old_args)[k] by {}
            }
            if punct_at(syms, j, Punct::Also) {
                pos = j + 1;
            } else if punct_at(syms, j, Punct::CloseParenthesis) {
                end = j + 1;
                break;
            } else if j >= syms.len() {
                return Err(ParseFault::UnexpectedEnd);
            } else {
                return Err(ParseFault::UnexpectedSymbol);
            }
        }
        let ghost n = args.len();
        let ghost mid = tasks_view(self.main_tasks@);
        self.push_main_task(Task::Call { function_identifier: target, arguments });
        let mut k: usize = 0;
        proof {
            assert(release_tasks(args, 0) =~= Seq::<TaskView>::empty());
        }
        while k < staged.len()
            invariant
                self.definitions == old(self).definitions,
                self.global_tasks == old(self).global_tasks,
                self.pending_file_additions == old(self).pending_file_additions,
                self.imports == old(self).imports,
                staged.len() == n,
                n == args.len(),
                k <= n,
                forall|q: int| 0 <= q < args.len() ==> staged@[q] == is_staged(#[trigger] args[q]),
                tasks_view(self.main_tasks@) == mid.push(
                    TaskView::Call { function_identifier: target@, arguments: call_arguments(args) },
                ) + release_tasks(args, k as nat),
            decreases n - k,
        {
            if staged[k] {
                let label = eval_label_string(k);
                self.push_main_task(Task::FreeEvaluated { label });
            }
            k = k + 1;
        }
        proof {
            assert(tasks_view(self.main_tasks@) =~= base + call_tasks(target@, args));
        }
        Ok(end)
    }
}

/// Appending an argument leaves the staging of the earlier ones as it was.
proof fn lemma_staging_prefix(args: Seq<EvaluatableView>, e: EvaluatableView, n: nat)
    requires
        n <= args.len(),
    ensures
        staging_tasks(args.push(e), n) == staging_tasks(args, n),
        release_tasks(args.push(e), n) == release_tasks(args, n),
    decreases n,
{
    if n > 0 {
        lemma_staging_prefix(args, e, (n - 1) as nat);
        assert(args.push(e)[n - 1] == args[n - 1]);
    }
}

impl Program {
    /// Reads the statements of a `main` block, from `i` (after the `{`) to its closing `}`, and
    /// appends their tasks to `main`. Returns the index after the `}`.
    pub fn main_scope(&mut self, syms: &Vec<Symbol>, i: usize) -> (r: Result<usize, ParseFault>)
        requires
            syms.len() < usize::MAX / 2,
            i <= syms.len() + 2,
        ensures
            final(self).definitions == old(self).definitions,
            final(self).global_tasks == old(self).global_tasks,
            final(self).pending_file_additions == old(self).pending_file_additions,
            final(self).imports == old(self).imports,
            match parse_main(
                symbols_view(syms@),
                i as int,
                definitions_view(old(self).definitions@),
                tasks_view(old(self).main_tasks@),
            ) {
                Ok((tasks, j)) => r is Ok && r->Ok_0 as int == j && tasks_view(
                    final(self).main_tasks@,
                ) == tasks,
                Err(f) => r == Err::<usize, ParseFault>(f),
            },
    {
        let ghost t = symbols_view(syms@);
        let ghost dv = definitions_view(self.definitions@);
        let mut pos = i;
        loop
            invariant
                syms.len() < usize::MAX / 2,
                t == symbols_view(syms@),
                pos <= syms.len() + 2,
                self.definitions == old(self).definitions,
                self.global_tasks == old(self).global_tasks,
                self.pending_file_additions == old(self).pending_file_additions,
                self.imports == old(self).imports,
                dv == definitions_view(self.definitions@),
                parse_main(t, i as int, dv, tasks_view(old(self).main_tasks@)) == parse_main(
                    t,
                    pos as int,
                    dv,
                    tasks_view(self.main_tasks@),
                ),
            decreases syms.len() + 2 - pos,
        {
            if pos >= syms.len() {
                return Err(ParseFault::UnclosedMain);
            }
            match &syms[pos] {
                Symbol::Comment(_) => {
                    pos = pos + 1;
                },
                Symbol::Comments(_) => {
                    pos = pos + 1;
                },
                Symbol::CloseBrace => {
                    return Ok(pos + 1);
                },
                Symbol::Keyword(k) => {
                    if *k == Keyword::Kreturn {
                        if punct_at(syms, pos + 1, Punct::PhraseEnd) {
                            self.push_main_task(Task::ExitBlock);
                            pos = pos + 2;
                        } else if pos + 1 >= syms.len() {
                            return Err(ParseFault::UnexpectedEnd);
                        } else {
                            return Err(ParseFault::ExpectedSemicolon);
                        }
                    } else {
                        return Err(ParseFault::Unimplemented);
                    }
                },
                Symbol::Label(l) => {
                    if punct_at(syms, pos + 1, Punct::PhraseEnd) {
                        let target = resolve_alias_name(&self.definitions, l);
                        let arguments: Vec<Value> = Vec::new();
                        assert(values_view(arguments@) =~= Seq::<ValueView>::empty());
                        self.push_main_task(Task::Call { function_identifier: target, arguments });
                        pos = pos + 2;
                    } else if punct_at(syms, pos + 1, Punct::OpenParenthesis) {
                        let target = resolve_alias_name(&self.definitions, l);
                        let j = match self.call_statement(syms, pos + 2, target) {
                            Ok(j) => j,
                            Err(f) => {
                                return Err(f);
                            },
                        };
                        if j <= pos || j > syms.len() {
                            return Err(ParseFault::UnexpectedSymbol);
                        }
                        if punct_at(syms, j, Punct::PhraseEnd) {
                            pos = j + 1;
                        } else if j >= syms.len() {
                            return Err(ParseFault::UnexpectedEnd);
                        } else {
                            return Err(ParseFault::ExpectedSemicolon);
                        }
                    } else if pos + 1 >= syms.len() {
                        return Err(ParseFault::UnexpectedEnd);
                    } else {
                        return Err(ParseFault::UnexpectedSymbol);
                    }
                },
                _ => {
                    return Err(ParseFault::UnexpectedSymbol);
                },
            }
        }
    }

    /// Appends a definition.
    fn push_definition(&mut self, d: Definition)
        ensures
            final(self)@ == old(self)@.with_definition(d@),
            final(self).pending_file_additions == old(self).pending_file_additions,
    {
        let ghost before = self.definitions@;
        self.definitions.push(d);
        assert(definitions_view(self.definitions@) =~= definitions_view(before).push(d@));
    }

    /// Appends an import.
    fn push_import(&mut self, kind: ImportKind, path: String)
        ensures
            final(self)@ == old(self)@.with_import(kind, path@),
            final(self).pending_file_additions == old(self).pending_file_additions,
    {
        let ghost before = self.imports@;
        let ghost pv = path@;
        self.imports.push(Import { kind, path });
        assert(imports_view(self.imports@) =~= imports_view(before).push(ImportView { kind, path: pv }));
    }
}

/// Checks the header of the trait declared at `pos`: a name, a `{`, and a `}` before the end.
/// A well-formed trait block has no meaning yet.
fn trait_header(syms: &Vec<Symbol>, pos: usize) -> (r: Result<usize, ParseFault>)
    requires
        syms.len() < usize::MAX / 2,
        pos < syms.len(),
    ensures
        ({
            let t = symbols_view(syms@);
            let i = pos as int;
            r == if i + 1 >= t.len() {
                Err::<usize, ParseFault>(ParseFault::UnexpectedEnd)
            } else if label_of(t, i + 1) is None {
                Err(ParseFault::ExpectedLabel)
            } else if !at(t, i + 2, SymbolView::OpenBrace) {
                Err(missing(t, i + 2, ParseFault::ExpectedOpenBrace))
            } else if closes_after(t, i + 3) {
                Err(ParseFault::Unimplemented)
            } else {
                Err(ParseFault::UnexpectedEnd)
            }
        }),
{
    let ghost t = symbols_view(syms@);
    if pos + 1 >= syms.len() {
        return Err(ParseFault::UnexpectedEnd);
    }
    if label_at(syms, pos + 1).is_none() {
        return Err(ParseFault::ExpectedLabel);
    }
    if !punct_at(syms, pos + 2, Punct::OpenBrace) {
        return Err(if pos + 2 >= syms.len() {
            ParseFault::UnexpectedEnd
        } else {
            ParseFault::ExpectedOpenBrace
        });
    }
    let mut k = pos + 3;
    while k < syms.len()
        invariant
            t == symbols_view(syms@),
            pos + 1 < syms.len(),
            label_of(t, pos + 1) is Some,
            at(t, pos + 2, SymbolView::OpenBrace),
            pos + 3 <= k <= syms.len(),
            forall|q: int| pos + 3 <= q < k ==> t[q] != SymbolView::CloseBrace,
        decreases syms.len() - k,
    {
        if matches!(syms[k], Symbol::CloseBrace) {
            assert(t[k as int] == SymbolView::CloseBrace);
            assert(closes_after(t, pos + 3));
            return Err(ParseFault::Unimplemented);
        }
        k = k + 1;
    }
    Err(ParseFault::UnexpectedEnd)
}

/// Reads the top-level statement at `pos` into `program`; returns the index after it.
fn global_statement(program: &mut Program, syms: &Vec<Symbol>, pos: usize) -> (r: Result<usize, ParseFault>)
    requires
        syms.len() < usize::MAX / 2,
        pos < syms.len(),
    ensures
        final(program).pending_file_additions == old(program).pending_file_additions,
        match global_step(symbols_view(syms@), pos as int, old(program)@) {
            Ok((p, j)) => r is Ok && r->Ok_0 as int == j && final(program)@ == p,
            Err(f) => r == Err::<usize, ParseFault>(f),
        },
{
    match &syms[pos] {
        Symbol::Comment(_) => {
            return Ok(pos + 1);
        },
        Symbol::Comments(_) => {
            return Ok(pos + 1);
        },
        Symbol::Keyword(k) => {
            let k = *k;
            if k == Keyword::Ksystem {
                match label_at(syms, pos + 1) {
                    None => {
                        return Err(
                            if pos + 1 >= syms.len() {
                                ParseFault::UnexpectedEnd
                            } else {
                                ParseFault::ExpectedLabel
                            },
                        );
                    },
                    Some(label) => {
                        if punct_at(syms, pos + 2, Punct::PhraseEnd) {
                            program.push_definition(Definition::System { label });
                            return Ok(pos + 3);
                        } else if pos + 2 >= syms.len() {
                            return Err(ParseFault::UnexpectedEnd);
                        } else {
                            return Err(ParseFault::ExpectedSemicolon);
                        }
                    },
                }
            } else if k == Keyword::Kfile || k == Keyword::Kinclude {
                let (path, j) = match read_path(syms, pos + 1, Punct::Is, "/") {
                    Ok(found) => found,
                    Err(f) => {
                        return Err(f);
                    },
                };
                if k == Keyword::Kfile {
                    program.push_definition(Definition::File { label: path.clone() });
                    program.push_import(ImportKind::File, path);
                } else {
                    program.push_import(ImportKind::Std, path);
                }
                return Ok(j);
            } else if k == Keyword::Kmain {
                if punct_at(syms, pos + 1, Punct::OpenBrace) {
                    let ghost before = program@;
                    let j = match program.main_scope(syms, pos + 2) {
                        Ok(j) => j,
                        Err(f) => {
                            return Err(f);
                        },
                    };
                    assert(program@ == before.with_main_tasks(program@.main_tasks));
                    return Ok(j);
                } else if pos + 1 >= syms.len() {
                    return Err(ParseFault::UnexpectedEnd);
                } else {
                    return Err(ParseFault::ExpectedOpenBrace);
                }
            } else if k == Keyword::Ktrait {
                return trait_header(syms, pos);
            } else if pos + 1 >= syms.len() {
                return Err(ParseFault::UnexpectedEnd);
            } else {
                return Err(ParseFault::Unimplemented);
            }
        },
        Symbol::Compiler => {
            match label_at(syms, pos + 1) {
                None => {
                    return Err(
                        if pos + 1 >= syms.len() {
                            ParseFault::UnexpectedEnd
                        } else {
                            ParseFault::ExpectedLabel
                        },
                    );
                },
                Some(l) => {
                    let core = String::from_str("core");
                    if l.eq(&core) {
                        let (path, j) = match read_path(syms, pos + 2, Punct::Divide, "/") {
                            Ok(found) => found,
                            Err(f) => {
                                return Err(f);
                            },
                        };
                        program.push_import(ImportKind::Core, path);
                        return Ok(j);
                    } else {
                        return Err(ParseFault::Unimplemented);
                    }
                },
            }
        },
        Symbol::Label(l) => {
            if punct_at(syms, pos + 1, Punct::Alias) || punct_at(syms, pos + 1, Punct::ExportedAlias) {
                let export = punct_at(syms, pos + 1, Punct::ExportedAlias);
                let (to, j) = match read_path(syms, pos + 2, Punct::Module, "~") {
                    Ok(found) => found,
                    Err(f) => {
                        return Err(f);
                    },
                };
                program.push_definition(Definition::Alias { from: l.clone(), to, export });
                return Ok(j);
            } else if punct_at(syms, pos + 1, Punct::OpenParenthesis) {
                return Err(ParseFault::Unimplemented);
            } else if pos + 1 >= syms.len() {
                return Err(ParseFault::UnexpectedEnd);
            } else {
                return Err(ParseFault::UnexpectedSymbol);
            }
        },
        _ => {
            return Err(ParseFault::UnexpectedSymbol);
        },
    }
}

/// Reads the top-level statements of `syms` into `program`.
pub fn global_scope(program: &mut Program, syms: &Vec<Symbol>) -> (r: Result<(), ParseFault>)
    requires
        syms.len() < usize::MAX / 2,
    ensures
        final(program).pending_file_additions == old(program).pending_file_additions,
        match parse_global(symbols_view(syms@), 0, old(program)@) {
            Ok(p) => r is Ok && final(program)@ == p,
            Err(f) => r == Err::<(), ParseFault>(f),
        },
{
    let ghost t = symbols_view(syms@);
    let mut pos: usize = 0;
    loop
        invariant
            syms.len() < usize::MAX / 2,
            t == symbols_view(syms@),
            pos <= syms.len(),
            program.pending_file_additions == old(program).pending_file_additions,
            parse_global(t, 0, old(program)@) == parse_global(t, pos as int, program@),
        decreases syms.len() - pos,
    {
        if pos >= syms.len() {
            return Ok(());
        }
        let j = match global_statement(program, syms, pos) {
            Ok(j) => j,
            Err(f) => {
                return Err(f);
            },
        };
        if j <= pos || j > syms.len() {
            return Err(ParseFault::UnexpectedSymbol);
        }
        pos = j;
    }
}

/// Why source text did not become a program.
#[derive(Debug, Clone, Copy, PartialEq, Eq, Structural)]
pub enum SourceFault {
    Lex(LexFault),
    Parse(ParseFault),
    /// More symbols than the parser can count.
    TooLong,
}

/// The program that the symbols `t` make, after the top-level statements of the text `prefix`.
pub open spec fn program_of(prefix: Option<Seq<char>>, t: Seq<SymbolView>) -> Result<
    ProgramView,
    SourceFault,
> {
    let start = match prefix {
        None => Ok(empty_program()),
        Some(text) => match tokenize(text, 0) {
            Err(f) => Err(SourceFault::Lex(f)),
            Ok(pt) => if pt.len() >= usize::MAX / 2 {
                Err(SourceFault::TooLong)
            } else {
                match parse_global(pt, 0, empty_program()) {
                    Err(f) => Err(SourceFault::Parse(f)),
                    Ok(p) => Ok(p),
                }
            },
        },
    };
    match start {
        Err(f) => Err(f),
        Ok(p0) => if t.len() >= usize::MAX / 2 {
            Err(SourceFault::TooLong)
        } else {
            match parse_global(t, 0, p0) {
                Err(f) => Err(SourceFault::Parse(f)),
                Ok(p) => Ok(p),
            }
        },
    }
}

impl Program {
    /// Builds the program that the symbols of `lst` make; the top-level statements of the text
    /// `prefix` (a prelude) come first.
    pub fn from_lst(lst: SyntaxRoot, prefix: Option<String>) -> (r: Result<Program, SourceFault>)
        ensures
            match program_of(
                match prefix {
                    Some(s) => Some(s@),
                    None => None,
                },
                symbols_view(lst.symbols@),
            ) {
                Ok(p) => r is Ok && r->Ok_0@ == p && r->Ok_0.pending_file_additions@.len() == 0,
                Err(f) => r == Err::<Program, SourceFault>(f),
            },
    {
        let mut program = Program::empty();
        match prefix {
            Some(text) => {
                let pre = match SyntaxRoot::from_string(text) {
                    Ok(pre) => pre,
                    Err(f) => {
                        return Err(SourceFault::Lex(f));
                    },
                };
                if pre.symbols.len() >= usize::MAX / 2 {
                    return Err(SourceFault::TooLong);
                }
                match global_scope(&mut program, &pre.symbols) {
                    Ok(()) => {},
                    Err(f) => {
                        return Err(SourceFault::Parse(f));
                    },
                }
            },
            None => {},
        }
        if lst.symbols.len() >= usize::MAX / 2 {
            return Err(SourceFault::TooLong);
        }
        match global_scope(&mut program, &lst.symbols) {
            Ok(()) => Ok(program),
            Err(f) => Err(SourceFault::Parse(f)),
        }
    }
}

proof fn lemma_staging_one(args: Seq<EvaluatableView>, m: int, n: nat)
    requires
        0 <= m < args.len(),
        n <= args.len(),
        is_staged(args[m]),
        forall|k: int| 0 <= k < args.len() && k != m ==> !is_staged(#[trigger] args[k]),
    ensures
        staging_tasks(args, n) == if n > m {
            seq![TaskView::Evaluate { label: eval_label(m as nat), task: args[m] }]
        } else {
            Seq::<TaskView>::empty()
        },
        release_tasks(args, n) == if n > m {
            seq![TaskView::FreeEvaluated { label: eval_label(m as nat) }]
        } else {
            Seq::<TaskView>::empty()
        },
    decreases n,
{
    if n > 0 {
        lemma_staging_one(args, m, (n - 1) as nat);
        if n - 1 == m {
            assert(staging_tasks(args, n) =~= seq![
                TaskView::Evaluate { label: eval_label(m as nat), task: args[m] },
            ]);
            assert(release_tasks(args, n) =~= seq![
                TaskView::FreeEvaluated { label: eval_label(m as nat) },
            ]);
        } else {
            assert(!is_staged(args[n - 1]));
            assert(staging_tasks(args, n) =~= staging_tasks(args, (n - 1) as nat));
            assert(release_tasks(args, n) =~= release_tasks(args, (n - 1) as nat));
        }
    }
}

/// A call whose only computed argument stands at position `m` becomes three tasks, in order:
/// the evaluation of that argument under its synthetic name, the call (which receives the name
/// in place of the argument), and the release of the name.
pub proof fn lemma_single_staged_argument(target: Seq<char>, args: Seq<EvaluatableView>, m: int)
    requires
        0 <= m < args.len(),
        is_staged(args[m]),
        forall|k: int| 0 <= k < args.len() && k != m ==> !is_staged(#[trigger] args[k]),
    ensures
        call_tasks(target, args) == seq![
            TaskView::Evaluate { label: eval_label(m as nat), task: args[m] },
            TaskView::Call { function_identifier: target, arguments: call_arguments(args) },
            TaskView::FreeEvaluated { label: eval_label(m as nat) },
        ],
        call_arguments(args)[m] == ValueView::Label(eval_label(m as nat)),
{
    lemma_staging_one(args, m, args.len());
    assert(call_tasks(target, args) =~= seq![
        TaskView::Evaluate { label: eval_label(m as nat), task: args[m] },
        TaskView::Call { function_identifier: target, arguments: call_arguments(args) },
        TaskView::FreeEvaluated { label: eval_label(m as nat) },
    ]);
}

impl Program {
    /// Merges `rhs` into this program: its definitions follow this program's, and its top-level
    /// and `main` tasks, in that order, follow this program's top-level tasks.
    pub fn add(self, rhs: Program) -> (r: Program)
        ensures
            r@.definitions == self@.definitions + rhs@.definitions,
            r@.global_tasks == self@.global_tasks + rhs@.global_tasks + rhs@.main_tasks,
            r@.main_tasks == self@.main_tasks,
            r@.imports == self@.imports,
    {
        let mut out = self;
        let mut two = rhs;
        let ghost d1 = out.definitions@;
        let ghost d2 = two.definitions@;
        let ghost g1 = out.global_tasks@;
        let ghost g2 = two.global_tasks@;
        let ghost m2 = two.main_tasks@;
        out.definitions.append(&mut two.definitions);
        out.global_tasks.append(&mut two.global_tasks);
        out.global_tasks.append(&mut two.main_tasks);
        assert(definitions_view(out.definitions@) =~= definitions_view(d1) + definitions_view(d2));
        assert(tasks_view(out.global_tasks@) =~= tasks_view(g1) + tasks_view(g2) + tasks_view(m2));
        out
    }
}

proof fn lemma_staged_listed(args: Seq<EvaluatableView>, n: nat, i: int)
    requires
        0 <= i < n <= args.len(),
        is_staged(args[i]),
    ensures
        staging_tasks(args, n).contains(TaskView::Evaluate { label: eval_label(i as nat), task: args[i] }),
        release_tasks(args, n).contains(TaskView::FreeEvaluated { label: eval_label(i as nat) }),
    decreases n,
{
    let e = TaskView::Evaluate { label: eval_label(i as nat), task: args[i] };
    let f = TaskView::FreeEvaluated { label: eval_label(i as nat) };
    let prev_s = staging_tasks(args, (n - 1) as nat);
    let prev_r = release_tasks(args, (n - 1) as nat);
    if i == n - 1 {
        assert(staging_tasks(args, n) == prev_s + seq![e]);
        assert(staging_tasks(args, n)[prev_s.len() as int] == e);
        assert(release_tasks(args, n) == prev_r + seq![f]);
        assert(release_tasks(args, n)[prev_r.len() as int] == f);
    } else {
        lemma_staged_listed(args, (n - 1) as nat, i);
        let ks = choose|k: int| 0 <= k < prev_s.len() && prev_s[k] == e;
        let kr = choose|k: int| 0 <= k < prev_r.len() && prev_r[k] == f;
        assert(staging_tasks(args, n)[ks] == e);
        assert(release_tasks(args, n)[kr] == f);
    }
}

/// Every computed argument of a call is evaluated before the call and released after it, under
/// the same synthetic name, which the call receives in its place.
pub proof fn lemma_staged_arguments_released(target: Seq<char>, args: Seq<EvaluatableView>, i: int)
    requires
        0 <= i < args.len(),
        is_staged(args[i]),
    ensures
        exists|a: int, b: int|
            0 <= a < b < call_tasks(target, args).len() && call_tasks(target, args)[a]
                == (TaskView::Evaluate { label: eval_label(i as nat), task: args[i] }) && call_tasks(
                target,
                args,
            )[b] == (TaskView::FreeEvaluated { label: eval_label(i as nat) }),
        call_arguments(args)[i] == ValueView::Label(eval_label(i as nat)),
{
    lemma_staged_listed(args, args.len(), i);
    let st = staging_tasks(args, args.len());
    let rl = release_tasks(args, args.len());
    let call = TaskView::Call { function_identifier: target, arguments: call_arguments(args) };
    let e = TaskView::Evaluate { label: eval_label(i as nat), task: args[i] };
    let f = TaskView::FreeEvaluated { label: eval_label(i as nat) };
    let a = choose|k: int| 0 <= k < st.len() && st[k] == e;
    let kr = choose|k: int| 0 <= k < rl.len() && rl[k] == f;
    let all = call_tasks(target, args);
    assert(all == st + seq![call] + rl);
    assert(all[a] == e);
    assert(all[st.len() + 1 + kr] == f);
}

/// The program that the text `text` adds to `p`, if it reads.
pub open spec fn pass_of(text: Seq<char>, p: ProgramView) -> Result<ProgramView, SourceFault> {
    match tokenize(text, 0) {
        Err(f) => Err(SourceFault::Lex(f)),
        Ok(t) => if t.len() >= usize::MAX / 2 {
            Err(SourceFault::TooLong)
        } else {
            match parse_global(t, 0, p) {
                Err(f) => Err(SourceFault::Parse(f)),
                Ok(q) => Ok(q),
            }
        },
    }
}

/// The texts waiting in a program, joined, each after a line break.
pub open spec fn pending_text(p: Seq<Seq<char>>) -> Seq<char>
    decreases p.len(),
{
    if p.len() == 0 {
        Seq::empty()
    } else {
        pending_text(p.drop_last()) + "\n"@ + p.last()
    }
}

impl Program {
    /// Parses the texts waiting in `pending_file_additions`, joined, into the program, and
    /// empties the queue.
    pub fn merge_pending(&mut self) -> (r: Result<(), SourceFault>)
        ensures
            match pass_of(pending_text(old(self).pending_file_additions@.map_values(|t: String| t@)), old(self)@) {
                Ok(p) => r is Ok && final(self)@ == p && final(self).pending_file_additions@.len() == 0,
                Err(f) => r == Err::<(), SourceFault>(f),
            },
    {
        let ghost pv = self.pending_file_additions@.map_values(|t: String| t@);
        let mut glob_addition = String::new();
        let mut k: usize = 0;
        assert(pv.take(0) =~= Seq::<Seq<char>>::empty());
        while k < self.pending_file_additions.len()
            invariant
                k <= self.pending_file_additions.len(),
                pv == self.pending_file_additions@.map_values(|t: String| t@),
                glob_addition@ == pending_text(pv.take(k as int)),
            decreases self.pending_file_additions.len() - k,
        {
            proof {
                assert(pv.take(k + 1).drop_last() =~= pv.take(k as int));
                assert(pv.take(k + 1).last() == self.pending_file_additions@[k as int]@);
            }
            glob_addition.append("\n");
            glob_addition.append(self.pending_file_additions[k].as_str());
            k = k + 1;
        }
        proof {
            assert(pv.take(k as int) =~= pv);
        }
        self.pending_file_additions = Vec::new();
        let parsed = match SyntaxRoot::from_string(glob_addition) {
            Ok(parsed) => parsed,
            Err(f) => {
                return Err(SourceFault::Lex(f));
            },
        };
        if parsed.symbols.len() >= usize::MAX / 2 {
            return Err(SourceFault::TooLong);
        }
        match global_scope(self, &parsed.symbols) {
            Ok(()) => Ok(()),
            Err(f) => Err(SourceFault::Parse(f)),
        }
    }
}

} // verus!
