use vstd::prelude::*;

use crate::utils::{decimal_of, decimal_string, push_char};

verus! {

/// A piece of data as the hardware holds it.
#[derive(Debug, PartialEq)]
pub enum HardwareData {
    /// A register that holds the data.
    ImmediateRegister(String),
    /// A register that points to the data.
    RefrenceRegister(String),
    /// A label that points to the data.
    Label(String),
    /// Raw bytes.
    Immediate(Vec<u8>),
}

/// What a [HardwareData] stands for.
pub enum HardwareDataView {
    ImmediateRegister(Seq<char>),
    RefrenceRegister(Seq<char>),
    Label(Seq<char>),
    Immediate(Seq<u8>),
}

impl View for HardwareData {
    type V = HardwareDataView;

    open spec fn view(&self) -> HardwareDataView {
        match self {
            HardwareData::ImmediateRegister(r) => HardwareDataView::ImmediateRegister(r@),
            HardwareData::RefrenceRegister(r) => HardwareDataView::RefrenceRegister(r@),
            HardwareData::Label(l) => HardwareDataView::Label(l@),
            HardwareData::Immediate(b) => HardwareDataView::Immediate(b@),
        }
    }
}

/// Capabilities that a platform may offer beyond the core set of generated code.
#[derive(Debug, Clone, Copy, PartialEq, Eq, Structural)]
pub enum Extension {
    /// Pushes data onto a stack.
    StackPush,
    /// Pops data from a stack.
    StackPop,
    /// Jumps to a location if a value is zero.
    GotoIfZero,
    /// Adds two values and stores the sum in a third place.
    AddStore,
}

/// Writes assembly for one platform. Each piece of text is given by a spec function, so that
/// code built from the pieces can state what it writes; `None` marks an operand form that the
/// platform does not take.
pub trait AssemblyGenerator: Sized {
    spec fn spec_label(label: Seq<char>) -> Seq<char>;

    spec fn spec_goto(target: HardwareDataView) -> Option<Seq<char>>;

    spec fn spec_call(target: HardwareDataView) -> Option<Seq<char>>;

    spec fn spec_endcall() -> Seq<char>;

    spec fn spec_push(data: HardwareDataView) -> Option<Seq<char>>;

    spec fn spec_set(location: HardwareDataView, value: HardwareDataView) -> Option<Seq<char>>;

    spec fn spec_argument_register(n: nat) -> Option<Seq<char>>;

    spec fn spec_data(label: Seq<char>, bytes: Seq<u8>) -> Seq<char>;

    /// The width of pointers, in bytes.
    fn pointer_width() -> u8;

    /// A label for the code that follows.
    fn label(label: String) -> (r: String)
        ensures
            r@ == Self::spec_label(label@),
    ;

    /// Continues at `target`.
    fn goto(target: HardwareData) -> (r: Option<String>)
        ensures
            match Self::spec_goto(target@) {
                Some(t) => r is Some && r->0@ == t,
                None => r is None,
            },
    ;

    /// Calls the code at `target`.
    fn call(target: HardwareData) -> (r: Option<String>)
        ensures
            match Self::spec_call(target@) {
                Some(t) => r is Some && r->0@ == t,
                None => r is None,
            },
    ;

    /// Stores `bytes` at a location named `label`.
    fn data(label: String, bytes: &Vec<u8>) -> (r: String)
        ensures
            r@ == Self::spec_data(label@, bytes@),
    ;

    /// Returns from the current code.
    fn endcall() -> (r: String)
        ensures
            r@ == Self::spec_endcall(),
    ;

    /// Saves `data` on the stack.
    fn push(data: HardwareData) -> (r: Option<String>)
        ensures
            match Self::spec_push(data@) {
                Some(t) => r is Some && r->0@ == t,
                None => r is None,
            },
    ;

    /// Sets `location` to `value`.
    fn set(location: HardwareData, value: HardwareData) -> (r: Option<String>)
        ensures
            match Self::spec_set(location@, value@) {
                Some(t) => r is Some && r->0@ == t,
                None => r is None,
            },
    ;

    /// The register that carries the `n`-th argument of a call, if there is one.
    fn argument_register(n: usize) -> (r: Option<String>)
        ensures
            match Self::spec_argument_register(n as nat) {
                Some(t) => r is Some && r->0@ == t,
                None => r is None,
            },
    ;

    /// The extensions the platform offers.
    fn extensions() -> Vec<Extension>;

    fn new() -> Self;
}

/// Assembly for 64-bit ARM processors.
#[derive(Debug)]
pub struct AArch64AssemblyGenerator {}

/// The registers that carry the first eight arguments of a call.
pub open spec fn aarch64_argument_register(n: nat) -> Option<Seq<char>> {
    if n == 0 {
        Some("x0"@)
    } else if n == 1 {
        Some("x1"@)
    } else if n == 2 {
        Some("x2"@)
    } else if n == 3 {
        Some("x3"@)
    } else if n == 4 {
        Some("x4"@)
    } else if n == 5 {
        Some("x5"@)
    } else if n == 6 {
        Some("x6"@)
    } else if n == 7 {
        Some("x7"@)
    } else {
        None
    }
}

impl AssemblyGenerator for AArch64AssemblyGenerator {
    open spec fn spec_label(label: Seq<char>) -> Seq<char> {
        label + ":\n"@
    }

    open spec fn spec_goto(target: HardwareDataView) -> Option<Seq<char>> {
        match target {
            HardwareDataView::Label(l) => Some("mov x9, ["@ + l + "]\n"@ + "br x9\n"@),
            HardwareDataView::ImmediateRegister(r) => Some("br "@ + r + "\n"@),
            _ => None,
        }
    }

    open spec fn spec_call(target: HardwareDataView) -> Option<Seq<char>> {
        match target {
            HardwareDataView::Label(l) => Some(
                "stp x29, x30, [sp, #-16]!\n"@ + "mov x29, sp\n"@ + "adr x9, "@ + l + "\n"@
                    + "blr x9\n"@ + "ldp x29, x30, [sp], #16\n"@,
            ),
            HardwareDataView::ImmediateRegister(r) => Some(
                "stp x29, x30, [sp, #-16]!\n"@ + "mov x29, sp\n"@ + "blr "@ + r + "\n"@
                    + "ldp x29, x30, [sp], #16\n"@,
            ),
            _ => None,
        }
    }

    open spec fn spec_endcall() -> Seq<char> {
        "ret\n"@
    }

    open spec fn spec_push(data: HardwareDataView) -> Option<Seq<char>> {
        match data {
            HardwareDataView::ImmediateRegister(r) => Some("str "@ + r + ", [sp, #-16]!\n"@),
            _ => None,
        }
    }

    open spec fn spec_set(location: HardwareDataView, value: HardwareDataView) -> Option<Seq<char>> {
        match location {
            HardwareDataView::ImmediateRegister(reg) => match value {
                HardwareDataView::ImmediateRegister(reg2) => Some("mov "@ + reg + ", "@ + reg2 + "\n"@),
                HardwareDataView::Label(l) => Some("adr "@ + reg + ", "@ + l + "\n"@),
                HardwareDataView::Immediate(imm) => if imm.len() == 1 {
                    Some("movz "@ + reg + ", #"@ + decimal_of(imm[0] as nat) + "\n"@)
                } else {
                    None
                },
                _ => None,
            },
            _ => None,
        }
    }

    open spec fn spec_argument_register(n: nat) -> Option<Seq<char>> {
        aarch64_argument_register(n)
    }

    open spec fn spec_data(label: Seq<char>, bytes: Seq<u8>) -> Seq<char> {
        label + ":\n"@ + ".byte "@ + byte_list(bytes) + "\n"@ + ".align 2\n"@
    }

    fn pointer_width() -> u8 {
        8
    }

    fn label(label: String) -> (r: String) {
        let mut out = label;
        out.append(":\n");
        out
    }

    fn goto(target: HardwareData) -> (r: Option<String>) {
        match target {
            HardwareData::Label(label_name) => {
                let mut output = String::from_str("mov x9, [");
                output.append(label_name.as_str());
                output.append("]\n");
                output.append("br x9\n");
                Some(output)
            },
            HardwareData::ImmediateRegister(register_name) => {
                let mut output = String::from_str("br ");
                output.append(register_name.as_str());
                output.append("\n");
                Some(output)
            },
            _ => None,
        }
    }

    fn call(target: HardwareData) -> (r: Option<String>) {
        match target {
            HardwareData::Label(label_name) => {
                let mut output = String::from_str("stp x29, x30, [sp, #-16]!\n");
                output.append("mov x29, sp\n");
                output.append("adr x9, ");
                output.append(label_name.as_str());
                output.append("\n");
                output.append("blr x9\n");
                output.append("ldp x29, x30, [sp], #16\n");
                Some(output)
            },
            HardwareData::ImmediateRegister(register_name) => {
                let mut output = String::from_str("stp x29, x30, [sp, #-16]!\n");
                output.append("mov x29, sp\n");
                output.append("blr ");
                output.append(register_name.as_str());
                output.append("\n");
                output.append("ldp x29, x30, [sp], #16\n");
                Some(output)
            },
            _ => None,
        }
    }

    fn endcall() -> (r: String) {
        String::from_str("ret\n")
    }

    fn data(label: String, bytes: &Vec<u8>) -> (r: String) {
        let mut output = label;
        output.append(":\n");
        output.append(".byte ");
        let mut i: usize = 0;
        let ghost start = output@;
        assert(bytes@.take(0) =~= Seq::<u8>::empty());
        while i < bytes.len()
            invariant
                i <= bytes.len(),
                output@ == start + byte_list(bytes@.take(i as int)),
            decreases bytes.len() - i,
        {
            proof {
                assert(bytes@.take(i + 1).drop_last() =~= bytes@.take(i as int));
                assert(bytes@.take(i + 1).last() == bytes@[i as int]);
            }
            if i > 0 {
                output.append(", ");
            }
            output.append("0x");
            let digits = hex_string(bytes[i]);
            output.append(digits.as_str());
            proof {
                if i == 0 {
                    assert(byte_list(bytes@.take(1)) == "0x"@ + hex_upper(bytes@[0] as nat));
                }
            }
            i = i + 1;
        }
        proof {
            assert(bytes@.take(i as int) =~= bytes@);
        }
        output.append("\n");
        output.append(".align 2\n");
        output
    }

    fn push(data: HardwareData) -> (r: Option<String>) {
        match data {
            HardwareData::ImmediateRegister(reg) => {
                let mut output = String::from_str("str ");
                output.append(reg.as_str());
                output.append(", [sp, #-16]!\n");
                Some(output)
            },
            _ => None,
        }
    }

    fn set(location: HardwareData, value: HardwareData) -> (r: Option<String>) {
        match location {
            HardwareData::ImmediateRegister(reg) => match value {
                HardwareData::ImmediateRegister(reg2) => {
                    let mut output = String::from_str("mov ");
                    output.append(reg.as_str());
                    output.append(", ");
                    output.append(reg2.as_str());
                    output.append("\n");
                    Some(output)
                },
                HardwareData::Label(label) => {
                    let mut output = String::from_str("adr ");
                    output.append(reg.as_str());
                    output.append(", ");
                    output.append(label.as_str());
                    output.append("\n");
                    Some(output)
                },
                HardwareData::Immediate(imm) => {
                    if imm.len() == 1 {
                        let mut output = String::from_str("movz ");
                        output.append(reg.as_str());
                        output.append(", #");
                        let digits = decimal_string(imm[0] as usize);
                        output.append(digits.as_str());
                        output.append("\n");
                        Some(output)
                    } else {
                        None
                    }
                },
                _ => None,
            },
            _ => None,
        }
    }

    fn argument_register(n: usize) -> (r: Option<String>) {
        if n == 0 {
            Some(String::from_str("x0"))
        } else if n == 1 {
            Some(String::from_str("x1"))
        } else if n == 2 {
            Some(String::from_str("x2"))
        } else if n == 3 {
            Some(String::from_str("x3"))
        } else if n == 4 {
            Some(String::from_str("x4"))
        } else if n == 5 {
            Some(String::from_str("x5"))
        } else if n == 6 {
            Some(String::from_str("x6"))
        } else if n == 7 {
            Some(String::from_str("x7"))
        } else {
            None
        }
    }

    fn extensions() -> Vec<Extension> {
        Vec::new()
    }

    fn new() -> Self {
        AArch64AssemblyGenerator {}
    }
}

/// The hexadecimal digit for `d` (below sixteen), in upper case.
pub open spec fn hex_digit(d: nat) -> char {
    if d < 10 {
        ((d + 48) as u8) as char
    } else {
        ((d + 55) as u8) as char
    }
}

/// The hexadecimal numeral of `n`, in upper case, without leading zeros.
pub open spec fn hex_upper(n: nat) -> Seq<char>
    decreases n,
{
    if n < 16 {
        seq![hex_digit(n)]
    } else {
        hex_upper(n / 16).push(hex_digit(n % 16))
    }
}

/// The bytes written as `0x..` numerals parted by `, `.
pub open spec fn byte_list(bytes: Seq<u8>) -> Seq<char>
    decreases bytes.len(),
{
    if bytes.len() == 0 {
        Seq::empty()
    } else if bytes.len() == 1 {
        "0x"@ + hex_upper(bytes[0] as nat)
    } else {
        byte_list(bytes.drop_last()) + ", "@ + "0x"@ + hex_upper(bytes.last() as nat)
    }
}

/// Writes `n` in hexadecimal, in upper case.
fn hex_string(n: u8) -> (r: String)
    ensures
        r@ == hex_upper(n as nat),
    decreases n,
{
    let d = n % 16;
    let c: char = if d < 10 {
        ((d + 48) as u8) as char
    } else {
        ((d + 55) as u8) as char
    };
    if n < 16 {
        let mut s = String::new();
        push_char(&mut s, c);
        s
    } else {
        let mut s = hex_string(n / 16);
        push_char(&mut s, c);
        s
    }
}

} // verus!
