use vstd::prelude::*;

use crate::utils::{chars_of, find_char, is_white, lemma_find_char_bounds, lemma_skip_white_bounds, skip_white, white_space};

verus! {

/// The condition codes of conditional branches.
#[derive(Debug, Clone, Copy, PartialEq, Eq, Structural)]
pub enum Condition {
    /// Equal: the zero flag is set.
    EQ,
    /// Not equal: the zero flag is clear.
    NE,
    CS,
    CC,
    MI,
    PL,
    VS,
    VC,
    HI,
    LS,
    GE,
    LT,
    /// Signed greater than.
    GT,
    /// Signed less than or equal.
    LE,
    /// Always.
    AL,
    /// Always; prefer `AL`.
    NV,
}

/// The general registers, the zero register, the program counter and the stack pointer.
#[derive(Debug, Clone, Copy, PartialEq, Eq, Structural)]
pub enum Register {
    R0,
    R1,
    R2,
    R3,
    R4,
    R5,
    R6,
    R7,
    R8,
    R9,
    R10,
    R11,
    R12,
    R13,
    R14,
    R15,
    R16,
    R17,
    R18,
    R19,
    R20,
    R21,
    R22,
    R23,
    R24,
    R25,
    R26,
    R27,
    R28,
    R29,
    R30,
    /// The zero register.
    ZR,
    /// The program counter.
    PC,
    /// The stack pointer.
    SP,
}

/// An instruction of the AArch64 architecture.
#[derive(Debug, Clone, Copy, PartialEq, Eq, Structural)]
pub enum Instruction {
    /// Branch to an offset; only the low 28 bits are used, and the low two must be clear.
    B { offset: u32 },
    /// Branch to an offset if `condition` holds.
    BDotXX { condition: Condition, offset: u32 },
    /// Copy one register to another.
    MOV { destination: Register, source: Register },
    /// Zero `destination` and move a 16-bit value into it, shifted left by `shift` bits;
    /// `half` picks the 32-bit form of the register.
    MOVZ { destination: Register, value: u16, shift: u8, half: bool },
}

/// The four-bit code of a condition.
pub open spec fn condition_code(c: Condition) -> u8 {
    match c {
        Condition::EQ => 0,
        Condition::NE => 1,
        Condition::CS => 2,
        Condition::CC => 3,
        Condition::MI => 4,
        Condition::PL => 5,
        Condition::VS => 6,
        Condition::VC => 7,
        Condition::HI => 8,
        Condition::LS => 9,
        Condition::GE => 10,
        Condition::LT => 11,
        Condition::GT => 12,
        Condition::LE => 13,
        Condition::AL => 14,
        Condition::NV => 15,
    }
}

/// Whether a register has a five-bit number: all but the program counter and the stack pointer.
pub open spec fn has_number(r: Register) -> bool {
    !(r is PC) && !(r is SP)
}

/// The five-bit number of a register: `R0` to `R30` by their index, and 31 for `ZR`.
pub open spec fn register_number(r: Register) -> u8 {
    match r {
        Register::R0 => 0,
        Register::R1 => 1,
        Register::R2 => 2,
        Register::R3 => 3,
        Register::R4 => 4,
        Register::R5 => 5,
        Register::R6 => 6,
        Register::R7 => 7,
        Register::R8 => 8,
        Register::R9 => 9,
        Register::R10 => 10,
        Register::R11 => 11,
        Register::R12 => 12,
        Register::R13 => 13,
        Register::R14 => 14,
        Register::R15 => 15,
        Register::R16 => 16,
        Register::R17 => 17,
        Register::R18 => 18,
        Register::R19 => 19,
        Register::R20 => 20,
        Register::R21 => 21,
        Register::R22 => 22,
        Register::R23 => 23,
        Register::R24 => 24,
        Register::R25 => 25,
        Register::R26 => 26,
        Register::R27 => 27,
        Register::R28 => 28,
        Register::R29 => 29,
        Register::R30 => 30,
        _ => 31,
    }
}

impl Condition {
    /// The condition's code; only the low four bits are used.
    pub fn to_bits(&self) -> (r: u8)
        ensures
            r == condition_code(*self),
            r < 16,
    {
        match self {
            Condition::EQ => 0b0000,
            Condition::NE => 0b0001,
            Condition::CS => 0b0010,
            Condition::CC => 0b0011,
            Condition::MI => 0b0100,
            Condition::PL => 0b0101,
            Condition::VS => 0b0110,
            Condition::VC => 0b0111,
            Condition::HI => 0b1000,
            Condition::LS => 0b1001,
            Condition::GE => 0b1010,
            Condition::LT => 0b1011,
            Condition::GT => 0b1100,
            Condition::LE => 0b1101,
            Condition::AL => 0b1110,
            Condition::NV => 0b1111,
        }
    }
}

impl Register {
    /// The register's number in a five-bit field.
    pub fn to_5_bits(&self) -> (r: u8)
        requires
            has_number(*self),
        ensures
            r == register_number(*self),
            r < 32,
    {
        match self {
            Register::R0 => 0b00000,
            Register::R1 => 0b00001,
            Register::R2 => 0b00010,
            Register::R3 => 0b00011,
            Register::R4 => 0b00100,
            Register::R5 => 0b00101,
            Register::R6 => 0b00110,
            Register::R7 => 0b00111,
            Register::R8 => 0b01000,
            Register::R9 => 0b01001,
            Register::R10 => 0b01010,
            Register::R11 => 0b01011,
            Register::R12 => 0b01100,
            Register::R13 => 0b01101,
            Register::R14 => 0b01110,
            Register::R15 => 0b01111,
            Register::R16 => 0b10000,
            Register::R17 => 0b10001,
            Register::R18 => 0b10010,
            Register::R19 => 0b10011,
            Register::R20 => 0b10100,
            Register::R21 => 0b10101,
            Register::R22 => 0b10110,
            Register::R23 => 0b10111,
            Register::R24 => 0b11000,
            Register::R25 => 0b11001,
            Register::R26 => 0b11010,
            Register::R27 => 0b11011,
            Register::R28 => 0b11100,
            Register::R29 => 0b11101,
            Register::R30 => 0b11110,
            _ => 0b11111,
        }
    }
}

/// A mask of the low `bits` bits.
fn mask(bits: u8) -> (r: u32)
    requires
        1 <= bits <= 32,
    ensures
        r == u32::MAX >> ((32 - bits) as u32),
{
    u32::MAX >> ((32 - bits) as u32)
}

/// Whether an instruction has an encoding here: a branch to an aligned offset of at most 28
/// bits, or a move of a value into a numbered register with a shift of a whole number of
/// half-words that the register's width allows.
pub open spec fn encodable(i: Instruction) -> bool {
    match i {
        Instruction::B { offset } => offset < 0x1000_0000 && offset % 4 == 0,
        Instruction::MOVZ { destination, value: _, shift, half } => has_number(destination) && (
        shift == 0 || shift == 16 || (!half && (shift == 32 || shift == 48))),
        _ => false,
    }
}

/// The encoding of an instruction.
pub open spec fn encoding(i: Instruction) -> u32 {
    match i {
        Instruction::B { offset } => 0x1400_0000u32 | (offset >> 2u32),
        Instruction::MOVZ { destination, value, shift, half } => (if half {
            0x8000_0000u32
        } else {
            0u32
        }) | 0x5280_0000u32 | (((shift / 16) as u32) << 21u32) | ((value as u32) << 5u32) | (
        register_number(destination) as u32),
        _ => 0,
    }
}

/// Encodes a branch to an aligned offset of at most 28 bits.
fn encode_branch(offset: u32) -> (r: u32)
    requires
        offset < 0x1000_0000,
    ensures
        r == 0x1400_0000u32 | (offset >> 2u32),
{
    let ins: u32 = 0b0001_01 << 26;
    assert(ins == 0x1400_0000) by (bit_vector)
        requires
            ins == 0b0001_01u32 << 26u32,
    ;
    let m = mask(28);
    assert(m == 0x0fff_ffff) by (bit_vector)
        requires
            m == u32::MAX >> 4u32,
    ;
    assert(offset & m == offset) by (bit_vector)
        requires
            offset < 0x1000_0000,
            m == 0x0fff_ffff,
    ;
    ins | ((offset & m) >> 2)
}

/// Encodes a move of `value`, shifted, into a numbered register.
fn encode_move(destination: Register, value: u16, shift: u8, half: bool) -> (r: u32)
    requires
        has_number(destination),
    ensures
        r == encoding(Instruction::MOVZ { destination, value, shift, half }),
{
    // bit 31 marks the half-width form; 0b10100101 in bits 23 to 30 is the opcode
    let width: u32 = if half {
        0x8000_0000
    } else {
        0
    };
    width | 0x5280_0000u32 | (((shift / 16) as u32) << 21u32) | ((value as u32) << 5u32) | (
    destination.to_5_bits() as u32)
}

/// Encodes an instruction as its 32-bit machine word.
pub fn convert_instruction(instruction: Instruction) -> (r: u32)
    requires
        encodable(instruction),
    ensures
        r == encoding(instruction),
{
    match instruction {
        Instruction::B { offset } => encode_branch(offset),
        Instruction::MOVZ { destination, value, shift, half } => encode_move(destination, value, shift, half),
        _ => 0,
    }
}

/// The value of a digit in bases up to sixteen; 99 for any other character.
pub open spec fn digit_value(c: char) -> nat {
    if '0' <= c && c <= '9' {
        (c as u32 - '0' as u32) as nat
    } else if 'a' <= c && c <= 'f' {
        (c as u32 - 'a' as u32 + 10) as nat
    } else if 'A' <= c && c <= 'F' {
        (c as u32 - 'A' as u32 + 10) as nat
    } else {
        99
    }
}

/// Whether `s` is a non-empty string of digits of base `base`.
pub open spec fn all_digits(s: Seq<char>, base: nat) -> bool {
    s.len() > 0 && forall|i: int| 0 <= i < s.len() ==> digit_value(#[trigger] s[i]) < base
}

/// The number that the digits `s` write in base `base`.
pub open spec fn digits_value(s: Seq<char>, base: nat) -> nat
    decreases s.len(),
{
    if s.len() == 0 {
        0
    } else {
        digits_value(s.drop_last(), base) * base + digit_value(s.last())
    }
}

/// A magnitude written in decimal, or in hexadecimal after `0x`.
pub open spec fn magnitude_of(s: Seq<char>) -> Option<nat> {
    if s.len() >= 2 && s[0] == '0' && s[1] == 'x' {
        if all_digits(s.subrange(2, s.len() as int), 16) {
            Some(digits_value(s.subrange(2, s.len() as int), 16))
        } else {
            None
        }
    } else if all_digits(s, 10) {
        Some(digits_value(s, 10))
    } else {
        None
    }
}

/// The 32-bit signed integer that `s` writes, with an optional sign.
pub open spec fn i32_of(s: Seq<char>) -> Option<int> {
    if s.len() > 0 && s[0] == '-' {
        match magnitude_of(s.subrange(1, s.len() as int)) {
            Some(m) => if m <= 0x8000_0000 {
                Some(-m)
            } else {
                None
            },
            None => None,
        }
    } else {
        let body = if s.len() > 0 && s[0] == '+' {
            s.subrange(1, s.len() as int)
        } else {
            s
        };
        match magnitude_of(body) {
            Some(m) => if m < 0x8000_0000 {
                Some(m as int)
            } else {
                None
            },
            None => None,
        }
    }
}

/// The index after the last character of `s[..j]` that is not white space.
pub open spec fn trim_end(s: Seq<char>, j: int) -> int
    decreases j,
{
    if j <= 0 || j > s.len() || !is_white(s[j - 1]) {
        j
    } else {
        trim_end(s, j - 1)
    }
}

/// `s` without white space at either end.
pub open spec fn trimmed(s: Seq<char>) -> Seq<char> {
    let a = skip_white(s, 0);
    let b = trim_end(s, s.len() as int);
    if b <= a {
        Seq::empty()
    } else {
        s.subrange(a, b)
    }
}

/// The index of the first character at or after `i` that is not `#` (or the length).
pub open spec fn skip_hashes(s: Seq<char>, i: int) -> int
    decreases s.len() - i,
{
    if i < 0 || i >= s.len() || s[i] != '#' {
        i
    } else {
        skip_hashes(s, i + 1)
    }
}

/// The offset field of a branch to `v`: its magnitude, with bit 27 set when it is negative.
pub open spec fn branch_offset(v: int) -> u32 {
    if v < 0 {
        ((-v) as u32) | 0x0800_0000u32
    } else {
        v as u32
    }
}

/// Why a line of assembly could not be read.
#[derive(Debug, Clone, Copy, PartialEq, Eq, Structural)]
pub enum AssemblyFault {
    /// The opcode is not one that is read.
    UnknownOpcode,
    /// The operand is not a number this reads.
    InvalidImmediate,
    /// The operand form (a label, for instance) is not read yet.
    Unsupported,
}

/// The instruction that one line of assembly writes.
pub open spec fn instruction_of(line: Seq<char>) -> Result<Instruction, AssemblyFault> {
    let cleaned = trimmed(line);
    let sp = find_char(cleaned, 0, ' ');
    let opcode = cleaned.subrange(0, sp);
    let args = if sp < cleaned.len() {
        cleaned.subrange(sp + 1, cleaned.len() as int)
    } else {
        Seq::empty()
    };
    if opcode == seq!['b'] || opcode == seq!['B'] {
        if args.len() > 0 && args[0] == '#' {
            match i32_of(args.subrange(skip_hashes(args, 0), args.len() as int)) {
                Some(v) => Ok(Instruction::B { offset: branch_offset(v) }),
                None => Err(AssemblyFault::InvalidImmediate),
            }
        } else {
            Err(AssemblyFault::Unsupported)
        }
    } else {
        Err(AssemblyFault::UnknownOpcode)
    }
}

/// Numbers at or above this bound are not told apart when parsed.
spec fn parse_cap() -> nat {
    0x1_0000_0000
}

/// The value of the digits `s[from..]` in `base`, capped at `2^32`; `None` if one is not a digit.
fn capped_digits(s: &Vec<char>, from: usize, base: u64) -> (r: Option<u64>)
    requires
        from <= s.len(),
        base == 10 || base == 16,
    ensures
        all_digits(s@.subrange(from as int, s.len() as int), base as nat) <==> r is Some,
        r is Some ==> r->0 == if digits_value(s@.subrange(from as int, s.len() as int), base as nat)
            < parse_cap() {
            digits_value(s@.subrange(from as int, s.len() as int), base as nat)
        } else {
            parse_cap()
        },
{
    let ghost t = s@.subrange(from as int, s.len() as int);
    if from >= s.len() {
        return None;
    }
    let mut acc: u64 = 0;
    let mut i = from;
    proof {
        assert(t.take(0).len() == 0);
    }
    while i < s.len()
        invariant
            from <= i <= s.len(),
            t == s@.subrange(from as int, s.len() as int),
            base == 10 || base == 16,
            forall|k: int| 0 <= k < i - from ==> digit_value(#[trigger] t[k]) < base,
            acc == if digits_value(t.take(i - from), base as nat) < parse_cap() {
                digits_value(t.take(i - from), base as nat)
            } else {
                parse_cap()
            },
        decreases s.len() - i,
    {
        let c = s[i];
        let d: u64 = if '0' <= c && c <= '9' {
            (c as u32 - '0' as u32) as u64
        } else if 'a' <= c && c <= 'f' {
            (c as u32 - 'a' as u32 + 10) as u64
        } else if 'A' <= c && c <= 'F' {
            (c as u32 - 'A' as u32 + 10) as u64
        } else {
            99
        };
        if d >= base {
            assert(t[i - from] == c);
            return None;
        }
        let ghost prev = digits_value(t.take(i - from), base as nat);
        proof {
            assert(t.take(i - from + 1).drop_last() =~= t.take(i - from));
            assert(t.take(i - from + 1).last() == c);
            let next = digits_value(t.take(i - from + 1), base as nat);
            assert(next == prev * base + d);
            if prev >= parse_cap() {
                assert(prev * base + d >= parse_cap()) by (nonlinear_arith)
                    requires
                        prev >= parse_cap(),
                        base >= 10,
                ;
            }
        }
        if acc >= 0x1_0000_0000 {
            acc = 0x1_0000_0000;
        } else {
            let t2 = acc * base + d;
            acc = if t2 >= 0x1_0000_0000 {
                0x1_0000_0000
            } else {
                t2
            };
        }
        i = i + 1;
    }
    proof {
        assert(t.take(i - from) =~= t);
    }
    Some(acc)
}

/// Reads a branch operand: an optional sign, then a decimal or `0x` hexadecimal magnitude.
fn parse_i32(s: &Vec<char>, from: usize) -> (r: Option<i64>)
    requires
        from <= s.len(),
    ensures
        match i32_of(s@.subrange(from as int, s.len() as int)) {
            Some(v) => r == Some(v as i64),
            None => r is None,
        },
{
    let ghost t = s@.subrange(from as int, s.len() as int);
    let negative = from < s.len() && s[from] == '-';
    let start = if from < s.len() && (s[from] == '-' || s[from] == '+') {
        from + 1
    } else {
        from
    };
    proof {
        if from < s.len() && (s[from as int] == '-' || s[from as int] == '+') {
            assert(t.subrange(1, t.len() as int) =~= s@.subrange(start as int, s.len() as int));
        } else {
            assert(t =~= s@.subrange(start as int, s.len() as int));
        }
    }
    let ghost body = s@.subrange(start as int, s.len() as int);
    let magnitude = if start < s.len() && start + 1 < s.len() && s[start] == '0' && s[start + 1] == 'x' {
        proof {
            assert(body.subrange(2, body.len() as int) =~= s@.subrange(start + 2, s.len() as int));
        }
        capped_digits(s, start + 2, 16)
    } else {
        capped_digits(s, start, 10)
    };
    match magnitude {
        None => None,
        Some(m) => {
            if negative {
                if m <= 0x8000_0000 {
                    Some(0 - m as i64)
                } else {
                    None
                }
            } else if m < 0x8000_0000 {
                Some(m as i64)
            } else {
                None
            }
        },
    }
}

/// Reads one line of assembly; only branches to a numeric offset (`b #20`, `b #0x14`, `b #-8`)
/// are read.
pub fn line_to_intermediate(line: &str) -> (r: Result<Instruction, AssemblyFault>)
    ensures
        r == instruction_of(line@),
{
    let chars = chars_of(line);
    let ghost s = chars@;
    proof {
        lemma_skip_white_bounds(s, 0);
        lemma_trim_end_bounds(s, s.len() as int);
    }
    let mut a: usize = 0;
    while a < chars.len() && white_space(chars[a])
        invariant
            s == chars@,
            a <= chars.len(),
            skip_white(s, a as int) == skip_white(s, 0),
        decreases chars.len() - a,
    {
        a = a + 1;
    }
    let mut b: usize = chars.len();
    while b > 0 && white_space(chars[b - 1])
        invariant
            s == chars@,
            b <= chars.len(),
            trim_end(s, b as int) == trim_end(s, s.len() as int),
        decreases b,
    {
        b = b - 1;
    }
    let mut cleaned: Vec<char> = Vec::new();
    if a < b {
        let mut k = a;
        while k < b
            invariant
                s == chars@,
                a <= k <= b <= chars.len(),
                cleaned@ == s.subrange(a as int, k as int),
            decreases b - k,
        {
            cleaned.push(chars[k]);
            assert(s.subrange(a as int, k + 1) =~= s.subrange(a as int, k as int).push(s[k as int]));
            k = k + 1;
        }
    }
    assert(cleaned@ =~= trimmed(s));
    let ghost c = cleaned@;
    proof {
        lemma_find_char_bounds(c, 0, ' ');
    }
    let mut sp: usize = 0;
    while sp < cleaned.len() && cleaned[sp] != ' '
        invariant
            c == cleaned@,
            sp <= cleaned.len(),
            find_char(c, sp as int, ' ') == find_char(c, 0, ' '),
        decreases cleaned.len() - sp,
    {
        sp = sp + 1;
    }
    assert(find_char(c, 0, ' ') == sp);
    let is_branch = (sp == 1 && (cleaned[0] == 'b' || cleaned[0] == 'B'));
    proof {
        let opcode = c.subrange(0, sp as int);
        if opcode == seq!['b'] {
            assert(opcode[0] == 'b');
            assert(c[0] == 'b');
        }
        if opcode == seq!['B'] {
            assert(opcode[0] == 'B');
            assert(c[0] == 'B');
        }
        if sp == 1 {
            if cleaned[0] == 'b' {
                assert(opcode =~= seq!['b']);
            }
            if cleaned[0] == 'B' {
                assert(opcode =~= seq!['B']);
            }
        }
        if opcode == seq!['b'] || opcode == seq!['B'] {
            assert(opcode.len() == 1);
        }
    }
    if !is_branch {
        return Err(AssemblyFault::UnknownOpcode);
    }
    let args_from = if sp < cleaned.len() {
        sp + 1
    } else {
        cleaned.len()
    };
    let ghost args = c.subrange(args_from as int, c.len() as int);
    proof {
        if sp >= cleaned.len() {
            assert(args =~= Seq::<char>::empty());
        }
    }
    if !(args_from < cleaned.len() && cleaned[args_from] == '#') {
        return Err(AssemblyFault::Unsupported);
    }
    let mut h = args_from;
    proof {
        lemma_skip_hashes_bounds(args, 0);
    }
    while h < cleaned.len() && cleaned[h] == '#'
        invariant
            c == cleaned@,
            args == c.subrange(args_from as int, c.len() as int),
            args_from <= h <= cleaned.len(),
            skip_hashes(args, h - args_from) == skip_hashes(args, 0),
        decreases cleaned.len() - h,
    {
        h = h + 1;
    }
    proof {
        assert(args.subrange(h - args_from, args.len() as int) =~= c.subrange(h as int, c.len() as int));
    }
    match parse_i32(&cleaned, h) {
        None => Err(AssemblyFault::InvalidImmediate),
        Some(v) => {
            let offset: u32 = if v < 0 {
                ((0 - v) as u32) | 0x0800_0000
            } else {
                v as u32
            };
            Ok(Instruction::B { offset })
        },
    }
}

pub proof fn lemma_trim_end_bounds(s: Seq<char>, j: int)
    requires
        0 <= j <= s.len(),
    ensures
        0 <= trim_end(s, j) <= j,
    decreases j,
{
    if j > 0 && is_white(s[j - 1]) {
        lemma_trim_end_bounds(s, j - 1);
    }
}

pub proof fn lemma_skip_hashes_bounds(s: Seq<char>, i: int)
    requires
        0 <= i <= s.len(),
    ensures
        i <= skip_hashes(s, i) <= s.len(),
    decreases s.len() - i,
{
    if i < s.len() && s[i] == '#' {
        lemma_skip_hashes_bounds(s, i + 1);
    }
}

} // verus!
