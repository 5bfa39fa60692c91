//! PowerPC (Gekko) instruction decoding: classification and operand extraction
//! for the instruction forms the code generator translates.
use vstd::prelude::*;

verus! {

/// Broad class of a decoded instruction; the code generator dispatches on it.
#[derive(Clone, Copy, Debug, PartialEq, Eq, Structural)]
pub enum InstructionType {
    Arithmetic,
    Load,
    Store,
    Branch,
    Compare,
    Move,
    System,
    FloatingPoint,
    ConditionRegister,
    Shift,
    Rotate,
    Unknown,
}

/// One operand of a decoded instruction.
#[derive(Clone, Copy, Debug, PartialEq, Eq, Structural)]
pub enum Operand {
    /// General-purpose register number.
    Register(u8),
    /// Floating-point register number.
    FpRegister(u8),
    /// Sign-extended 16-bit immediate.
    Immediate(i16),
    /// 32-bit immediate (already shifted where the form shifts it).
    Immediate32(i32),
    /// Absolute address.
    Address(u32),
    /// Condition-register bit or field number.
    Condition(u8),
    /// Special-purpose register number.
    SpecialRegister(u16),
    /// Shift or rotate amount.
    ShiftAmount(u8),
    /// Rotate mask.
    Mask(u32),
}

/// A decoded instruction word: primary opcode, class and operands.
#[derive(Debug)]
pub struct Instruction {
    pub opcode: u32,
    pub instruction_type: InstructionType,
    pub operands: Vec<Operand>,
}

/// A decoded instruction together with its address and raw word.
#[derive(Debug)]
pub struct DecodedInstruction {
    pub instruction: Instruction,
    pub address: u32,
    pub raw: u32,
}

/// Two decoded instructions with the same opcode, class, operands, address and word.
pub open spec fn same_decoded(a: DecodedInstruction, b: DecodedInstruction) -> bool {
    &&& a.instruction.opcode == b.instruction.opcode
    &&& a.instruction.instruction_type == b.instruction.instruction_type
    &&& a.instruction.operands@ == b.instruction.operands@
    &&& a.address == b.address
    &&& a.raw == b.raw
}

/// Two instruction lists that agree element by element in the sense of [`same_decoded`].
pub open spec fn same_decoded_seq(a: Seq<DecodedInstruction>, b: Seq<DecodedInstruction>) -> bool {
    &&& a.len() == b.len()
    &&& forall|i: int| 0 <= i < a.len() ==> same_decoded(#[trigger] a[i], b[i])
}

/// What `Instruction::decode(word, address)` gives when it succeeds.
pub open spec fn decodes_to(d: DecodedInstruction, word: u32, address: u32) -> bool {
    &&& classify(word) == Some((d.instruction.instruction_type, d.instruction.operands@))
    &&& d.instruction.opcode == word >> 26
    &&& d.address == address
    &&& d.raw == word
}

/// The reason a word could not be decoded.
#[derive(Clone, Copy, Debug, PartialEq, Eq, Structural)]
pub enum DecodeError {
    /// The primary or extended opcode is not one this decoder knows.
    UnknownOpcode(u32),
}

/// Register field at bits 6..10 (RT, RS, FRT, BO, BT).
pub open spec fn field_d(w: u32) -> u8 { ((w >> 21) & 0x1F) as u8 }
/// Register field at bits 11..15 (RA, FRA, BI, BA).
pub open spec fn field_a(w: u32) -> u8 { ((w >> 16) & 0x1F) as u8 }
/// Register field at bits 16..20 (RB, FRB, SH, BB).
pub open spec fn field_b(w: u32) -> u8 { ((w >> 11) & 0x1F) as u8 }
/// Low 16 bits, sign-extended.
pub open spec fn field_simm(w: u32) -> i16 { (w & 0xFFFF) as u16 as i16 }
/// Condition-register field at bits 6..8.
pub open spec fn field_crf(w: u32) -> u8 { ((w >> 23) & 0x7) as u8 }
/// Special-purpose register number; the two 5-bit halves are swapped in the encoding.
pub open spec fn field_spr(w: u32) -> u16 { (((w >> 16) & 0x1F) | (((w >> 11) & 0x1F) << 5)) as u16 }

/// The rotate mask selected by the MB and ME fields.
pub open spec fn rotate_mask(w: u32) -> u32 {
    let mb = (w >> 6) & 0x1F;
    let me = (w >> 1) & 0x1F;
    let m1 = 0xFFFF_FFFFu32 >> mb;
    let m2 = 0xFFFF_FFFFu32 << ((31 - me) as u32);
    if mb <= me { m1 & m2 } else { m1 | m2 }
}

/// Branch displacement (LI field of `b`), sign-extended, in bytes.
pub open spec fn branch_disp26(w: u32) -> u32 {
    if w & 0x0200_0000 != 0 { (w & 0x03FF_FFFC) | 0xFC00_0000 } else { w & 0x03FF_FFFC }
}

/// Branch displacement of `b` in words (the LI field, sign-extended).
pub open spec fn branch_words26(w: u32) -> u32 {
    if w & 0x0200_0000 != 0 { ((w >> 2) & 0x00FF_FFFF) | 0xFF00_0000 } else { (w >> 2) & 0x00FF_FFFF }
}

/// Branch displacement (BD field of `bc`), sign-extended, in bytes.
pub open spec fn branch_disp16(w: u32) -> u32 {
    if w & 0x8000 != 0 { (w & 0xFFFC) | 0xFFFF_0000 } else { w & 0xFFFC }
}

/// Operands of an `rD, rA, rB` form.
pub open spec fn ops_dab(w: u32) -> Seq<Operand> {
    seq![Operand::Register(field_d(w)), Operand::Register(field_a(w)), Operand::Register(field_b(w))]
}

/// Operands of an `rA, rS, rB` form (logical and shift ops write RA).
pub open spec fn ops_adb(w: u32) -> Seq<Operand> {
    seq![Operand::Register(field_a(w)), Operand::Register(field_d(w)), Operand::Register(field_b(w))]
}

/// Operands of a `rD, rA, SIMM` / `rD, d(rA)` form.
pub open spec fn ops_dai(w: u32) -> Seq<Operand> {
    seq![Operand::Register(field_d(w)), Operand::Register(field_a(w)), Operand::Immediate(field_simm(w))]
}

/// Operands of a floating-point `frD, d(rA)` form.
pub open spec fn ops_fdai(w: u32) -> Seq<Operand> {
    seq![Operand::FpRegister(field_d(w)), Operand::Register(field_a(w)), Operand::Immediate(field_simm(w))]
}

/// Operands of a floating-point `frD, rA, rB` (indexed) form.
pub open spec fn ops_fdab(w: u32) -> Seq<Operand> {
    seq![Operand::FpRegister(field_d(w)), Operand::Register(field_a(w)), Operand::Register(field_b(w))]
}

/// Operands of a floating-point arithmetic `frD, frA, frB` form.
pub open spec fn ops_fff(w: u32) -> Seq<Operand> {
    seq![Operand::FpRegister(field_d(w)), Operand::FpRegister(field_a(w)), Operand::FpRegister(field_b(w))]
}

/// Operands of a condition-register logical op `crbD, crbA, crbB`.
pub open spec fn ops_crb(w: u32) -> Seq<Operand> {
    seq![Operand::Condition(field_d(w)), Operand::Condition(field_a(w)), Operand::Condition(field_b(w))]
}

/// Class and operands of an opcode-19 word.
pub open spec fn classify19(w: u32) -> Option<(InstructionType, Seq<Operand>)> {
    let xo = (w >> 1) & 0x3FF;
    if xo == 16 || xo == 528 {
        Some((InstructionType::Branch, seq![Operand::Immediate(field_d(w) as i16), Operand::Condition(field_a(w)), Operand::Immediate(0)]))
    } else if xo == 33 || xo == 129 || xo == 193 || xo == 225 || xo == 257 || xo == 289 || xo == 417 || xo == 449 {
        Some((InstructionType::ConditionRegister, ops_crb(w)))
    } else if xo == 0 {
        Some((InstructionType::ConditionRegister, seq![Operand::Condition(field_crf(w)), Operand::Condition(((w >> 18) & 0x7) as u8)]))
    } else if xo == 150 || xo == 50 {
        Some((InstructionType::System, seq![]))
    } else {
        None
    }
}

/// Class and operands of an opcode-31 word.
pub open spec fn classify31(w: u32) -> Option<(InstructionType, Seq<Operand>)> {
    let xo = (w >> 1) & 0x3FF;
    if xo == 0 || xo == 32 {
        Some((InstructionType::Compare, seq![Operand::Condition(field_crf(w)), Operand::Register(field_a(w)), Operand::Register(field_b(w))]))
    } else if xo == 8 || xo == 10 || xo == 11 || xo == 40 || xo == 75 || xo == 104 || xo == 136 || xo == 138
        || xo == 200 || xo == 202 || xo == 232 || xo == 234 || xo == 235 || xo == 266 || xo == 459 || xo == 491 {
        Some((InstructionType::Arithmetic, ops_dab(w)))
    } else if xo == 28 || xo == 60 || xo == 124 || xo == 284 || xo == 316 || xo == 412 || xo == 444 || xo == 476
        || xo == 24 || xo == 536 || xo == 792 || xo == 26 || xo == 922 || xo == 954 {
        Some((InstructionType::Arithmetic, ops_adb(w)))
    } else if xo == 824 {
        Some((InstructionType::Shift, seq![Operand::Register(field_d(w)), Operand::Register(field_a(w)), Operand::ShiftAmount(field_b(w))]))
    } else if xo == 23 || xo == 55 || xo == 87 || xo == 119 || xo == 279 || xo == 311 || xo == 343 || xo == 375
        || xo == 534 || xo == 790 || xo == 20 {
        Some((InstructionType::Load, ops_dab(w)))
    } else if xo == 151 || xo == 183 || xo == 215 || xo == 247 || xo == 407 || xo == 439 || xo == 662 || xo == 918 || xo == 150 {
        Some((InstructionType::Store, ops_dab(w)))
    } else if xo == 535 || xo == 567 || xo == 599 || xo == 631 || xo == 663 || xo == 695 || xo == 727 || xo == 759 || xo == 983 {
        Some((InstructionType::FloatingPoint, ops_fdab(w)))
    } else if xo == 467 || xo == 339 || xo == 371 {
        Some((InstructionType::System, seq![Operand::SpecialRegister(field_spr(w)), Operand::Register(field_d(w))]))
    } else if xo == 83 || xo == 146 || xo == 210 || xo == 595 {
        Some((InstructionType::System, seq![Operand::Register(field_d(w))]))
    } else if xo == 86 || xo == 54 || xo == 470 || xo == 1014 || xo == 982 || xo == 278 || xo == 246 {
        Some((InstructionType::System, seq![Operand::Register(field_a(w)), Operand::Register(field_b(w))]))
    } else if xo == 598 || xo == 854 {
        Some((InstructionType::System, seq![]))
    } else if xo == 19 || xo == 144 {
        Some((InstructionType::ConditionRegister, seq![Operand::Register(field_d(w))]))
    } else {
        None
    }
}

/// Class and operands of an instruction word, or `None` when the word is not decodable.
pub open spec fn classify(w: u32) -> Option<(InstructionType, Seq<Operand>)> {
    let op = w >> 26;
    if op == 7 || op == 8 || op == 12 || op == 13 || op == 14 {
        Some((InstructionType::Arithmetic, ops_dai(w)))
    } else if op == 15 {
        Some((InstructionType::Arithmetic, seq![Operand::Register(field_d(w)), Operand::Register(field_a(w)),
            Operand::Immediate32(((w & 0xFFFF) << 16) as i32)]))
    } else if op == 10 || op == 11 {
        Some((InstructionType::Compare, seq![Operand::Condition(field_crf(w)), Operand::Register(field_a(w)), Operand::Immediate(field_simm(w))]))
    } else if op == 16 {
        Some((InstructionType::Branch, seq![Operand::Immediate(field_d(w) as i16), Operand::Condition(field_a(w)),
            Operand::Immediate(branch_disp16(w) as i16)]))
    } else if op == 18 {
        Some((InstructionType::Branch, seq![Operand::Immediate32(branch_words26(w) as i32),
            Operand::Immediate(((w >> 1) & 1) as i16), Operand::Immediate((w & 1) as i16)]))
    } else if op == 19 {
        classify19(w)
    } else if op == 2 || op == 3 || op == 17 {
        Some((InstructionType::System, seq![]))
    } else if op == 20 || op == 21 {
        Some((InstructionType::Rotate, seq![Operand::Register(field_d(w)), Operand::Register(field_a(w)),
            Operand::ShiftAmount(field_b(w)), Operand::Mask(rotate_mask(w))]))
    } else if op == 23 {
        Some((InstructionType::Rotate, seq![Operand::Register(field_d(w)), Operand::Register(field_a(w)),
            Operand::Register(field_b(w)), Operand::Mask(rotate_mask(w))]))
    } else if 24 <= op <= 29 {
        Some((InstructionType::Arithmetic, seq![Operand::Register(field_a(w)), Operand::Register(field_d(w)), Operand::Immediate(field_simm(w))]))
    } else if op == 31 {
        classify31(w)
    } else if (32 <= op <= 35) || (40 <= op <= 43) || op == 46 {
        Some((InstructionType::Load, ops_dai(w)))
    } else if (36 <= op <= 39) || op == 44 || op == 45 || op == 47 {
        Some((InstructionType::Store, ops_dai(w)))
    } else if 48 <= op <= 55 {
        Some((InstructionType::FloatingPoint, ops_fdai(w)))
    } else if op == 4 || op == 56 || op == 57 || op == 60 || op == 61 || op == 59 || op == 63 {
        Some((InstructionType::FloatingPoint, ops_fff(w)))
    } else {
        None
    }
}

fn f_d(w: u32) -> (r: u8) ensures r == field_d(w) { ((w >> 21) & 0x1F) as u8 }
fn f_a(w: u32) -> (r: u8) ensures r == field_a(w) { ((w >> 16) & 0x1F) as u8 }
fn f_b(w: u32) -> (r: u8) ensures r == field_b(w) { ((w >> 11) & 0x1F) as u8 }
fn f_simm(w: u32) -> (r: i16) ensures r == field_simm(w) { (w & 0xFFFF) as u16 as i16 }
fn f_crf(w: u32) -> (r: u8) ensures r == field_crf(w) { ((w >> 23) & 0x7) as u8 }

fn f_mask(w: u32) -> (r: u32)
    ensures
        r == rotate_mask(w),
{
    let mb = (w >> 6) & 0x1F;
    let me = (w >> 1) & 0x1F;
    assert(mb < 32 && me < 32) by (bit_vector)
        requires
            mb == (w >> 6) & 0x1F,
            me == (w >> 1) & 0x1F,
    ;
    let m1 = 0xFFFF_FFFFu32 >> mb;
    let m2 = 0xFFFF_FFFFu32 << ((31 - me) as u32);
    if mb <= me { m1 & m2 } else { m1 | m2 }
}

/// Executable form of [`branch_disp26`].
pub fn disp26(w: u32) -> (r: u32)
    ensures
        r == branch_disp26(w),
{
    if w & 0x0200_0000 != 0 { (w & 0x03FF_FFFC) | 0xFC00_0000 } else { w & 0x03FF_FFFC }
}

fn words26(w: u32) -> (r: u32)
    ensures
        r == branch_words26(w),
{
    if w & 0x0200_0000 != 0 { ((w >> 2) & 0x00FF_FFFF) | 0xFF00_0000 } else { (w >> 2) & 0x00FF_FFFF }
}

/// Executable form of [`branch_disp16`].
pub fn disp16(w: u32) -> (r: u32)
    ensures
        r == branch_disp16(w),
{
    if w & 0x8000 != 0 { (w & 0xFFFC) | 0xFFFF_0000 } else { w & 0xFFFC }
}

fn v3(a: Operand, b: Operand, c: Operand) -> (v: Vec<Operand>)
    ensures
        v@ == seq![a, b, c],
{
    let mut v = Vec::new();
    v.push(a);
    v.push(b);
    v.push(c);
    v
}

fn classify19_exec(w: u32) -> (r: Option<(InstructionType, Vec<Operand>)>)
    ensures
        match r {
            Some((t, ops)) => classify19(w) == Some((t, ops@)),
            None => classify19(w) is None,
        },
{
    let xo = (w >> 1) & 0x3FF;
    if xo == 16 || xo == 528 {
        Some((InstructionType::Branch, v3(Operand::Immediate(f_d(w) as i16), Operand::Condition(f_a(w)), Operand::Immediate(0))))
    } else if xo == 33 || xo == 129 || xo == 193 || xo == 225 || xo == 257 || xo == 289 || xo == 417 || xo == 449 {
        Some((InstructionType::ConditionRegister, v3(Operand::Condition(f_d(w)), Operand::Condition(f_a(w)), Operand::Condition(f_b(w)))))
    } else if xo == 0 {
        let mut v = Vec::new();
        v.push(Operand::Condition(f_crf(w)));
        v.push(Operand::Condition(((w >> 18) & 0x7) as u8));
        Some((InstructionType::ConditionRegister, v))
    } else if xo == 150 || xo == 50 {
        Some((InstructionType::System, Vec::new()))
    } else {
        None
    }
}

fn classify31_exec(w: u32) -> (r: Option<(InstructionType, Vec<Operand>)>)
    ensures
        match r {
            Some((t, ops)) => classify31(w) == Some((t, ops@)),
            None => classify31(w) is None,
        },
{
    let xo = (w >> 1) & 0x3FF;
    let d = Operand::Register(f_d(w));
    let a = Operand::Register(f_a(w));
    let b = Operand::Register(f_b(w));
    if xo == 0 || xo == 32 {
        Some((InstructionType::Compare, v3(Operand::Condition(f_crf(w)), a, b)))
    } else if xo == 8 || xo == 10 || xo == 11 || xo == 40 || xo == 75 || xo == 104 || xo == 136 || xo == 138
        || xo == 200 || xo == 202 || xo == 232 || xo == 234 || xo == 235 || xo == 266 || xo == 459 || xo == 491 {
        Some((InstructionType::Arithmetic, v3(d, a, b)))
    } else if xo == 28 || xo == 60 || xo == 124 || xo == 284 || xo == 316 || xo == 412 || xo == 444 || xo == 476
        || xo == 24 || xo == 536 || xo == 792 || xo == 26 || xo == 922 || xo == 954 {
        Some((InstructionType::Arithmetic, v3(a, d, b)))
    } else if xo == 824 {
        Some((InstructionType::Shift, v3(d, a, Operand::ShiftAmount(f_b(w)))))
    } else if xo == 23 || xo == 55 || xo == 87 || xo == 119 || xo == 279 || xo == 311 || xo == 343 || xo == 375
        || xo == 534 || xo == 790 || xo == 20 {
        Some((InstructionType::Load, v3(d, a, b)))
    } else if xo == 151 || xo == 183 || xo == 215 || xo == 247 || xo == 407 || xo == 439 || xo == 662 || xo == 918 || xo == 150 {
        Some((InstructionType::Store, v3(d, a, b)))
    } else if xo == 535 || xo == 567 || xo == 599 || xo == 631 || xo == 663 || xo == 695 || xo == 727 || xo == 759 || xo == 983 {
        Some((InstructionType::FloatingPoint, v3(Operand::FpRegister(f_d(w)), a, b)))
    } else if xo == 467 || xo == 339 || xo == 371 {
        let spr = (((w >> 16) & 0x1F) | (((w >> 11) & 0x1F) << 5)) as u16;
        let mut v = Vec::new();
        v.push(Operand::SpecialRegister(spr));
        v.push(d);
        Some((InstructionType::System, v))
    } else if xo == 83 || xo == 146 || xo == 210 || xo == 595 {
        let mut v = Vec::new();
        v.push(d);
        Some((InstructionType::System, v))
    } else if xo == 86 || xo == 54 || xo == 470 || xo == 1014 || xo == 982 || xo == 278 || xo == 246 {
        let mut v = Vec::new();
        v.push(a);
        v.push(b);
        Some((InstructionType::System, v))
    } else if xo == 598 || xo == 854 {
        Some((InstructionType::System, Vec::new()))
    } else if xo == 19 || xo == 144 {
        let mut v = Vec::new();
        v.push(d);
        Some((InstructionType::ConditionRegister, v))
    } else {
        None
    }
}

fn classify_exec(w: u32) -> (r: Option<(InstructionType, Vec<Operand>)>)
    ensures
        match r {
            Some((t, ops)) => classify(w) == Some((t, ops@)),
            None => classify(w) is None,
        },
{
    let op = w >> 26;
    let d = Operand::Register(f_d(w));
    let a = Operand::Register(f_a(w));
    let imm = Operand::Immediate(f_simm(w));
    if op == 7 || op == 8 || op == 12 || op == 13 || op == 14 {
        Some((InstructionType::Arithmetic, v3(d, a, imm)))
    } else if op == 15 {
        Some((InstructionType::Arithmetic, v3(d, a, Operand::Immediate32(((w & 0xFFFF) << 16) as i32))))
    } else if op == 10 || op == 11 {
        Some((InstructionType::Compare, v3(Operand::Condition(f_crf(w)), a, imm)))
    } else if op == 16 {
        Some((InstructionType::Branch, v3(Operand::Immediate(f_d(w) as i16), Operand::Condition(f_a(w)),
            Operand::Immediate(disp16(w) as i16))))
    } else if op == 18 {
        Some((InstructionType::Branch, v3(Operand::Immediate32(words26(w) as i32),
            Operand::Immediate(((w >> 1) & 1) as i16), Operand::Immediate((w & 1) as i16))))
    } else if op == 19 {
        classify19_exec(w)
    } else if op == 2 || op == 3 || op == 17 {
        Some((InstructionType::System, Vec::new()))
    } else if op == 20 || op == 21 {
        let mut v = v3(d, a, Operand::ShiftAmount(f_b(w)));
        v.push(Operand::Mask(f_mask(w)));
        Some((InstructionType::Rotate, v))
    } else if op == 23 {
        let mut v = v3(d, a, Operand::Register(f_b(w)));
        v.push(Operand::Mask(f_mask(w)));
        Some((InstructionType::Rotate, v))
    } else if 24 <= op && op <= 29 {
        Some((InstructionType::Arithmetic, v3(a, d, imm)))
    } else if op == 31 {
        classify31_exec(w)
    } else if (32 <= op && op <= 35) || (40 <= op && op <= 43) || op == 46 {
        Some((InstructionType::Load, v3(d, a, imm)))
    } else if (36 <= op && op <= 39) || op == 44 || op == 45 || op == 47 {
        Some((InstructionType::Store, v3(d, a, imm)))
    } else if 48 <= op && op <= 55 {
        Some((InstructionType::FloatingPoint, v3(Operand::FpRegister(f_d(w)), a, imm)))
    } else if op == 4 || op == 56 || op == 57 || op == 60 || op == 61 || op == 59 || op == 63 {
        Some((InstructionType::FloatingPoint, v3(Operand::FpRegister(f_d(w)), Operand::FpRegister(f_a(w)),
            Operand::FpRegister(f_b(w)))))
    } else {
        None
    }
}

impl Instruction {
    /// Decodes the word `word` found at `address`.
    ///
    /// Succeeds exactly on the words that [`classify`] knows; the result carries
    /// the primary opcode, class and operands that [`classify`] gives.
    pub fn decode(word: u32, address: u32) -> (r: Result<DecodedInstruction, DecodeError>)
        ensures
            match r {
                Ok(d) => {
                    &&& classify(word) == Some((d.instruction.instruction_type, d.instruction.operands@))
                    &&& d.instruction.opcode == word >> 26
                    &&& d.address == address
                    &&& d.raw == word
                },
                Err(e) => classify(word) is None && e == DecodeError::UnknownOpcode(word),
            },
    {
        match classify_exec(word) {
            Some((t, ops)) => Ok(DecodedInstruction {
                instruction: Instruction { opcode: word >> 26, instruction_type: t, operands: ops },
                address,
                raw: word,
            }),
            None => Err(DecodeError::UnknownOpcode(word)),
        }
    }
}

impl DecodedInstruction {
    /// A copy of this instruction with the same fields.
    pub fn duplicate(&self) -> (r: DecodedInstruction)
        ensures
            r.instruction.opcode == self.instruction.opcode,
            r.instruction.instruction_type == self.instruction.instruction_type,
            r.instruction.operands@ == self.instruction.operands@,
            r.address == self.address,
            r.raw == self.raw,
    {
        let mut ops: Vec<Operand> = Vec::new();
        let n = self.instruction.operands.len();
        for i in 0..n
            invariant
                n == self.instruction.operands@.len(),
                ops@ == self.instruction.operands@.take(i as int),
        {
            ops.push(self.instruction.operands[i]);
            assert(ops@ =~= self.instruction.operands@.take(i + 1));
        }
        assert(ops@ =~= self.instruction.operands@);
        DecodedInstruction {
            instruction: Instruction {
                opcode: self.instruction.opcode,
                instruction_type: self.instruction.instruction_type,
                operands: ops,
            },
            address: self.address,
            raw: self.raw,
        }
    }
}

} // verus!
