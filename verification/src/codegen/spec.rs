//! The text the code generator emits, as functions of its input.
use vstd::prelude::*;
use crate::decoder::{DecodedInstruction, InstructionType, Operand, branch_disp16, branch_disp26, same_decoded, same_decoded_seq};
use crate::text::{char_is_alphanumeric, char_is_numeric, dec, hex8, hex_pad, idec, indent};

verus! {

/// `return Ok(Some(ctx.get_register(3)));`
pub open spec fn ret_stmt() -> Seq<char> {
    "return Ok(Some(ctx.get_register(3)));"@
}

/// `ctx.get_register(r)`
pub open spec fn get_reg(r: nat) -> Seq<char> {
    "ctx.get_register("@ + dec(r) + ")"@
}

/// `{}` of a `bool`.
pub open spec fn bool_text(b: bool) -> Seq<char> {
    if b { "true"@ } else { "false"@ }
}

/// The `{:?}` name of an instruction class.
pub open spec fn instruction_type_name(t: InstructionType) -> Seq<char> {
    match t {
        InstructionType::Arithmetic => "Arithmetic"@,
        InstructionType::Load => "Load"@,
        InstructionType::Store => "Store"@,
        InstructionType::Branch => "Branch"@,
        InstructionType::Compare => "Compare"@,
        InstructionType::Move => "Move"@,
        InstructionType::System => "System"@,
        InstructionType::FloatingPoint => "FloatingPoint"@,
        InstructionType::ConditionRegister => "ConditionRegister"@,
        InstructionType::Shift => "Shift"@,
        InstructionType::Rotate => "Rotate"@,
        InstructionType::Unknown => "Unknown"@,
    }
}

// ---------------------------------------------------------------- identifiers

/// A character after separators (space, `-`, `.`) become `_`.
pub open spec fn map_separator(c: char) -> char {
    if c == ' ' || c == '-' || c == '.' { '_' } else { c }
}

/// Whether a character survives in an identifier.
pub open spec fn keeps_char(c: char) -> bool {
    char_is_alphanumeric(c) || c == '_'
}

/// Separators turned into `_`, then everything but alphanumerics and `_` dropped.
pub open spec fn identifier_chars(s: Seq<char>) -> Seq<char>
    decreases s.len(),
{
    if s.len() == 0 {
        seq![]
    } else {
        let r = identifier_chars(s.drop_last());
        let c = map_separator(s.last());
        if keeps_char(c) { r.push(c) } else { r }
    }
}

/// A valid Rust identifier derived from a symbol name: the kept characters,
/// `function` when none are kept, and a `function_` prefix before a leading digit.
pub open spec fn sanitized(name: Seq<char>) -> Seq<char> {
    let id = identifier_chars(name);
    if id.len() == 0 {
        "function"@
    } else if char_is_numeric(id[0]) {
        "function_"@ + id
    } else {
        id
    }
}

/// Whether `s` begins with `p`.
pub open spec fn starts_with(s: Seq<char>, p: Seq<char>) -> bool {
    p.len() <= s.len() && s.take(p.len() as int) == p
}

/// The generated name of the function at `address` called `name`.
pub open spec fn function_name(name: Seq<char>, address: u32) -> Seq<char> {
    if name.len() == 0 || starts_with(name, "sub_"@) {
        "func_0x"@ + hex8(address)
    } else {
        sanitized(name) + "_"@ + hex8(address)
    }
}

/// The signature line of a generated function.
pub open spec fn signature(name: Seq<char>, address: u32) -> Seq<char> {
    "pub fn "@ + function_name(name, address)
        + "(ctx: &mut CpuContext, memory: &mut MemoryManager) -> Result<Option<u32>>"@
}

// ---------------------------------------------------------------- arithmetic

/// The operation an arithmetic instruction performs.
#[derive(Clone, Copy, Debug, PartialEq, Eq, Structural)]
pub enum ArithOp {
    Add,
    Sub,
    ReverseSub,
    Mul,
    Div,
    And,
    Or,
    Xor,
    Shl,
    Shr,
}

/// `a OP b` on 32-bit words: modular `+ - *`, division by zero giving 0, and
/// shifts by the low five bits of `b`.
pub open spec fn folded(op: ArithOp, a: u32, b: u32) -> u32 {
    match op {
        ArithOp::Add => ((a + b) % 0x1_0000_0000) as u32,
        ArithOp::Sub => ((a - b) % 0x1_0000_0000) as u32,
        ArithOp::ReverseSub => ((b - a) % 0x1_0000_0000) as u32,
        ArithOp::Mul => ((a * b) % 0x1_0000_0000) as u32,
        ArithOp::Div => if b == 0 { 0 } else { a / b },
        ArithOp::And => a & b,
        ArithOp::Or => a | b,
        ArithOp::Xor => a ^ b,
        ArithOp::Shl => a << (b % 32),
        ArithOp::Shr => a >> (b % 32),
    }
}

/// Operation and whether CR0 is updated, by primary and extended opcode.
pub open spec fn arith_op(opcode: u32, raw: u32) -> (ArithOp, bool) {
    if opcode == 7 { (ArithOp::Mul, false) }
    else if opcode == 8 { (ArithOp::ReverseSub, false) }
    else if opcode == 12 { (ArithOp::Add, false) }
    else if opcode == 13 { (ArithOp::Add, true) }
    else if opcode == 14 || opcode == 15 { (ArithOp::Add, false) }
    else if opcode == 31 {
        let ext = (raw >> 1) & 0x3FF;
        if ext == 266 || ext == 10 { (ArithOp::Add, false) }
        else if ext == 40 { (ArithOp::ReverseSub, false) }
        else if ext == 28 { (ArithOp::And, false) }
        else if ext == 444 { (ArithOp::Or, false) }
        else if ext == 316 { (ArithOp::Xor, false) }
        else if ext == 235 || ext == 75 || ext == 233 { (ArithOp::Mul, false) }
        else if ext == 459 || ext == 491 || ext == 104 { (ArithOp::Div, false) }
        else if ext == 536 || ext == 792 { (ArithOp::Shr, false) }
        else if ext == 24 { (ArithOp::Shl, false) }
        else { (ArithOp::Add, false) }
    } else { (ArithOp::Add, false) }
}

/// The Rust expression computing `a OP b`.
pub open spec fn op_expr(op: ArithOp, a: Seq<char>, b: Seq<char>) -> Seq<char> {
    match op {
        ArithOp::Shl => a + ".wrapping_shl("@ + b + ")"@,
        ArithOp::Shr => a + ".wrapping_shr("@ + b + ")"@,
        ArithOp::Div => a + ".checked_div("@ + b + ").unwrap_or(0)"@,
        ArithOp::ReverseSub => "("@ + b + ").wrapping_sub("@ + a + ")"@,
        ArithOp::Add => a + ".wrapping_add("@ + b + ")"@,
        ArithOp::Sub => a + ".wrapping_sub("@ + b + ")"@,
        ArithOp::Mul => a + ".wrapping_mul("@ + b + ")"@,
        ArithOp::And => a + " & "@ + b,
        ArithOp::Or => a + " | "@ + b,
        ArithOp::Xor => a + " ^ "@ + b,
    }
}

/// The expression of a unary opcode-31 operation (cntlzw, extsh, extsb), if `ext` is one.
pub open spec fn unary_expr(ext: u32, rs: u32) -> Option<Seq<char>> {
    if ext == 26 { Some(get_reg(rs as nat) + ".leading_zeros()"@) }
    else if ext == 922 { Some(get_reg(rs as nat) + " as i16 as i32 as u32"@) }
    else if ext == 954 { Some(get_reg(rs as nat) + " as i8 as i32 as u32"@) }
    else { None }
}

/// The second source operand of an arithmetic instruction.
pub open spec fn arith_rb(ops: Seq<Operand>) -> Seq<char> {
    if ops.len() > 2 {
        match ops[2] {
            Operand::Register(r) => get_reg(r as nat),
            Operand::Immediate(i) => dec((i as u32) as nat) + "u32"@,
            Operand::Immediate32(i) => dec((i as u32) as nat) + "u32"@,
            _ => "0u32"@,
        }
    } else {
        "0u32"@
    }
}

/// Lines that set CR0 from the sign of register `rt`.
pub open spec fn cr0_update(k: nat, rt: u8) -> Seq<char> {
    indent(k) + "let result = ctx.get_register("@ + dec(rt as nat) + ");\n"@
        + indent(k) + "let cr_field = if result == 0 { 0x2u8 } else if (result as i32) < 0 { 0x8u8 } else { 0x4u8 };\n"@
        + indent(k) + "ctx.set_cr_field(0, cr_field);\n"@
}

/// Code for an arithmetic instruction, or `None` when its operands do not fit.
pub open spec fn gen_arithmetic(k: nat, inst: DecodedInstruction) -> Option<Seq<char>> {
    let raw = inst.raw;
    let ops = inst.instruction.operands@;
    let unary = unary_expr((raw >> 1) & 0x3FF, (raw >> 21) & 0x1F);
    if inst.instruction.opcode == 31 && unary is Some {
        Some(indent(k) + "ctx.set_register("@ + dec(((raw >> 16) & 0x1F) as nat) + ", "@ + unary->0 + ");\n"@)
    } else if ops.len() < 2 {
        None
    } else {
        match (ops[0], ops[1]) {
            (Operand::Register(rt), Operand::Register(ra)) => {
                let (op, update_cr) = arith_op(inst.instruction.opcode, raw);
                let line = indent(k) + "ctx.set_register("@ + dec(rt as nat) + ", "@
                    + op_expr(op, get_reg(ra as nat), arith_rb(ops)) + ");\n"@;
                Some(if update_cr { line + cr0_update(k, rt) } else { line })
            },
            _ => None,
        }
    }
}

// ---------------------------------------------------------------- memory

/// The displacement operand of a load or store.
pub open spec fn mem_offset(ops: Seq<Operand>) -> i32 {
    match ops[2] {
        Operand::Immediate(i) => i as i32,
        _ => 0,
    }
}

/// `let addr = ctx.get_register(ra) as u32 + OFFi32 as u32;`
pub open spec fn addr_line(k: nat, ra: u8, off: i32) -> Seq<char> {
    indent(k) + "let addr = "@ + get_reg(ra as nat) + " as u32 + "@ + idec(off as int)
        + "i32 as u32;\n"@
}

/// Code for a load, or `None` when its operands do not fit.
pub open spec fn gen_load(k: nat, inst: DecodedInstruction) -> Option<Seq<char>> {
    let ops = inst.instruction.operands@;
    if ops.len() < 3 {
        None
    } else {
        match (ops[0], ops[1]) {
            (Operand::Register(rt), Operand::Register(ra)) => Some(
                addr_line(k, ra, mem_offset(ops))
                    + indent(k) + "let value = memory.read_u32(addr).unwrap_or(0u32);\n"@
                    + indent(k) + "ctx.set_register("@ + dec(rt as nat) + ", value);\n"@,
            ),
            _ => None,
        }
    }
}

/// Code for a store, or `None` when its operands do not fit.
pub open spec fn gen_store(k: nat, inst: DecodedInstruction) -> Option<Seq<char>> {
    let ops = inst.instruction.operands@;
    if ops.len() < 3 {
        None
    } else {
        match (ops[0], ops[1]) {
            (Operand::Register(rs), Operand::Register(ra)) => Some(
                addr_line(k, ra, mem_offset(ops))
                    + indent(k) + "memory.write_u32(addr, "@ + get_reg(rs as nat) + ").unwrap_or(());\n"@,
            ),
            _ => None,
        }
    }
}

// ---------------------------------------------------------------- branches

/// Word displacement of `b` as the decoder stored it.
pub open spec fn li_words(ops: Seq<Operand>) -> i32 {
    if ops.len() == 0 {
        0
    } else {
        match ops[0] {
            Operand::Immediate32(li) => li,
            Operand::Address(a) => (a as i32) >> 2u32,
            _ => 0,
        }
    }
}

/// Target of a `b` taken from its operands.
pub open spec fn operand_branch_target(inst: DecodedInstruction) -> u32 {
    let disp = li_words(inst.instruction.operands@).wrapping_mul(4);
    if (inst.raw >> 1) & 1 != 0 { disp as u32 } else { inst.address.wrapping_add(disp as u32) }
}

/// `ctx.lr = 0xRET u32; if let Ok(Some(rv)) = call_function_by_address(0xTGT u32, ...) {...}`
pub open spec fn call_text(address: u32, target: u32) -> Seq<char> {
    "ctx.lr = 0x"@ + hex8(address.wrapping_add(4)) + "u32; if let Ok(Some(rv)) = call_function_by_address(0x"@
        + hex8(target) + "u32, ctx, memory) { ctx.set_register(3, rv); }"@
}

/// Code for a branch that does not end its block.
pub open spec fn gen_branch(k: nat, inst: DecodedInstruction) -> Seq<char> {
    let raw = inst.raw;
    let primary = raw >> 26;
    if primary == 18 {
        let target = operand_branch_target(inst);
        if raw & 1 != 0 {
            indent(k) + "ctx.lr = 0x"@ + hex8(inst.address.wrapping_add(4)) + "u32;\n"@
                + indent(k) + "if let Ok(Some(rv)) = call_function_by_address(0x"@ + hex8(target)
                + "u32, ctx, memory) { ctx.set_register(3, rv); }\n"@
        } else {
            indent(k) + "ctx.pc = 0x"@ + hex8(target) + "u32;\n"@ + indent(k) + ret_stmt() + "\n"@
        }
    } else if primary == 16 {
        let ops = inst.instruction.operands@;
        let bi: u8 = if ops.len() > 1 { match ops[1] { Operand::Condition(c) => c, _ => 0 } } else { 0 };
        indent(k) + "if (ctx.get_cr_field("@ + dec((bi / 4) as nat) + ") >> "@ + dec((bi % 4) as nat)
            + ") & 1 != 0 { return Ok(Some(ctx.get_register(3))); }\n"@
    } else {
        indent(k) + ret_stmt() + "\n"@
    }
}

/// Call targets a non-terminating branch records.
pub open spec fn branch_calls(inst: DecodedInstruction) -> Seq<u32> {
    if inst.raw >> 26 == 18 && inst.raw & 1 != 0 { seq![operand_branch_target(inst)] } else { seq![] }
}

// ---------------------------------------------------------------- compare and move

/// Code for a compare, or `None` when its operands do not fit.
pub open spec fn gen_compare(k: nat, inst: DecodedInstruction) -> Option<Seq<char>> {
    let ops = inst.instruction.operands@;
    if ops.len() < 2 {
        None
    } else {
        let bf: u8 = match ops[0] { Operand::Condition(c) => c, _ => 0 };
        match ops[1] {
            Operand::Register(ra) => {
                let value = if ops.len() > 2 {
                    match ops[2] {
                        Operand::Register(rb) => get_reg(rb as nat),
                        Operand::Immediate(i) => idec(i as int) + "i32"@,
                        _ => "0i32"@,
                    }
                } else {
                    "0i32"@
                };
                let ty = if inst.instruction.opcode == 10 { "u32"@ } else { "i32"@ };
                Some(indent(k) + "let ra_val = "@ + get_reg(ra as nat) + " as "@ + ty + ";\n"@
                    + indent(k) + "let rb_val = "@ + value + " as "@ + ty + ";\n"@
                    + indent(k) + "let cr_field = if ra_val < rb_val {\n"@
                    + indent(k + 1) + "0x8u8 // Less than\n"@
                    + indent(k) + "} else if ra_val > rb_val {\n"@
                    + indent(k + 1) + "0x4u8 // Greater than\n"@
                    + indent(k) + "} else {\n"@
                    + indent(k + 1) + "0x2u8 // Equal\n"@
                    + indent(k) + "};\n"@
                    + indent(k) + "ctx.set_cr_field("@ + dec(bf as nat) + ", cr_field);\n"@)
            },
            _ => None,
        }
    }
}

/// Code for a move, or `None` when its operands do not fit.
pub open spec fn gen_move(k: nat, inst: DecodedInstruction) -> Option<Seq<char>> {
    let ops = inst.instruction.operands@;
    if ops.len() == 0 {
        None
    } else if ops.len() == 1 {
        match ops[0] {
            Operand::Register(r) => Some(indent(k) + "ctx.set_register("@ + dec(r as nat)
                + ", ctx.lr); // Move from/to link register\n"@),
            _ => None,
        }
    } else {
        Some(seq![])
    }
}

// ---------------------------------------------------------------- floating point

/// Effective address `(RA|0) + D` of a floating-point load or store.
pub open spec fn fp_ea(raw: u32) -> Seq<char> {
    let ra = (raw >> 16) & 0x1F;
    let d = (raw & 0xFFFF) as i16 as i32;
    if ra == 0 {
        dec((d as u32) as nat) + "u32"@
    } else {
        get_reg(ra as nat) + ".wrapping_add("@ + idec(d as int) + "i32 as u32)"@
    }
}

/// `ctx.get_fpr(r)`
pub open spec fn get_fpr(r: u32) -> Seq<char> {
    "ctx.get_fpr("@ + dec(r as nat) + ")"@
}

/// Expression of an extended floating-point arithmetic op.
pub open spec fn fp_arith_expr(raw: u32) -> Seq<char> {
    let ra = (raw >> 16) & 0x1F;
    let frb = (raw >> 11) & 0x1F;
    let frc = (raw >> 6) & 0x1F;
    let a_form = (raw >> 1) & 0x1F;
    let x_form = (raw >> 1) & 0x3FF;
    if a_form == 21 { get_fpr(ra) + " + "@ + get_fpr(frb) }
    else if a_form == 20 { get_fpr(ra) + " - "@ + get_fpr(frb) }
    else if a_form == 25 { get_fpr(ra) + " * "@ + get_fpr(frc) }
    else if a_form == 18 { get_fpr(ra) + " / "@ + get_fpr(frb) }
    else if a_form == 29 { get_fpr(ra) + " * "@ + get_fpr(frc) + " + "@ + get_fpr(frb) }
    else if a_form == 28 { get_fpr(ra) + " * "@ + get_fpr(frc) + " - "@ + get_fpr(frb) }
    else if a_form == 31 { "-("@ + get_fpr(ra) + " * "@ + get_fpr(frc) + " + "@ + get_fpr(frb) + ")"@ }
    else if a_form == 30 { "-("@ + get_fpr(ra) + " * "@ + get_fpr(frc) + " - "@ + get_fpr(frb) + ")"@ }
    else if x_form == 72 { get_fpr(frb) }
    else if x_form == 40 { "-"@ + get_fpr(frb) }
    else if x_form == 264 { get_fpr(frb) + ".abs()"@ }
    else if x_form == 136 { "-"@ + get_fpr(frb) + ".abs()"@ }
    else if x_form == 12 { get_fpr(frb) + " as f32 as f64"@ }
    else { get_fpr(frb) }
}

/// Code for a floating-point instruction.
pub open spec fn gen_floating_point(k: nat, inst: DecodedInstruction) -> Seq<char> {
    let raw = inst.raw;
    let primary = raw >> 26;
    let frt = (raw >> 21) & 0x1F;
    let ra = (raw >> 16) & 0x1F;
    let frb = (raw >> 11) & 0x1F;
    let ind = indent(k);
    if primary == 48 || primary == 49 {
        ind + "{ let v = f32::from_bits(memory.read_u32("@ + fp_ea(raw) + ").unwrap_or(0)); ctx.set_fpr("@
            + dec(frt as nat) + ", v as f64); }\n"@
    } else if primary == 50 || primary == 51 {
        ind + "ctx.set_fpr("@ + dec(frt as nat) + ", f64::from_bits(memory.read_u64("@ + fp_ea(raw)
            + ").unwrap_or(0)));\n"@
    } else if primary == 52 || primary == 53 {
        ind + "memory.write_u32("@ + fp_ea(raw) + ", ("@ + get_fpr(frt) + " as f32).to_bits()).unwrap_or(());\n"@
    } else if primary == 54 || primary == 55 {
        ind + "memory.write_u64("@ + fp_ea(raw) + ", "@ + get_fpr(frt) + ".to_bits()).unwrap_or(());\n"@
    } else if primary == 4 || primary == 59 || primary == 63 {
        let x_form = (raw >> 1) & 0x3FF;
        if x_form == 0 || x_form == 32 {
            ind + "{ let a = "@ + get_fpr(ra) + "; let b = "@ + get_fpr(frb) + "; ctx.set_cr_field("@
                + dec(((raw >> 23) & 0x7) as nat)
                + ", if a < b { 0x8u8 } else if a > b { 0x4u8 } else { 0x2u8 }); }\n"@
        } else {
            ind + "ctx.set_fpr("@ + dec(frt as nat) + ", "@ + fp_arith_expr(raw) + ");\n"@
        }
    } else {
        ind + "ctx.set_fpr("@ + dec(frt as nat) + ", "@ + get_fpr(frb) + ");\n"@
    }
}

// ---------------------------------------------------------------- condition register

/// `ctx.get_cr_field(b / 4)`
pub open spec fn cr_field_of(b: u8) -> Seq<char> {
    "ctx.get_cr_field("@ + dec((b / 4) as nat) + ")"@
}

/// The `let cr_result = ...;` line of a CR logical op with extended opcode `ext`.
pub open spec fn cr_result_line(ext: u32, ba: u8, bb: u8) -> Seq<char> {
    if ext == 225 {
        "let cr_result = !("@ + cr_field_of(ba) + " & "@ + cr_field_of(bb) + ");\n"@
    } else if ext == 33 {
        "let cr_result = !("@ + cr_field_of(ba) + " | "@ + cr_field_of(bb) + ");\n"@
    } else if ext == 289 {
        "let cr_result = !("@ + cr_field_of(ba) + " ^ "@ + cr_field_of(bb) + ");\n"@
    } else if ext == 129 {
        "let cr_result = "@ + cr_field_of(ba) + " & !"@ + cr_field_of(bb) + ";\n"@
    } else if ext == 417 {
        "let cr_result = "@ + cr_field_of(ba) + " | !"@ + cr_field_of(bb) + ";\n"@
    } else if ext == 449 {
        "let cr_result = "@ + cr_field_of(ba) + " | "@ + cr_field_of(bb) + ";\n"@
    } else if ext == 193 {
        "let cr_result = "@ + cr_field_of(ba) + " ^ "@ + cr_field_of(bb) + ";\n"@
    } else {
        "let cr_result = "@ + cr_field_of(ba) + " & "@ + cr_field_of(bb) + ";\n"@
    }
}

/// Code for a condition-register instruction, or `None` when its operands do not fit.
pub open spec fn gen_condition_register(k: nat, inst: DecodedInstruction) -> Option<Seq<char>> {
    let ops = inst.instruction.operands@;
    if ops.len() == 1 {
        match ops[0] {
            Operand::Register(r) => Some(indent(k) + "ctx.set_register("@ + dec(r as nat)
                + ", ctx.cr); // Move from/to condition register\n"@),
            _ => None,
        }
    } else if ops.len() == 3 {
        match (ops[0], ops[1], ops[2]) {
            (Operand::Condition(bt), Operand::Condition(ba), Operand::Condition(bb)) => Some(
                indent(k) + "let cr_a = "@ + cr_field_of(ba) + ";\n"@
                    + indent(k) + "let cr_b = "@ + cr_field_of(bb) + ";\n"@
                    + indent(k) + cr_result_line((inst.raw >> 1) & 0x3FF, ba, bb)
                    + indent(k) + "ctx.set_cr_field("@ + dec((bt / 4) as nat) + ", cr_result);\n"@,
            ),
            _ => None,
        }
    } else {
        Some(seq![])
    }
}

// ---------------------------------------------------------------- shift and rotate

/// Code for a shift, or `None` when its operands do not fit.
pub open spec fn gen_shift(k: nat, inst: DecodedInstruction) -> Option<Seq<char>> {
    let ops = inst.instruction.operands@;
    if ops.len() < 3 {
        None
    } else {
        match (ops[0], ops[1]) {
            (Operand::Register(rs), Operand::Register(ra)) => {
                let sh: Option<Seq<char>> = match ops[2] {
                    Operand::ShiftAmount(s) => Some(dec(((s as u32) & 0x1F) as nat) + "u32"@),
                    Operand::Register(r) => Some("("@ + get_reg(r as nat) + " & 0x1F)"@),
                    _ => None,
                };
                match sh {
                    Some(e) => Some(indent(k) + "ctx.set_register("@ + dec(ra as nat) + ", "@ + get_reg(rs as nat)
                        + " << "@ + e + ");\n"@),
                    None => None,
                }
            },
            _ => None,
        }
    }
}

/// Code for a rotate, or `None` when its operands do not fit.
pub open spec fn gen_rotate(k: nat, inst: DecodedInstruction) -> Option<Seq<char>> {
    let ops = inst.instruction.operands@;
    if ops.len() < 4 {
        None
    } else {
        match (ops[0], ops[1], ops[2], ops[3]) {
            (Operand::Register(rs), Operand::Register(ra), Operand::ShiftAmount(sh), Operand::Mask(m)) => Some(
                indent(k) + "let rotated = "@ + get_reg(rs as nat) + ".rotate_left("@ + dec(sh as nat) + " as u32);\n"@
                    + indent(k) + "let masked = rotated & 0x"@ + hex8(m) + "u32;\n"@
                    + indent(k) + "ctx.set_register("@ + dec(ra as nat) + ", masked);\n"@,
            ),
            _ => None,
        }
    }
}

// ---------------------------------------------------------------- system

/// The CPU-context field modelling special register `spr`, if any.
pub open spec fn spr_field(spr: u32) -> Option<Seq<char>> {
    if spr == 1 { Some("xer"@) } else if spr == 8 { Some("lr"@) } else if spr == 9 { Some("ctr"@) } else { None }
}

/// Code for a system instruction.
pub open spec fn gen_system(k: nat, inst: DecodedInstruction) -> Seq<char> {
    let raw = inst.raw;
    let ops = inst.instruction.operands@;
    let ext = (raw >> 1) & 0x3FF;
    if inst.instruction.opcode == 31 && (ext == 467 || ext == 339) {
        let reg = (raw >> 21) & 0x1F;
        let spr = ((raw >> 16) & 0x1F) | (((raw >> 11) & 0x1F) << 5);
        if ext == 467 {
            match spr_field(spr) {
                Some(f) => indent(k) + "ctx."@ + f + " = "@ + get_reg(reg as nat) + ";\n"@,
                None => indent(k) + "// mtspr "@ + dec(spr as nat) + " ignored (unmodeled)\n"@,
            }
        } else {
            match spr_field(spr) {
                Some(f) => indent(k) + "ctx.set_register("@ + dec(reg as nat) + ", ctx."@ + f + ");\n"@,
                None => indent(k) + "ctx.set_register("@ + dec(reg as nat) + ", 0u32);\n"@,
            }
        }
    } else if ops.len() > 0 {
        match ops[0] {
            Operand::SpecialRegister(spr) => {
                let first = indent(k) + "// System register operation: SPR "@ + dec(spr as nat) + "\n"@;
                if ops.len() > 1 {
                    match ops[1] {
                        Operand::Register(rt) => first + indent(k) + "// Move from/to SPR "@ + dec(spr as nat)
                            + " to/from r"@ + dec(rt as nat) + "\n"@,
                        _ => first,
                    }
                } else {
                    first
                }
            },
            _ => indent(k) + "// Cache control or memory synchronization\n"@,
        }
    } else {
        indent(k) + "// System instruction: opcode 0x"@ + hex_pad(inst.instruction.opcode as nat, 2, true) + "\n"@
            + indent(k) + "// System instructions typically require special handling\n"@
    }
}

/// Code for an instruction the generator does not model.
pub open spec fn gen_generic(k: nat, inst: DecodedInstruction) -> Seq<char> {
    indent(k) + "// untranslated 0x"@ + hex8(inst.raw) + " (type "@ + instruction_type_name(inst.instruction.instruction_type)
        + ")\n"@
}

/// Code for one instruction that does not end its block, or `None` when it cannot be translated.
pub open spec fn gen_instruction(k: nat, inst: DecodedInstruction) -> Option<Seq<char>> {
    match inst.instruction.instruction_type {
        InstructionType::Arithmetic => gen_arithmetic(k, inst),
        InstructionType::Load => gen_load(k, inst),
        InstructionType::Store => gen_store(k, inst),
        InstructionType::Branch => Some(gen_branch(k, inst)),
        InstructionType::Compare => gen_compare(k, inst),
        InstructionType::Move => gen_move(k, inst),
        InstructionType::System => Some(gen_system(k, inst)),
        InstructionType::FloatingPoint => Some(gen_floating_point(k, inst)),
        InstructionType::ConditionRegister => gen_condition_register(k, inst),
        InstructionType::Shift => gen_shift(k, inst),
        InstructionType::Rotate => gen_rotate(k, inst),
        InstructionType::Unknown => Some(gen_generic(k, inst)),
    }
}

// ---------------------------------------------------------------- block structure

/// Static target of a relative `b` or `bc`; `None` for absolute and register branches.
pub open spec fn static_branch_target(inst: DecodedInstruction) -> Option<u32> {
    let raw = inst.raw;
    if (raw >> 1) & 1 != 0 {
        None
    } else if raw >> 26 == 18 {
        Some(inst.address.wrapping_add(branch_disp26(raw)))
    } else if raw >> 26 == 16 {
        Some(inst.address.wrapping_add(branch_disp16(raw)))
    } else {
        None
    }
}

/// Whether `x` is in `[lo, hi)`.
pub open spec fn in_range(x: u32, lo: u32, hi: u32) -> bool {
    lo <= x && x < hi
}

/// Number of elements of `s` below `x`.
pub open spec fn count_lt(s: Seq<u32>, x: u32) -> nat
    decreases s.len(),
{
    if s.len() == 0 { 0 } else { count_lt(s.drop_last(), x) + if s.last() < x { 1nat } else { 0nat } }
}

/// Number of elements of `s` at or below `x`.
pub open spec fn count_le(s: Seq<u32>, x: u32) -> nat
    decreases s.len(),
{
    if s.len() == 0 { 0 } else { count_le(s.drop_last(), x) + if s.last() <= x { 1nat } else { 0nat } }
}

/// Strictly increasing.
pub open spec fn strictly_sorted(s: Seq<u32>) -> bool {
    forall|i: int, j: int| 0 <= i < j < s.len() ==> s[i] < s[j]
}

/// `s` with `x` added in order (unchanged when present).
pub open spec fn insert_sorted(s: Seq<u32>, x: u32) -> Seq<u32> {
    if s.contains(x) { s } else { s.insert(count_lt(s, x) as int, x) }
}

/// Block leaders after the first `i` instructions: the entry, and for each
/// branch the next address and the static target, when inside `[lo, hi)`.
pub open spec fn leaders_upto(insts: Seq<DecodedInstruction>, lo: u32, hi: u32, i: nat) -> Seq<u32>
    decreases i,
{
    if i == 0 {
        seq![lo]
    } else {
        let prev = leaders_upto(insts, lo, hi, (i - 1) as nat);
        let inst = insts[i - 1];
        if inst.instruction.instruction_type != InstructionType::Branch {
            prev
        } else {
            let after = inst.address.wrapping_add(4);
            let s1 = if in_range(after, lo, hi) { insert_sorted(prev, after) } else { prev };
            match static_branch_target(inst) {
                Some(t) => if in_range(t, lo, hi) { insert_sorted(s1, t) } else { s1 },
                None => s1,
            }
        }
    }
}

/// The sorted block leaders of a non-empty instruction list.
pub open spec fn leaders(insts: Seq<DecodedInstruction>) -> Seq<u32> {
    let lo = insts[0].address;
    let hi = insts.last().address.wrapping_add(4);
    leaders_upto(insts, lo, hi, insts.len())
}

/// The block an address falls in: the last leader at or below it (the first block if none).
pub open spec fn block_of_addr(ls: Seq<u32>, a: u32) -> int {
    let c = count_le(ls, a);
    if c == 0 { 0 } else { c - 1 }
}

/// Index of the first occurrence of `x` in `s`.
pub open spec fn find_index(s: Seq<u32>, x: u32) -> Option<int>
    decreases s.len(),
{
    if s.len() == 0 {
        None
    } else {
        match find_index(s.drop_last(), x) {
            Some(i) => Some(i),
            None => if s.last() == x { Some(s.len() - 1) } else { None },
        }
    }
}

/// Index of the last instruction among the first `j` that falls in block `b`.
pub open spec fn last_in_block(insts: Seq<DecodedInstruction>, ls: Seq<u32>, b: int, j: nat) -> Option<int>
    decreases j,
{
    if j == 0 {
        None
    } else if block_of_addr(ls, insts[j - 1].address) == b {
        Some(j - 1)
    } else {
        last_in_block(insts, ls, b, (j - 1) as nat)
    }
}

// ---------------------------------------------------------------- terminators

/// `__blk = N u32;` for the following block, or a return after the last one.
pub open spec fn next_text(cur: nat, n: nat) -> Seq<char> {
    if cur + 1 < n { "__blk = "@ + dec(cur + 1) + "u32;"@ } else { ret_stmt() }
}

/// The test of a condition-register bit `bi` against the BO "true" bit.
pub open spec fn cr_test(bo: u32, bi: u32) -> Seq<char> {
    if bo & 0x10 != 0 {
        "true"@
    } else {
        "((ctx.get_cr_field("@ + dec((bi / 4) as nat) + ") >> "@ + dec((3 - bi % 4) as nat) + ") & 1 != 0) == "@
            + bool_text(bo & 0x08 != 0)
    }
}

/// Code that ends block `cur` (of `n`) with the branch `inst`.
pub open spec fn gen_terminator(k: nat, inst: DecodedInstruction, cur: nat, n: nat, ls: Seq<u32>) -> Seq<char> {
    let ind = indent(k);
    let raw = inst.raw;
    let primary = raw >> 26;
    let next = next_text(cur, n);
    if primary == 18 {
        let disp = branch_disp26(raw);
        let target = if (raw >> 1) & 1 != 0 { disp } else { inst.address.wrapping_add(disp) };
        if raw & 1 != 0 {
            ind + call_text(inst.address, target) + " "@ + next + "\n"@
        } else {
            match find_index(ls, target) {
                Some(tb) => ind + "__blk = "@ + dec(tb as nat) + "u32;\n"@,
                None => ind + call_text(inst.address, target) + " "@ + ret_stmt() + "\n"@,
            }
        }
    } else if primary == 16 {
        let bo = (raw >> 21) & 0x1F;
        let bi = (raw >> 16) & 0x1F;
        let target = inst.address.wrapping_add(branch_disp16(raw));
        let pre = if bo & 0x04 == 0 { ind + "ctx.ctr = ctx.ctr.wrapping_sub(1);\n"@ } else { seq![] };
        let ctr_ok = if bo & 0x04 == 0 {
            if bo & 0x02 != 0 { "ctx.ctr == 0"@ } else { "ctx.ctr != 0"@ }
        } else {
            "true"@
        };
        let taken = if (raw >> 1) & 1 == 0 {
            match find_index(ls, target) {
                Some(tb) => "__blk = "@ + dec(tb as nat) + "u32;"@,
                None => ret_stmt(),
            }
        } else {
            ret_stmt()
        };
        pre + ind + "if ("@ + ctr_ok + ") && ("@ + cr_test(bo, bi) + ") { "@ + taken + " } else { "@ + next + " }\n"@
    } else if primary == 19 {
        let xo = (raw >> 1) & 0x3FF;
        let bo = (raw >> 21) & 0x1F;
        let bi = (raw >> 16) & 0x1F;
        let action = if xo == 528 {
            if raw & 1 != 0 {
                "ctx.lr = 0x"@ + hex8(inst.address.wrapping_add(4))
                    + "u32; if let Ok(Some(rv)) = call_function_by_address(ctx.ctr, ctx, memory) { ctx.set_register(3, rv); } "@
                    + next
            } else {
                "if let Ok(Some(rv)) = call_function_by_address(ctx.ctr, ctx, memory) { ctx.set_register(3, rv); } return Ok(Some(ctx.get_register(3)));"@
            }
        } else if raw & 1 != 0 {
            "{ let __t = ctx.lr; ctx.lr = 0x"@ + hex8(inst.address.wrapping_add(4))
                + "u32; if let Ok(Some(rv)) = call_function_by_address(__t, ctx, memory) { ctx.set_register(3, rv); } } "@
                + next
        } else {
            ret_stmt()
        };
        if bo & 0x10 != 0 {
            ind + action + "\n"@
        } else {
            ind + "if "@ + cr_test(bo, bi) + " { "@ + action + " } else { "@ + next + " }\n"@
        }
    } else {
        ind + ret_stmt() + "\n"@
    }
}

/// Call targets a terminating branch records.
pub open spec fn terminator_calls(inst: DecodedInstruction) -> Seq<u32> {
    let raw = inst.raw;
    if raw >> 26 == 18 && raw & 1 != 0 {
        let disp = branch_disp26(raw);
        seq![if (raw >> 1) & 1 != 0 { disp } else { inst.address.wrapping_add(disp) }]
    } else {
        seq![]
    }
}

// ---------------------------------------------------------------- function body

/// Whether instruction `j` ends block `b`: it is the block's last instruction and a branch.
pub open spec fn ends_block(insts: Seq<DecodedInstruction>, ls: Seq<u32>, b: int, j: int) -> bool {
    last_in_block(insts, ls, b, insts.len()) == Some(j)
        && insts[j].instruction.instruction_type == InstructionType::Branch
}

/// Code of instruction `j` inside block `b` (of `n`).
pub open spec fn gen_block_member(k: nat, insts: Seq<DecodedInstruction>, ls: Seq<u32>, b: nat, n: nat, j: int) -> Seq<char> {
    if ends_block(insts, ls, b as int, j) {
        gen_terminator(k, insts[j], b, n, ls)
    } else {
        match gen_instruction(k, insts[j]) {
            Some(c) => c,
            None => indent(k) + "// untranslated 0x"@ + hex8(insts[j].raw) + "\n"@,
        }
    }
}

/// Call targets instruction `j` of block `b` records.
pub open spec fn block_member_calls(insts: Seq<DecodedInstruction>, ls: Seq<u32>, b: nat, j: int) -> Seq<u32> {
    if ends_block(insts, ls, b as int, j) {
        terminator_calls(insts[j])
    } else if insts[j].instruction.instruction_type == InstructionType::Branch {
        branch_calls(insts[j])
    } else {
        seq![]
    }
}

/// Code of the members of block `b` among the first `j` instructions, in order.
pub open spec fn gen_block_members(k: nat, insts: Seq<DecodedInstruction>, ls: Seq<u32>, b: nat, n: nat, j: nat) -> Seq<char>
    decreases j,
{
    if j == 0 {
        seq![]
    } else {
        let prev = gen_block_members(k, insts, ls, b, n, (j - 1) as nat);
        if block_of_addr(ls, insts[j - 1].address) == b {
            prev + gen_block_member(k, insts, ls, b, n, j - 1)
        } else {
            prev
        }
    }
}

/// Call targets of the members of block `b` among the first `j` instructions.
pub open spec fn block_members_calls(insts: Seq<DecodedInstruction>, ls: Seq<u32>, b: nat, j: nat) -> Seq<u32>
    decreases j,
{
    if j == 0 {
        seq![]
    } else {
        let prev = block_members_calls(insts, ls, b, (j - 1) as nat);
        if block_of_addr(ls, insts[j - 1].address) == b {
            prev + block_member_calls(insts, ls, b, j - 1)
        } else {
            prev
        }
    }
}

/// Whether block `b` ends in a branch.
pub open spec fn block_terminated(insts: Seq<DecodedInstruction>, ls: Seq<u32>, b: int) -> bool {
    match last_in_block(insts, ls, b, insts.len()) {
        Some(j) => insts[j].instruction.instruction_type == InstructionType::Branch,
        None => false,
    }
}

/// One `N u32 => { ... }` arm of the block dispatch.
pub open spec fn gen_block(k: nat, insts: Seq<DecodedInstruction>, ls: Seq<u32>, b: nat, n: nat) -> Seq<char> {
    let ind = indent(k);
    let tail = if block_terminated(insts, ls, b as int) {
        seq![]
    } else if b + 1 < n {
        ind + "__blk = "@ + dec(b + 1) + "u32;\n"@
    } else {
        ind + ret_stmt() + "\n"@
    };
    ind + dec(b) + "u32 => {\n"@ + gen_block_members(k, insts, ls, b, n, insts.len()) + tail + ind + "}\n"@
}

/// The first `b` arms of the block dispatch.
pub open spec fn gen_blocks(k: nat, insts: Seq<DecodedInstruction>, ls: Seq<u32>, n: nat, b: nat) -> Seq<char>
    decreases b,
{
    if b == 0 { seq![] } else { gen_blocks(k, insts, ls, n, (b - 1) as nat) + gen_block(k, insts, ls, (b - 1) as nat, n) }
}

/// Call targets recorded while emitting the first `b` arms.
pub open spec fn blocks_calls(insts: Seq<DecodedInstruction>, ls: Seq<u32>, b: nat) -> Seq<u32>
    decreases b,
{
    if b == 0 {
        seq![]
    } else {
        blocks_calls(insts, ls, (b - 1) as nat) + block_members_calls(insts, ls, (b - 1) as nat, insts.len())
    }
}

/// The body of a generated function: a block state machine with a loop guard.
pub open spec fn gen_body(k: nat, insts: Seq<DecodedInstruction>) -> Seq<char> {
    let ind = indent(k);
    if insts.len() == 0 {
        ind + "Ok(Some(ctx.get_register(3)))\n"@
    } else {
        let ls = leaders(insts);
        let n = ls.len();
        ind + "gcrecomp_core::runtime::trace_call(0x"@ + hex8(insts[0].address) + "u32);\n"@
            + ind + "if gcrecomp_core::runtime::out_of_budget() { return Ok(Some(ctx.get_register(3))); }\n"@
            + ind + "let mut __blk: u32 = 0;\n"@
            + ind + "let mut __steps: u64 = 0;\n"@
            + ind + "loop {\n"@
            + ind + "__steps += 1; if __steps > 8_000_000 || (__steps & 0xFFFF == 0 && gcrecomp_core::runtime::out_of_budget()) { return Ok(Some(ctx.get_register(3))); }\n"@
            + ind + "match __blk {\n"@
            + gen_blocks(k, insts, ls, n, n)
            + ind + "_ => return Ok(Some(ctx.get_register(3))),\n"@
            + ind + "}\n"@
            + ind + "}\n"@
    }
}

/// Call targets recorded while generating a body.
pub open spec fn body_calls(insts: Seq<DecodedInstruction>) -> Seq<u32> {
    if insts.len() == 0 { seq![] } else { blocks_calls(insts, leaders(insts), leaders(insts).len()) }
}

/// A whole generated function at indentation level `k`.
pub open spec fn gen_function(k: nat, name: Seq<char>, address: u32, insts: Seq<DecodedInstruction>) -> Seq<char> {
    signature(name, address) + " {\n"@ + gen_body(k + 1, insts) + "}\n"@
}


// ---------------------------------------------------------------- congruence

/// Per-instruction text and calls depend only on the decoded fields.
pub proof fn lemma_instruction_congruent(k: nat, a: DecodedInstruction, b: DecodedInstruction)
    requires
        same_decoded(a, b),
    ensures
        gen_instruction(k, a) == gen_instruction(k, b),
        static_branch_target(a) == static_branch_target(b),
        branch_calls(a) == branch_calls(b),
        terminator_calls(a) == terminator_calls(b),
        forall|cur: nat, n: nat, ls: Seq<u32>| gen_terminator(k, a, cur, n, ls) == gen_terminator(k, b, cur, n, ls),
{
    assert(a.instruction.operands@ == b.instruction.operands@);
}

proof fn lemma_leaders_upto_congruent(a: Seq<DecodedInstruction>, b: Seq<DecodedInstruction>, lo: u32, hi: u32, i: nat)
    requires
        same_decoded_seq(a, b),
        i <= a.len(),
    ensures
        leaders_upto(a, lo, hi, i) == leaders_upto(b, lo, hi, i),
    decreases i,
{
    if i > 0 {
        lemma_leaders_upto_congruent(a, b, lo, hi, (i - 1) as nat);
        assert(same_decoded(a[i - 1], b[i - 1]));
        lemma_instruction_congruent(0, a[i - 1], b[i - 1]);
    }
}

proof fn lemma_last_in_block_congruent(a: Seq<DecodedInstruction>, b: Seq<DecodedInstruction>, ls: Seq<u32>, blk: int, j: nat)
    requires
        same_decoded_seq(a, b),
        j <= a.len(),
    ensures
        last_in_block(a, ls, blk, j) == last_in_block(b, ls, blk, j),
        last_in_block(a, ls, blk, j) matches Some(x) ==> 0 <= x < j,
    decreases j,
{
    if j > 0 {
        assert(same_decoded(a[j - 1], b[j - 1]));
        lemma_last_in_block_congruent(a, b, ls, blk, (j - 1) as nat);
    }
}

proof fn lemma_member_congruent(k: nat, a: Seq<DecodedInstruction>, b: Seq<DecodedInstruction>, ls: Seq<u32>, blk: nat, n: nat, j: int)
    requires
        same_decoded_seq(a, b),
        0 <= j < a.len(),
    ensures
        gen_block_member(k, a, ls, blk, n, j) == gen_block_member(k, b, ls, blk, n, j),
        block_member_calls(a, ls, blk, j) == block_member_calls(b, ls, blk, j),
        ends_block(a, ls, blk as int, j) == ends_block(b, ls, blk as int, j),
{
    assert(same_decoded(a[j], b[j]));
    lemma_instruction_congruent(k, a[j], b[j]);
    lemma_last_in_block_congruent(a, b, ls, blk as int, a.len());
}

proof fn lemma_members_congruent(k: nat, a: Seq<DecodedInstruction>, b: Seq<DecodedInstruction>, ls: Seq<u32>, blk: nat, n: nat, j: nat)
    requires
        same_decoded_seq(a, b),
        j <= a.len(),
    ensures
        gen_block_members(k, a, ls, blk, n, j) == gen_block_members(k, b, ls, blk, n, j),
        block_members_calls(a, ls, blk, j) == block_members_calls(b, ls, blk, j),
    decreases j,
{
    if j > 0 {
        lemma_members_congruent(k, a, b, ls, blk, n, (j - 1) as nat);
        assert(same_decoded(a[j - 1], b[j - 1]));
        lemma_member_congruent(k, a, b, ls, blk, n, j - 1);
    }
}

proof fn lemma_blocks_congruent(k: nat, a: Seq<DecodedInstruction>, b: Seq<DecodedInstruction>, ls: Seq<u32>, n: nat, blk: nat)
    requires
        same_decoded_seq(a, b),
    ensures
        gen_blocks(k, a, ls, n, blk) == gen_blocks(k, b, ls, n, blk),
        blocks_calls(a, ls, blk) == blocks_calls(b, ls, blk),
    decreases blk,
{
    if blk > 0 {
        let c = (blk - 1) as nat;
        lemma_blocks_congruent(k, a, b, ls, n, c);
        lemma_members_congruent(k, a, b, ls, c, n, a.len());
        lemma_last_in_block_congruent(a, b, ls, c as int, a.len());
        match last_in_block(a, ls, c as int, a.len()) {
            Some(j) => {
                assert(same_decoded(a[j], b[j]));
            },
            None => {},
        }
        assert(block_terminated(a, ls, c as int) == block_terminated(b, ls, c as int));
    }
}

/// The generated text of a function, and the calls it records, depend only on
/// each instruction's decoded fields (opcode, class, operands, address, word).
pub proof fn lemma_gen_function_congruent(k: nat, name: Seq<char>, address: u32, a: Seq<DecodedInstruction>, b: Seq<DecodedInstruction>)
    requires
        same_decoded_seq(a, b),
    ensures
        gen_function(k, name, address, a) == gen_function(k, name, address, b),
        body_calls(a) == body_calls(b),
{
    if a.len() > 0 {
        assert(same_decoded(a[0], b[0]));
        assert(same_decoded(a[a.len() - 1], b[b.len() - 1]));
        lemma_leaders_upto_congruent(a, b, a[0].address, a.last().address.wrapping_add(4), a.len());
        let ls = leaders(a);
        lemma_blocks_congruent(k + 1, a, b, ls, ls.len(), ls.len());
        lemma_blocks_congruent(k, a, b, ls, ls.len(), ls.len());
    }
}


/// In a strictly sorted sequence the first `count_lt(s, x)` elements are below `x` and the rest are not.
pub proof fn lemma_count_lt_position(s: Seq<u32>, x: u32)
    requires
        strictly_sorted(s),
    ensures
        count_lt(s, x) <= s.len(),
        forall|j: int| 0 <= j < count_lt(s, x) ==> s[j] < x,
        forall|j: int| count_lt(s, x) <= j < s.len() ==> s[j] >= x,
    decreases s.len(),
{
    if s.len() > 0 {
        let t = s.drop_last();
        assert(strictly_sorted(t)) by {
            assert forall|i: int, j: int| 0 <= i < j < t.len() implies t[i] < t[j] by {
                assert(t[i] == s[i] && t[j] == s[j]);
            }
        }
        lemma_count_lt_position(t, x);
        assert forall|j: int| 0 <= j < t.len() implies #[trigger] s[j] == t[j] by {}
        if s.last() < x {
            assert forall|j: int| 0 <= j < t.len() implies t[j] < x by {
                assert(s[j] < s.last());
            }
            lemma_count_all_below(t, x);
            assert forall|j: int| 0 <= j < count_lt(s, x) implies s[j] < x by {
                if j < t.len() { assert(t[j] < x); }
            }
        } else {
            assert forall|j: int| 0 <= j < count_lt(s, x) implies s[j] < x by {
                assert(t[j] < x);
            }
            assert forall|j: int| count_lt(s, x) <= j < s.len() implies s[j] >= x by {
                if j < t.len() { assert(t[j] >= x); }
            }
        }
    }
}

/// When every element is below `x`, all of them are counted.
proof fn lemma_count_all_below(s: Seq<u32>, x: u32)
    requires
        forall|j: int| 0 <= j < s.len() ==> s[j] < x,
    ensures
        count_lt(s, x) == s.len(),
    decreases s.len(),
{
    if s.len() > 0 {
        lemma_count_all_below(s.drop_last(), x);
    }
}

/// Inserting into a strictly sorted sequence keeps it strictly sorted, adds
/// `x`, and keeps every element.
pub proof fn lemma_insert_sorted_sorted(s: Seq<u32>, x: u32)
    requires
        strictly_sorted(s),
    ensures
        strictly_sorted(insert_sorted(s, x)),
        insert_sorted(s, x).contains(x),
        forall|y: u32| s.contains(y) ==> #[trigger] insert_sorted(s, x).contains(y),
        forall|y: u32| #[trigger] insert_sorted(s, x).contains(y) ==> y == x || s.contains(y),
{
    if !s.contains(x) {
        lemma_count_lt_position(s, x);
        let p = count_lt(s, x) as int;
        let t = s.insert(p, x);
        assert(t[p] == x);
        assert forall|i: int, j: int| 0 <= i < j < t.len() implies t[i] < t[j] by {
            if j < p {
            } else if j == p {
            } else if i < p {
                assert(t[j] == s[j - 1]);
                assert(s[j - 1] >= x);
                if s[j - 1] == x { assert(s.contains(x)); }
            } else if i == p {
                assert(t[j] == s[j - 1]);
                if s[j - 1] == x { assert(s.contains(x)); }
            } else {
                assert(t[i] == s[i - 1] && t[j] == s[j - 1]);
            }
        }
        assert forall|y: u32| s.contains(y) implies #[trigger] t.contains(y) by {
            let w = choose|k: int| 0 <= k < s.len() && s[k] == y;
            if w < p { assert(t[w] == y); } else { assert(t[w + 1] == y); }
        }
        assert forall|y: u32| #[trigger] t.contains(y) implies y == x || s.contains(y) by {
            let w = choose|k: int| 0 <= k < t.len() && t[k] == y;
            if w < p { assert(s[w] == y); } else if w > p { assert(s[w - 1] == y); }
        }
    }
}


/// `subf rD, rA, rB` subtracts `rA` from `rB`: the generated line sets `rD`
/// to `rB - rA` (wrapping), and a folded constant is `b - a` modulo 2^32.
pub proof fn lemma_subf_subtracts_ra_from_rb(k: nat, inst: DecodedInstruction, rt: u8, ra: u8, rb: u8)
    requires
        inst.instruction.opcode == 31,
        (inst.raw >> 1) & 0x3FF == 40,
        inst.instruction.operands@ == seq![Operand::Register(rt), Operand::Register(ra), Operand::Register(rb)],
    ensures
        gen_arithmetic(k, inst) == Some(indent(k) + "ctx.set_register("@ + dec(rt as nat) + ", "@
            + "("@ + get_reg(rb as nat) + ").wrapping_sub("@ + get_reg(ra as nat) + ")"@ + ");\n"@),
        forall|a: u32, b: u32| #[trigger] folded(arith_op(31, inst.raw).0, a, b) == ((b - a) % 0x1_0000_0000) as u32,
{
    let ext = (inst.raw >> 1) & 0x3FF;
    assert(unary_expr(ext, (inst.raw >> 21) & 0x1F) is None);
    let ops = inst.instruction.operands@;
    assert(ops[0] == Operand::Register(rt) && ops[1] == Operand::Register(ra) && ops[2] == Operand::Register(rb));
    assert(arith_rb(ops) == get_reg(rb as nat));
    assert(arith_op(31, inst.raw) == (ArithOp::ReverseSub, false));
    let want = indent(k) + "ctx.set_register("@ + dec(rt as nat) + ", "@
        + "("@ + get_reg(rb as nat) + ").wrapping_sub("@ + get_reg(ra as nat) + ")"@ + ");\n"@;
    let got = indent(k) + "ctx.set_register("@ + dec(rt as nat) + ", "@
        + op_expr(ArithOp::ReverseSub, get_reg(ra as nat), get_reg(rb as nat)) + ");\n"@;
    assert(got =~= want);
}

} // verus!
