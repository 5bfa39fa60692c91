//! Rust code generation from decoded PowerPC instructions.
//!
//! Each function body becomes a basic-block state machine: a `loop` around a
//! `match __blk`, where branches select the next block, calls go through the
//! address dispatcher, and a step budget bounds runaway loops.
pub mod spec;

use vstd::prelude::*;
use vstd::string::*;
use crate::analysis::{FunctionMetadata, TypeInfo};
use crate::decoder::{DecodedInstruction, InstructionType, Operand, disp16, disp26};
use crate::text::{
    char_is_alphanumeric, char_is_numeric, dec, hex8, idec, indent, is_alphanumeric, is_numeric, push_char,
    push_dec, push_hex8, push_hex_pad, push_idec, push_indent, push_str, push_string, str_chars,
};
use self::spec::{
    ArithOp, folded, addr_line, arith_op, arith_rb, block_member_calls, block_members_calls, block_of_addr, block_terminated, blocks_calls, body_calls, bool_text, branch_calls, call_text, count_le, count_lt, cr0_update, cr_field_of, cr_result_line, cr_test, ends_block, find_index, fp_arith_expr, fp_ea, function_name, gen_arithmetic, gen_block, gen_block_member, gen_block_members, gen_blocks, gen_body, gen_branch, gen_compare, gen_condition_register, gen_floating_point, gen_function, gen_generic, gen_instruction, gen_load, gen_move, gen_rotate, gen_shift, gen_store, gen_system, gen_terminator, get_fpr, get_reg, identifier_chars, in_range, insert_sorted, instruction_type_name, keeps_char, last_in_block, leaders, leaders_upto, li_words, map_separator, mem_offset, next_text, op_expr, operand_branch_target, ret_stmt, sanitized, signature, spr_field, starts_with, static_branch_target, strictly_sorted, terminator_calls, unary_expr,
};

verus! {

/// What the generator knows of a register's value.
#[derive(Clone, Copy, Debug, PartialEq, Eq, Structural)]
pub enum RegisterValue {
    Constant(u32),
    Unknown,
}

/// The reason one instruction could not be translated.
#[derive(Clone, Copy, Debug, PartialEq, Eq)]
pub struct CodegenError {
    pub message: &'static str,
}

/// Number of register slots the generator tracks (one per possible register number).
pub const REGISTER_SLOTS: usize = 256;

/// Generates Rust source for recompiled functions.
pub struct CodeGenerator {
    indent_level: usize,
    register_values: Vec<Option<RegisterValue>>,
    optimize: bool,
    function_calls: Vec<u32>,
}

impl CodeGenerator {
    /// Current indentation level.
    pub closed spec fn level(&self) -> nat {
        self.indent_level as nat
    }

    /// Whether constant folding is enabled.
    pub closed spec fn optimizing(&self) -> bool {
        self.optimize
    }

    /// Call targets recorded so far, in emission order.
    pub closed spec fn calls(&self) -> Seq<u32> {
        self.function_calls@
    }

    /// Internal consistency: one slot per register number, and no slot holds a
    /// constant (a constant can only be derived from two constants).
    pub closed spec fn wf(&self) -> bool {
        &&& self.register_values@.len() == REGISTER_SLOTS
        &&& forall|i: int| 0 <= i < self.register_values@.len() ==> !(#[trigger] self.register_values@[i] matches Some(RegisterValue::Constant(_)))
    }

    /// A generator at indentation level 0 with optimizations on and no calls recorded.
    pub fn new() -> (g: Self)
        ensures
            g.wf(),
            g.level() == 0,
            g.optimizing(),
            g.calls() == Seq::<u32>::empty(),
            gen_state(&g) == fresh_state(),
    {
        let mut register_values: Vec<Option<RegisterValue>> = Vec::new();
        for i in 0..REGISTER_SLOTS
            invariant
                register_values@.len() == i,
                forall|j: int| 0 <= j < i ==> #[trigger] register_values@[j] == None::<RegisterValue>,
        {
            register_values.push(None);
        }
        CodeGenerator { indent_level: 0, register_values, optimize: true, function_calls: Vec::new() }
    }

    /// The same generator with constant folding switched on or off.
    pub fn with_optimizations(self, optimize: bool) -> (g: Self)
        requires
            self.wf(),
        ensures
            g.wf(),
            g.level() == self.level(),
            g.optimizing() == optimize,
            g.calls() == self.calls(),
    {
        let mut g = self;
        g.optimize = optimize;
        g
    }

    /// Indentation text of the current level.
    fn indent(&self) -> (s: String)
        ensures
            s@ == indent(self.level()),
    {
        let mut s = String::new();
        push_indent(&mut s, self.indent_level);
        assert(s@ =~= indent(self.level()));
        s
    }

    /// A Rust identifier for `name`: separators become `_`, other characters
    /// that are not alphanumeric are dropped, an empty result becomes
    /// `function`, and a leading digit gets a `function_` prefix.
    pub fn sanitize_identifier(&self, name: &str) -> (r: String)
        ensures
            r@ == sanitized(name@),
    {
        let chars = str_chars(name);
        let mut id = String::new();
        let mut i: usize = 0;
        while i < chars.len()
            invariant
                i <= chars@.len(),
                chars@ == name@,
                id@ == identifier_chars(chars@.take(i as int)),
            decreases chars@.len() - i,
        {
            let c0 = chars[i];
            let c = if c0 == ' ' || c0 == '-' || c0 == '.' { '_' } else { c0 };
            assert(chars@.take(i + 1).drop_last() =~= chars@.take(i as int));
            if is_alphanumeric(c) || c == '_' {
                push_char(&mut id, c);
            }
            i = i + 1;
        }
        assert(chars@.take(chars@.len() as int) =~= chars@);
        let ghost idv = id@;
        if id.as_str().unicode_len() == 0 {
            let mut r = String::new();
            push_str(&mut r, "function");
            assert(r@ =~= "function"@);
            r
        } else {
            let first = first_char(&id);
            if is_numeric(first) {
                let mut r = String::new();
                push_str(&mut r, "function_");
                push_string(&mut r, &id);
                assert(r@ =~= "function_"@ + idv);
                r
            } else {
                id
            }
        }
    }

    /// The generated name of the function at `address` called `name`:
    /// `func_0x` and the address for unnamed or `sub_` names, else the
    /// sanitized name, `_` and the address (eight upper-case hex digits).
    pub fn function_name_text(&self, name: &str, address: u32) -> (r: String)
        ensures
            r@ == function_name(name@, address),
    {
        let name_chars = str_chars(name);
        let mut func_name = String::new();
        if name_chars.len() == 0 || has_sub_prefix(&name_chars) {
            push_str(&mut func_name, "func_0x");
            push_hex8(&mut func_name, address);
        } else {
            let s = self.sanitize_identifier(name);
            push_string(&mut func_name, &s);
            push_str(&mut func_name, "_");
            push_hex8(&mut func_name, address);
        }
        assert(func_name@ =~= function_name(name@, address));
        func_name
    }

    /// The signature of the generated function for `metadata`.
    fn generate_function_signature(&self, metadata: &FunctionMetadata) -> (r: Result<String, CodegenError>)
        ensures
            r matches Ok(s) && s@ == signature(metadata.name@, metadata.address),
    {
        let mut sig = String::new();
        push_str(&mut sig, "pub fn ");
        let func_name = self.function_name_text(metadata.name.as_str(), metadata.address);
        push_string(&mut sig, &func_name);
        push_str(&mut sig, "(ctx: &mut CpuContext, memory: &mut MemoryManager) -> Result<Option<u32>>");
        assert(sig@ =~= signature(metadata.name@, metadata.address));
        Ok(sig)
    }
}


/// Appends `ctx.get_register(r)`.
fn push_get_reg(s: &mut String, r: u64)
    ensures
        final(s)@ == old(s)@ + get_reg(r as nat),
{
    let ghost s0 = s@;
    push_str(s, "ctx.get_register(");
    push_dec(s, r);
    push_str(s, ")");
    assert(s@ =~= s0 + get_reg(r as nat));
}

/// Appends `ctx.get_fpr(r)`.
fn push_get_fpr(s: &mut String, r: u32)
    ensures
        final(s)@ == old(s)@ + get_fpr(r),
{
    let ghost s0 = s@;
    push_str(s, "ctx.get_fpr(");
    push_dec(s, r as u64);
    push_str(s, ")");
    assert(s@ =~= s0 + get_fpr(r));
}

/// Appends `ctx.get_cr_field(b / 4)`.
fn push_cr_field(s: &mut String, b: u8)
    ensures
        final(s)@ == old(s)@ + cr_field_of(b),
{
    let ghost s0 = s@;
    push_str(s, "ctx.get_cr_field(");
    push_dec(s, (b / 4) as u64);
    push_str(s, ")");
    assert(s@ =~= s0 + cr_field_of(b));
}

/// The `{:?}` name of an instruction class.
fn instruction_type_str(t: InstructionType) -> (r: &'static str)
    ensures
        r@ == instruction_type_name(t),
{
    match t {
        InstructionType::Arithmetic => "Arithmetic",
        InstructionType::Load => "Load",
        InstructionType::Store => "Store",
        InstructionType::Branch => "Branch",
        InstructionType::Compare => "Compare",
        InstructionType::Move => "Move",
        InstructionType::System => "System",
        InstructionType::FloatingPoint => "FloatingPoint",
        InstructionType::ConditionRegister => "ConditionRegister",
        InstructionType::Shift => "Shift",
        InstructionType::Rotate => "Rotate",
        InstructionType::Unknown => "Unknown",
    }
}

/// The context field modelling special register `spr`.
fn spr_field_str(spr: u32) -> (r: Option<&'static str>)
    ensures
        match r {
            Some(f) => spr_field(spr) == Some(f@),
            None => spr_field(spr) is None,
        },
{
    if spr == 1 { Some("xer") } else if spr == 8 { Some("lr") } else if spr == 9 { Some("ctr") } else { None }
}

fn err(message: &'static str) -> (e: CodegenError)
    ensures
        e.message == message,
{
    CodegenError { message }
}

impl CodeGenerator {
    /// Code for an instruction the generator does not model: a one-line comment.
    fn generate_generic(&self, inst: &DecodedInstruction) -> (r: Result<String, CodegenError>)
        ensures
            r matches Ok(s) && s@ == gen_generic(self.level(), *inst),
    {
        let mut c = self.indent();
        push_str(&mut c, "// untranslated 0x");
        push_hex8(&mut c, inst.raw);
        push_str(&mut c, " (type ");
        push_str(&mut c, instruction_type_str(inst.instruction.instruction_type));
        push_str(&mut c, ")\n");
        assert(c@ =~= gen_generic(self.level(), *inst));
        Ok(c)
    }

    /// Code for a system instruction: `mtspr`/`mfspr` of LR, CTR and XER move
    /// values; other special registers read as 0 and writes to them are ignored;
    /// everything else becomes a comment.
    fn generate_system(&self, inst: &DecodedInstruction) -> (r: Result<String, CodegenError>)
        ensures
            r matches Ok(s) && s@ == gen_system(self.level(), *inst),
    {
        let raw = inst.raw;
        let ops = &inst.instruction.operands;
        let ext = (raw >> 1) & 0x3FF;
        let mut c = self.indent();
        let ghost k = self.level();
        if inst.instruction.opcode == 31 && (ext == 467 || ext == 339) {
            let reg = (raw >> 21) & 0x1F;
            let spr = ((raw >> 16) & 0x1F) | (((raw >> 11) & 0x1F) << 5);
            let field = spr_field_str(spr);
            if ext == 467 {
                match field {
                    Some(f) => {
                        push_str(&mut c, "ctx.");
                        push_str(&mut c, f);
                        push_str(&mut c, " = ");
                        push_get_reg(&mut c, reg as u64);
                        push_str(&mut c, ";\n");
                    },
                    None => {
                        push_str(&mut c, "// mtspr ");
                        push_dec(&mut c, spr as u64);
                        push_str(&mut c, " ignored (unmodeled)\n");
                    },
                }
            } else {
                push_str(&mut c, "ctx.set_register(");
                push_dec(&mut c, reg as u64);
                match field {
                    Some(f) => {
                        push_str(&mut c, ", ctx.");
                        push_str(&mut c, f);
                        push_str(&mut c, ");\n");
                    },
                    None => {
                        push_str(&mut c, ", 0u32);\n");
                    },
                }
            }
            assert(c@ =~= gen_system(k, *inst));
            return Ok(c);
        }
        if ops.len() > 0 {
            match ops[0] {
                Operand::SpecialRegister(spr) => {
                    push_str(&mut c, "// System register operation: SPR ");
                    push_dec(&mut c, spr as u64);
                    push_str(&mut c, "\n");
                    if ops.len() > 1 {
                        match ops[1] {
                            Operand::Register(rt) => {
                                push_indent(&mut c, self.indent_level);
                                push_str(&mut c, "// Move from/to SPR ");
                                push_dec(&mut c, spr as u64);
                                push_str(&mut c, " to/from r");
                                push_dec(&mut c, rt as u64);
                                push_str(&mut c, "\n");
                            },
                            _ => {},
                        }
                    }
                },
                _ => {
                    push_str(&mut c, "// Cache control or memory synchronization\n");
                },
            }
        } else {
            push_str(&mut c, "// System instruction: opcode 0x");
            push_hex_pad(&mut c, inst.instruction.opcode as u64, 2, true);
            push_str(&mut c, "\n");
            push_indent(&mut c, self.indent_level);
            push_str(&mut c, "// System instructions typically require special handling\n");
        }
        assert(c@ =~= gen_system(k, *inst));
        Ok(c)
    }

    /// Code for a move: with one register operand, copies LR into it.
    fn generate_move(&self, inst: &DecodedInstruction) -> (r: Result<String, CodegenError>)
        ensures
            match r {
                Ok(s) => gen_move(self.level(), *inst) == Some(s@),
                Err(_) => gen_move(self.level(), *inst) is None,
            },
    {
        let ops = &inst.instruction.operands;
        if ops.len() == 0 {
            return Err(err("Move instruction requires at least one operand"));
        }
        let mut c = String::new();
        if ops.len() == 1 {
            let reg = match ops[0] {
                Operand::Register(r) => r,
                _ => { return Err(err("Move operand must be a register")); },
            };
            c = self.indent();
            push_str(&mut c, "ctx.set_register(");
            push_dec(&mut c, reg as u64);
            push_str(&mut c, ", ctx.lr); // Move from/to link register\n");
        }
        assert(Some(c@) =~= gen_move(self.level(), *inst));
        Ok(c)
    }

    /// Code for a rotate-and-mask: `rotate_left` by the shift amount, then AND with the mask.
    fn generate_rotate(&self, inst: &DecodedInstruction) -> (r: Result<String, CodegenError>)
        ensures
            match r {
                Ok(s) => gen_rotate(self.level(), *inst) == Some(s@),
                Err(_) => gen_rotate(self.level(), *inst) is None,
            },
    {
        let ops = &inst.instruction.operands;
        if ops.len() < 4 {
            return Err(err("Rotate instruction requires 4 operands"));
        }
        let rs = match ops[0] { Operand::Register(r) => r, _ => { return Err(err("First operand must be register")); } };
        let ra = match ops[1] { Operand::Register(r) => r, _ => { return Err(err("Second operand must be register")); } };
        let sh = match ops[2] { Operand::ShiftAmount(s) => s, _ => { return Err(err("Third operand must be shift amount")); } };
        let mask = match ops[3] { Operand::Mask(m) => m, _ => { return Err(err("Fourth operand must be mask")); } };
        let mut c = self.indent();
        push_str(&mut c, "let rotated = ");
        push_get_reg(&mut c, rs as u64);
        push_str(&mut c, ".rotate_left(");
        push_dec(&mut c, sh as u64);
        push_str(&mut c, " as u32);\n");
        push_indent(&mut c, self.indent_level);
        push_str(&mut c, "let masked = rotated & 0x");
        push_hex8(&mut c, mask);
        push_str(&mut c, "u32;\n");
        push_indent(&mut c, self.indent_level);
        push_str(&mut c, "ctx.set_register(");
        push_dec(&mut c, ra as u64);
        push_str(&mut c, ", masked);\n");
        assert(Some(c@) =~= gen_rotate(self.level(), *inst));
        Ok(c)
    }

    /// Code for a shift by an immediate (masked to 5 bits) or a register amount.
    fn generate_shift(&self, inst: &DecodedInstruction) -> (r: Result<String, CodegenError>)
        ensures
            match r {
                Ok(s) => gen_shift(self.level(), *inst) == Some(s@),
                Err(_) => gen_shift(self.level(), *inst) is None,
            },
    {
        let ops = &inst.instruction.operands;
        if ops.len() < 3 {
            return Err(err("Shift instruction requires at least 3 operands"));
        }
        let rs = match ops[0] { Operand::Register(r) => r, _ => { return Err(err("First operand must be register")); } };
        let ra = match ops[1] { Operand::Register(r) => r, _ => { return Err(err("Second operand must be register")); } };
        let mut sh = String::new();
        match ops[2] {
            Operand::ShiftAmount(s) => {
                push_dec(&mut sh, ((s as u32) & 0x1F) as u64);
                push_str(&mut sh, "u32");
            },
            Operand::Register(r) => {
                push_str(&mut sh, "(");
                push_get_reg(&mut sh, r as u64);
                push_str(&mut sh, " & 0x1F)");
            },
            _ => { return Err(err("Third operand must be shift amount or register")); },
        }
        let mut c = self.indent();
        push_str(&mut c, "ctx.set_register(");
        push_dec(&mut c, ra as u64);
        push_str(&mut c, ", ");
        push_get_reg(&mut c, rs as u64);
        push_str(&mut c, " << ");
        push_string(&mut c, &sh);
        push_str(&mut c, ");\n");
        assert(Some(c@) =~= gen_shift(self.level(), *inst));
        Ok(c)
    }

    /// Code for a condition-register instruction: `mfcr`-style moves, or a
    /// logical combination of two CR fields.
    #[verifier::spinoff_prover]
    #[verifier::rlimit(40)]
    fn generate_condition_register(&self, inst: &DecodedInstruction) -> (r: Result<String, CodegenError>)
        ensures
            match r {
                Ok(s) => gen_condition_register(self.level(), *inst) == Some(s@),
                Err(_) => gen_condition_register(self.level(), *inst) is None,
            },
    {
        let ops = &inst.instruction.operands;
        let mut c = String::new();
        if ops.len() == 1 {
            let reg = match ops[0] { Operand::Register(r) => r, _ => { return Err(err("Operand must be register")); } };
            c = self.indent();
            push_str(&mut c, "ctx.set_register(");
            push_dec(&mut c, reg as u64);
            push_str(&mut c, ", ctx.cr); // Move from/to condition register\n");
        } else if ops.len() == 3 {
            let bt = match ops[0] { Operand::Condition(x) => x, _ => { return Err(err("First operand must be condition")); } };
            let ba = match ops[1] { Operand::Condition(x) => x, _ => { return Err(err("Second operand must be condition")); } };
            let bb = match ops[2] { Operand::Condition(x) => x, _ => { return Err(err("Third operand must be condition")); } };
            c = self.indent();
            push_str(&mut c, "let cr_a = ");
            push_cr_field(&mut c, ba);
            push_str(&mut c, ";\n");
            push_indent(&mut c, self.indent_level);
            push_str(&mut c, "let cr_b = ");
            push_cr_field(&mut c, bb);
            push_str(&mut c, ";\n");
            push_indent(&mut c, self.indent_level);
            let ext = (inst.raw >> 1) & 0x3FF;
            let ghost before = c@;
            if ext == 225 || ext == 33 || ext == 289 {
                push_str(&mut c, "let cr_result = !(");
                push_cr_field(&mut c, ba);
                push_str(&mut c, if ext == 225 { " & " } else if ext == 33 { " | " } else { " ^ " });
                push_cr_field(&mut c, bb);
                push_str(&mut c, ");\n");
            } else if ext == 129 || ext == 417 {
                push_str(&mut c, "let cr_result = ");
                push_cr_field(&mut c, ba);
                push_str(&mut c, if ext == 129 { " & !" } else { " | !" });
                push_cr_field(&mut c, bb);
                push_str(&mut c, ";\n");
            } else {
                push_str(&mut c, "let cr_result = ");
                push_cr_field(&mut c, ba);
                push_str(&mut c, if ext == 449 { " | " } else if ext == 193 { " ^ " } else { " & " });
                push_cr_field(&mut c, bb);
                push_str(&mut c, ";\n");
            }
            assert(c@ =~= before + cr_result_line(ext, ba, bb));
            push_indent(&mut c, self.indent_level);
            push_str(&mut c, "ctx.set_cr_field(");
            push_dec(&mut c, (bt / 4) as u64);
            push_str(&mut c, ", cr_result);\n");
        }
        assert(Some(c@) =~= gen_condition_register(self.level(), *inst));
        Ok(c)
    }
}

/// Appends the effective address `(RA|0) + D` of a floating-point load or store.
fn push_fp_ea(s: &mut String, raw: u32)
    ensures
        final(s)@ == old(s)@ + fp_ea(raw),
{
    let ghost s0 = s@;
    let ra = (raw >> 16) & 0x1F;
    let d = (raw & 0xFFFF) as i16 as i32;
    if ra == 0 {
        push_dec(s, (d as u32) as u64);
        push_str(s, "u32");
    } else {
        push_get_reg(s, ra as u64);
        push_str(s, ".wrapping_add(");
        push_idec(s, d as i64);
        push_str(s, "i32 as u32)");
    }
    assert(s@ =~= s0 + fp_ea(raw));
}

/// Appends the expression of an extended floating-point arithmetic op.
#[verifier::rlimit(40)]
fn push_fp_arith_expr(s: &mut String, raw: u32)
    ensures
        final(s)@ == old(s)@ + fp_arith_expr(raw),
{
    let ghost s0 = s@;
    let ra = (raw >> 16) & 0x1F;
    let frb = (raw >> 11) & 0x1F;
    let frc = (raw >> 6) & 0x1F;
    let a_form = (raw >> 1) & 0x1F;
    let x_form = (raw >> 1) & 0x3FF;
    if a_form == 21 || a_form == 20 || a_form == 18 {
        push_get_fpr(s, ra);
        push_str(s, if a_form == 21 { " + " } else if a_form == 20 { " - " } else { " / " });
        push_get_fpr(s, frb);
    } else if a_form == 25 {
        push_get_fpr(s, ra);
        push_str(s, " * ");
        push_get_fpr(s, frc);
    } else if a_form == 29 || a_form == 28 {
        push_get_fpr(s, ra);
        push_str(s, " * ");
        push_get_fpr(s, frc);
        push_str(s, if a_form == 29 { " + " } else { " - " });
        push_get_fpr(s, frb);
    } else if a_form == 31 || a_form == 30 {
        push_str(s, "-(");
        push_get_fpr(s, ra);
        push_str(s, " * ");
        push_get_fpr(s, frc);
        push_str(s, if a_form == 31 { " + " } else { " - " });
        push_get_fpr(s, frb);
        push_str(s, ")");
    } else if x_form == 40 || x_form == 136 {
        push_str(s, "-");
        push_get_fpr(s, frb);
        if x_form == 136 {
            push_str(s, ".abs()");
        }
    } else {
        push_get_fpr(s, frb);
        if x_form == 264 {
            push_str(s, ".abs()");
        } else if x_form == 12 {
            push_str(s, " as f32 as f64");
        }
    }
    assert(s@ =~= s0 + fp_arith_expr(raw));
}

impl CodeGenerator {
    /// Code for a floating-point instruction, decoded from the raw word:
    /// single/double loads and stores, compares into a CR field, and the
    /// arithmetic ops; other forms copy FRB.
    fn generate_floating_point(&self, inst: &DecodedInstruction) -> (r: Result<String, CodegenError>)
        ensures
            r matches Ok(s) && s@ == gen_floating_point(self.level(), *inst),
    {
        let raw = inst.raw;
        let primary = raw >> 26;
        let frt = (raw >> 21) & 0x1F;
        let ra = (raw >> 16) & 0x1F;
        let frb = (raw >> 11) & 0x1F;
        let mut c = self.indent();
        if primary == 48 || primary == 49 {
            push_str(&mut c, "{ let v = f32::from_bits(memory.read_u32(");
            push_fp_ea(&mut c, raw);
            push_str(&mut c, ").unwrap_or(0)); ctx.set_fpr(");
            push_dec(&mut c, frt as u64);
            push_str(&mut c, ", v as f64); }\n");
        } else if primary == 50 || primary == 51 {
            push_str(&mut c, "ctx.set_fpr(");
            push_dec(&mut c, frt as u64);
            push_str(&mut c, ", f64::from_bits(memory.read_u64(");
            push_fp_ea(&mut c, raw);
            push_str(&mut c, ").unwrap_or(0)));\n");
        } else if primary == 52 || primary == 53 {
            push_str(&mut c, "memory.write_u32(");
            push_fp_ea(&mut c, raw);
            push_str(&mut c, ", (");
            push_get_fpr(&mut c, frt);
            push_str(&mut c, " as f32).to_bits()).unwrap_or(());\n");
        } else if primary == 54 || primary == 55 {
            push_str(&mut c, "memory.write_u64(");
            push_fp_ea(&mut c, raw);
            push_str(&mut c, ", ");
            push_get_fpr(&mut c, frt);
            push_str(&mut c, ".to_bits()).unwrap_or(());\n");
        } else if primary == 4 || primary == 59 || primary == 63 {
            let x_form = (raw >> 1) & 0x3FF;
            if x_form == 0 || x_form == 32 {
                push_str(&mut c, "{ let a = ");
                push_get_fpr(&mut c, ra);
                push_str(&mut c, "; let b = ");
                push_get_fpr(&mut c, frb);
                push_str(&mut c, "; ctx.set_cr_field(");
                push_dec(&mut c, ((raw >> 23) & 0x7) as u64);
                push_str(&mut c, ", if a < b { 0x8u8 } else if a > b { 0x4u8 } else { 0x2u8 }); }\n");
            } else {
                push_str(&mut c, "ctx.set_fpr(");
                push_dec(&mut c, frt as u64);
                push_str(&mut c, ", ");
                push_fp_arith_expr(&mut c, raw);
                push_str(&mut c, ");\n");
            }
        } else {
            push_str(&mut c, "ctx.set_fpr(");
            push_dec(&mut c, frt as u64);
            push_str(&mut c, ", ");
            push_get_fpr(&mut c, frb);
            push_str(&mut c, ");\n");
        }
        assert(c@ =~= gen_floating_point(self.level(), *inst));
        Ok(c)
    }

    /// Code for a compare: signed for all forms but `cmplwi`; the CR field gets
    /// LT (0x8), GT (0x4) or EQ (0x2).
    fn generate_compare(&self, inst: &DecodedInstruction) -> (r: Result<String, CodegenError>)
        requires
            self.level() < usize::MAX,
        ensures
            match r {
                Ok(s) => gen_compare(self.level(), *inst) == Some(s@),
                Err(_) => gen_compare(self.level(), *inst) is None,
            },
    {
        let ops = &inst.instruction.operands;
        if ops.len() < 2 {
            return Err(err("Compare instruction requires at least 2 operands"));
        }
        let bf: u8 = match ops[0] { Operand::Condition(x) => x, _ => 0 };
        let ra = match ops[1] { Operand::Register(r) => r, _ => { return Err(err("Second operand must be a register")); } };
        let mut value = String::new();
        if ops.len() > 2 {
            match ops[2] {
                Operand::Register(rb) => push_get_reg(&mut value, rb as u64),
                Operand::Immediate(i) => {
                    push_idec(&mut value, i as i64);
                    push_str(&mut value, "i32");
                },
                _ => push_str(&mut value, "0i32"),
            }
        } else {
            push_str(&mut value, "0i32");
        }
        let ty = if inst.instruction.opcode == 10 { "u32" } else { "i32" };
        let k = self.indent_level;
        let mut c = self.indent();
        push_str(&mut c, "let ra_val = ");
        push_get_reg(&mut c, ra as u64);
        push_str(&mut c, " as ");
        push_str(&mut c, ty);
        push_str(&mut c, ";\n");
        push_indent(&mut c, k);
        push_str(&mut c, "let rb_val = ");
        push_string(&mut c, &value);
        push_str(&mut c, " as ");
        push_str(&mut c, ty);
        push_str(&mut c, ";\n");
        push_indent(&mut c, k);
        push_str(&mut c, "let cr_field = if ra_val < rb_val {\n");
        push_indent(&mut c, k + 1);
        push_str(&mut c, "0x8u8 // Less than\n");
        push_indent(&mut c, k);
        push_str(&mut c, "} else if ra_val > rb_val {\n");
        push_indent(&mut c, k + 1);
        push_str(&mut c, "0x4u8 // Greater than\n");
        push_indent(&mut c, k);
        push_str(&mut c, "} else {\n");
        push_indent(&mut c, k + 1);
        push_str(&mut c, "0x2u8 // Equal\n");
        push_indent(&mut c, k);
        push_str(&mut c, "};\n");
        push_indent(&mut c, k);
        push_str(&mut c, "ctx.set_cr_field(");
        push_dec(&mut c, bf as u64);
        push_str(&mut c, ", cr_field);\n");
        assert(Some(c@) =~= gen_compare(self.level(), *inst));
        Ok(c)
    }

    /// What is known of register `reg` (nothing until it has been written).
    fn get_register_value(&self, reg: u8) -> (r: Option<RegisterValue>)
        requires
            self.wf(),
        ensures
            r == self.register_values@[reg as int],
            !(r matches Some(RegisterValue::Constant(_))),
    {
        let v = self.register_values[reg as usize];
        assert(!(self.register_values@[reg as int] matches Some(RegisterValue::Constant(_))));
        v
    }

    /// Records what is known of register `reg`.
    fn set_register_value(&mut self, reg: u8, value: RegisterValue)
        requires
            old(self).wf(),
            value == RegisterValue::Unknown,
        ensures
            final(self).wf(),
            final(self).register_values@ == old(self).register_values@.update(reg as int, Some(value)),
            final(self).level() == old(self).level(),
            final(self).optimizing() == old(self).optimizing(),
            final(self).calls() == old(self).calls(),
    {
        self.register_values.set(reg as usize, Some(value));
    }

    /// Code for a load of a word from `RA + offset` into RT.
    fn generate_load(&mut self, inst: &DecodedInstruction) -> (r: Result<String, CodegenError>)
        requires
            old(self).wf(),
        ensures
            final(self).wf(),
            final(self).level() == old(self).level(),
            final(self).optimizing() == old(self).optimizing(),
            final(self).calls() == old(self).calls(),
            match r {
                Ok(s) => gen_load(old(self).level(), *inst) == Some(s@),
                Err(_) => gen_load(old(self).level(), *inst) is None,
            },
    {
        let ops = &inst.instruction.operands;
        if ops.len() < 3 {
            return Err(err("Load instruction requires 3 operands"));
        }
        let rt = match ops[0] { Operand::Register(r) => r, _ => { return Err(err("First operand must be a register")); } };
        let ra = match ops[1] { Operand::Register(r) => r, _ => { return Err(err("Second operand must be a register")); } };
        let offset: i32 = match ops[2] { Operand::Immediate(i) => i as i32, _ => 0 };
        let k = self.indent_level;
        let mut c = self.indent();
        match self.get_register_value(ra) {
            Some(RegisterValue::Constant(base)) => {
                let addr = base.wrapping_add(offset as u32);
                push_str(&mut c, "let value = memory.read_u32(0x");
                push_hex8(&mut c, addr);
                push_str(&mut c, "u32).unwrap_or(0u32); // Optimized: constant address\n");
            },
            _ => {
                push_str(&mut c, "let addr = ");
                push_get_reg(&mut c, ra as u64);
                push_str(&mut c, " as u32 + ");
                push_idec(&mut c, offset as i64);
                push_str(&mut c, "i32 as u32;\n");
                push_indent(&mut c, k);
                push_str(&mut c, "let value = memory.read_u32(addr).unwrap_or(0u32);\n");
            },
        }
        push_indent(&mut c, k);
        push_str(&mut c, "ctx.set_register(");
        push_dec(&mut c, rt as u64);
        push_str(&mut c, ", value);\n");
        self.set_register_value(rt, RegisterValue::Unknown);
        assert(Some(c@) =~= gen_load(old(self).level(), *inst));
        Ok(c)
    }

    /// Code for a store of RS (or a known constant) to `RA + offset`.
    fn generate_store(&self, inst: &DecodedInstruction) -> (r: Result<String, CodegenError>)
        requires
            self.wf(),
        ensures
            match r {
                Ok(s) => gen_store(self.level(), *inst) == Some(s@),
                Err(_) => gen_store(self.level(), *inst) is None,
            },
    {
        let ops = &inst.instruction.operands;
        if ops.len() < 3 {
            return Err(err("Store instruction requires 3 operands"));
        }
        let rs = match ops[0] { Operand::Register(r) => r, _ => { return Err(err("First operand must be a register")); } };
        let ra = match ops[1] { Operand::Register(r) => r, _ => { return Err(err("Second operand must be a register")); } };
        let offset: i32 = match ops[2] { Operand::Immediate(i) => i as i32, _ => 0 };
        let mut value = String::new();
        match self.get_register_value(rs) {
            Some(RegisterValue::Constant(v)) => {
                push_dec(&mut value, v as u64);
                push_str(&mut value, "u32");
            },
            _ => push_get_reg(&mut value, rs as u64),
        }
        let k = self.indent_level;
        let mut c = self.indent();
        match self.get_register_value(ra) {
            Some(RegisterValue::Constant(base)) => {
                let addr = base.wrapping_add(offset as u32);
                push_str(&mut c, "memory.write_u32(0x");
                push_hex8(&mut c, addr);
                push_str(&mut c, "u32, ");
                push_string(&mut c, &value);
                push_str(&mut c, ").unwrap_or(()); // Optimized: constant address\n");
            },
            _ => {
                push_str(&mut c, "let addr = ");
                push_get_reg(&mut c, ra as u64);
                push_str(&mut c, " as u32 + ");
                push_idec(&mut c, offset as i64);
                push_str(&mut c, "i32 as u32;\n");
                push_indent(&mut c, k);
                push_str(&mut c, "memory.write_u32(addr, ");
                push_string(&mut c, &value);
                push_str(&mut c, ").unwrap_or(());\n");
            },
        }
        assert(Some(c@) =~= gen_store(self.level(), *inst));
        Ok(c)
    }
}

fn arith_op_exec(opcode: u32, raw: u32) -> (r: (ArithOp, bool))
    ensures
        r == arith_op(opcode, raw),
{
    if opcode == 7 { (ArithOp::Mul, false) }
    else if opcode == 8 { (ArithOp::ReverseSub, false) }
    else if opcode == 12 { (ArithOp::Add, false) }
    else if opcode == 13 { (ArithOp::Add, true) }
    else if opcode == 14 || opcode == 15 { (ArithOp::Add, false) }
    else if opcode == 31 {
        let ext = (raw >> 1) & 0x3FF;
        if ext == 266 || ext == 10 { (ArithOp::Add, false) }
        else if ext == 40 { (ArithOp::ReverseSub, false) }
        else if ext == 28 { (ArithOp::And, false) }
        else if ext == 444 { (ArithOp::Or, false) }
        else if ext == 316 { (ArithOp::Xor, false) }
        else if ext == 235 || ext == 75 || ext == 233 { (ArithOp::Mul, false) }
        else if ext == 459 || ext == 491 || ext == 104 { (ArithOp::Div, false) }
        else if ext == 536 || ext == 792 { (ArithOp::Shr, false) }
        else if ext == 24 { (ArithOp::Shl, false) }
        else { (ArithOp::Add, false) }
    } else { (ArithOp::Add, false) }
}

/// Appends the expression computing `a OP b`.
fn push_op_expr(s: &mut String, op: ArithOp, a: &String, b: &String)
    ensures
        final(s)@ == old(s)@ + op_expr(op, a@, b@),
{
    let ghost s0 = s@;
    match op {
        ArithOp::ReverseSub => {
            push_str(s, "(");
            push_string(s, b);
            push_str(s, ").wrapping_sub(");
            push_string(s, a);
            push_str(s, ")");
        },
        ArithOp::And | ArithOp::Or | ArithOp::Xor => {
            push_string(s, a);
            push_str(s, match op { ArithOp::And => " & ", ArithOp::Or => " | ", _ => " ^ " });
            push_string(s, b);
        },
        _ => {
            push_string(s, a);
            push_str(s, match op {
                ArithOp::Shl => ".wrapping_shl(",
                ArithOp::Shr => ".wrapping_shr(",
                ArithOp::Div => ".checked_div(",
                ArithOp::Add => ".wrapping_add(",
                ArithOp::Sub => ".wrapping_sub(",
                _ => ".wrapping_mul(",
            });
            push_string(s, b);
            push_str(s, if op == ArithOp::Div { ").unwrap_or(0)" } else { ")" });
        },
    }
    assert(s@ =~= s0 + op_expr(op, a@, b@));
}

/// The value `a OP b` computed at generation time.
fn fold_constant(op: ArithOp, a: u32, b: u32) -> (r: u32)
    ensures
        r == folded(op, a, b),
{
    let sh = b & 31;
    assert(sh < 32 && sh == b % 32) by (bit_vector)
        requires
            sh == b & 31,
    ;
    proof {
        let m: int = 0x1_0000_0000;
        assert(((a + b) % m) as u32 == vstd::wrapping::u32_specs::wrapping_add(a, b)) by {
            if a + b > u32::MAX {
                vstd::arithmetic::div_mod::lemma_fundamental_div_mod_converse(a + b, m, 1, a + b - m);
            } else {
                vstd::arithmetic::div_mod::lemma_small_mod((a + b) as nat, m as nat);
            }
        }
        assert(((a - b) % m) as u32 == vstd::wrapping::u32_specs::wrapping_sub(a, b)) by {
            if a - b < 0 {
                vstd::arithmetic::div_mod::lemma_fundamental_div_mod_converse(a - b, m, -1, a - b + m);
            } else {
                vstd::arithmetic::div_mod::lemma_small_mod((a - b) as nat, m as nat);
            }
        }
        assert(((b - a) % m) as u32 == vstd::wrapping::u32_specs::wrapping_sub(b, a)) by {
            if b - a < 0 {
                vstd::arithmetic::div_mod::lemma_fundamental_div_mod_converse(b - a, m, -1, b - a + m);
            } else {
                vstd::arithmetic::div_mod::lemma_small_mod((b - a) as nat, m as nat);
            }
        }
    }
    match op {
        ArithOp::Add => a.wrapping_add(b),
        ArithOp::Sub => a.wrapping_sub(b),
        ArithOp::ReverseSub => b.wrapping_sub(a),
        ArithOp::Mul => a.wrapping_mul(b),
        ArithOp::Div => match a.checked_div(b) { Some(q) => q, None => 0 },
        ArithOp::And => a & b,
        ArithOp::Or => a | b,
        ArithOp::Xor => a ^ b,
        ArithOp::Shl => a << sh,
        ArithOp::Shr => a >> sh,
    }
}

impl CodeGenerator {
    /// Code for an integer arithmetic or logical instruction. Unary opcode-31
    /// forms (cntlzw, extsh, extsb) are decoded from the raw word; the others
    /// compute `rt = ra OP rb|imm` with wrapping arithmetic and a division that
    /// cannot panic, and `addic.` also sets CR0.
    fn generate_arithmetic(&mut self, inst: &DecodedInstruction) -> (r: Result<String, CodegenError>)
        requires
            old(self).wf(),
        ensures
            final(self).wf(),
            final(self).level() == old(self).level(),
            final(self).optimizing() == old(self).optimizing(),
            final(self).calls() == old(self).calls(),
            match r {
                Ok(s) => gen_arithmetic(old(self).level(), *inst) == Some(s@),
                Err(_) => gen_arithmetic(old(self).level(), *inst) is None,
            },
    {
        let raw = inst.raw;
        let k = self.indent_level;
        if inst.instruction.opcode == 31 {
            let ext = (raw >> 1) & 0x3FF;
            let rs = (raw >> 21) & 0x1F;
            let ra = (raw >> 16) & 0x1F;
            if ext == 26 || ext == 922 || ext == 954 {
                let mut c = self.indent();
                push_str(&mut c, "ctx.set_register(");
                push_dec(&mut c, ra as u64);
                push_str(&mut c, ", ");
                push_get_reg(&mut c, rs as u64);
                push_str(&mut c, if ext == 26 { ".leading_zeros()" } else if ext == 922 { " as i16 as i32 as u32" } else { " as i8 as i32 as u32" });
                push_str(&mut c, ");\n");
                assert(Some(c@) =~= gen_arithmetic(old(self).level(), *inst));
                return Ok(c);
            }
        }
        let ops = &inst.instruction.operands;
        if ops.len() < 2 {
            return Err(err("Arithmetic instruction requires at least 2 operands"));
        }
        let rt = match ops[0] { Operand::Register(r) => r, _ => { return Err(err("First operand must be a register")); } };
        let ra = match ops[1] { Operand::Register(r) => r, _ => { return Err(err("Second operand must be a register")); } };
        let (op, update_cr) = arith_op_exec(inst.instruction.opcode, raw);
        let mut rb_expr = String::new();
        let rb_value: Option<RegisterValue> = if ops.len() > 2 {
            match ops[2] {
                Operand::Register(r) => {
                    push_get_reg(&mut rb_expr, r as u64);
                    self.get_register_value(r)
                },
                Operand::Immediate(i) => {
                    let val = i as u32;
                    push_dec(&mut rb_expr, val as u64);
                    push_str(&mut rb_expr, "u32");
                    Some(RegisterValue::Constant(val))
                },
                Operand::Immediate32(i) => {
                    let val = i as u32;
                    push_dec(&mut rb_expr, val as u64);
                    push_str(&mut rb_expr, "u32");
                    Some(RegisterValue::Constant(val))
                },
                _ => {
                    push_str(&mut rb_expr, "0u32");
                    Some(RegisterValue::Constant(0))
                },
            }
        } else {
            push_str(&mut rb_expr, "0u32");
            Some(RegisterValue::Constant(0))
        };
        assert(rb_expr@ =~= arith_rb(ops@));
        let mut ra_get = String::new();
        push_get_reg(&mut ra_get, ra as u64);
        let ra_value = self.get_register_value(ra);
        let mut c = self.indent();
        match (ra_value, rb_value) {
            (Some(RegisterValue::Constant(a)), Some(RegisterValue::Constant(b))) => {
                let result = fold_constant(op, a, b);
                push_str(&mut c, "ctx.set_register(");
                push_dec(&mut c, rt as u64);
                push_str(&mut c, ", ");
                push_dec(&mut c, result as u64);
                push_str(&mut c, "u32); // Optimized: constant folding\n");
            },
            _ => {
                push_str(&mut c, "ctx.set_register(");
                push_dec(&mut c, rt as u64);
                push_str(&mut c, ", ");
                push_op_expr(&mut c, op, &ra_get, &rb_expr);
                push_str(&mut c, ");\n");
                self.set_register_value(rt, RegisterValue::Unknown);
            },
        }
        if update_cr {
            push_indent(&mut c, k);
            push_str(&mut c, "let result = ctx.get_register(");
            push_dec(&mut c, rt as u64);
            push_str(&mut c, ");\n");
            push_indent(&mut c, k);
            push_str(&mut c, "let cr_field = if result == 0 { 0x2u8 } else if (result as i32) < 0 { 0x8u8 } else { 0x4u8 };\n");
            push_indent(&mut c, k);
            push_str(&mut c, "ctx.set_cr_field(0, cr_field);\n");
        }
        assert(Some(c@) =~= gen_arithmetic(old(self).level(), *inst));
        Ok(c)
    }

    /// Code for a branch that does not end its block: `bl` calls through the
    /// dispatcher and records the target; `b` stores the target in `pc` and
    /// returns; `bc` returns when its CR bit is set; others return.
    fn generate_branch(&mut self, inst: &DecodedInstruction) -> (r: Result<String, CodegenError>)
        requires
            old(self).wf(),
        ensures
            final(self).wf(),
            final(self).level() == old(self).level(),
            final(self).optimizing() == old(self).optimizing(),
            final(self).calls() == old(self).calls() + branch_calls(*inst),
            r matches Ok(s) && s@ == gen_branch(old(self).level(), *inst),
    {
        let raw = inst.raw;
        let primary = raw >> 26;
        let ops = &inst.instruction.operands;
        let k = self.indent_level;
        let mut c = self.indent();
        if primary == 18 {
            let li: i32 = if ops.len() == 0 {
                0
            } else {
                match ops[0] {
                    Operand::Immediate32(li) => li,
                    Operand::Address(a) => (a as i32) >> 2u32,
                    _ => 0,
                }
            };
            let disp = li.wrapping_mul(4);
            let target = if (raw >> 1) & 1 != 0 { disp as u32 } else { inst.address.wrapping_add(disp as u32) };
            assert(target == operand_branch_target(*inst));
            if raw & 1 != 0 {
                self.function_calls.push(target);
                push_str(&mut c, "ctx.lr = 0x");
                push_hex8(&mut c, inst.address.wrapping_add(4));
                push_str(&mut c, "u32;\n");
                push_indent(&mut c, k);
                push_str(&mut c, "if let Ok(Some(rv)) = call_function_by_address(0x");
                push_hex8(&mut c, target);
                push_str(&mut c, "u32, ctx, memory) { ctx.set_register(3, rv); }\n");
            } else {
                push_str(&mut c, "ctx.pc = 0x");
                push_hex8(&mut c, target);
                push_str(&mut c, "u32;\n");
                push_indent(&mut c, k);
                push_str(&mut c, "return Ok(Some(ctx.get_register(3)));");
                push_str(&mut c, "\n");
            }
        } else if primary == 16 {
            let bi: u8 = if ops.len() > 1 { match ops[1] { Operand::Condition(x) => x, _ => 0 } } else { 0 };
            push_str(&mut c, "if (ctx.get_cr_field(");
            push_dec(&mut c, (bi / 4) as u64);
            push_str(&mut c, ") >> ");
            push_dec(&mut c, (bi % 4) as u64);
            push_str(&mut c, ") & 1 != 0 { return Ok(Some(ctx.get_register(3))); }\n");
        } else {
            push_str(&mut c, "return Ok(Some(ctx.get_register(3)));");
            push_str(&mut c, "\n");
        }
        assert(c@ =~= gen_branch(old(self).level(), *inst));
        assert(self.function_calls@ =~= old(self).calls() + branch_calls(*inst));
        Ok(c)
    }

    /// Code for one instruction that does not end its block, by instruction class.
    fn generate_instruction(&mut self, inst: &DecodedInstruction) -> (r: Result<String, CodegenError>)
        requires
            old(self).wf(),
            old(self).level() < usize::MAX,
        ensures
            final(self).wf(),
            final(self).level() == old(self).level(),
            final(self).optimizing() == old(self).optimizing(),
            final(self).calls() == old(self).calls() + if inst.instruction.instruction_type == InstructionType::Branch {
                branch_calls(*inst)
            } else {
                Seq::<u32>::empty()
            },
            match r {
                Ok(s) => gen_instruction(old(self).level(), *inst) == Some(s@),
                Err(_) => gen_instruction(old(self).level(), *inst) is None,
            },
    {
        let r = match inst.instruction.instruction_type {
            InstructionType::Arithmetic => self.generate_arithmetic(inst),
            InstructionType::Load => self.generate_load(inst),
            InstructionType::Store => self.generate_store(inst),
            InstructionType::Branch => self.generate_branch(inst),
            InstructionType::Compare => self.generate_compare(inst),
            InstructionType::Move => self.generate_move(inst),
            InstructionType::System => self.generate_system(inst),
            InstructionType::FloatingPoint => self.generate_floating_point(inst),
            InstructionType::ConditionRegister => self.generate_condition_register(inst),
            InstructionType::Shift => self.generate_shift(inst),
            InstructionType::Rotate => self.generate_rotate(inst),
            InstructionType::Unknown => self.generate_generic(inst),
        };
        assert(self.function_calls@ =~= old(self).calls() + if inst.instruction.instruction_type == InstructionType::Branch {
            branch_calls(*inst)
        } else {
            Seq::<u32>::empty()
        });
        match r {
            Ok(code) => Ok(code),
            Err(e) => Err(e),
        }
    }
}

// ---------------------------------------------------------------- leader bookkeeping

/// `find_index` gives the first index holding `x`, or `None` when `x` is absent.
proof fn lemma_find_index(s: Seq<u32>, x: u32)
    ensures
        match find_index(s, x) {
            Some(i) => 0 <= i < s.len() && s[i] == x && forall|j: int| 0 <= j < i ==> s[j] != x,
            None => forall|j: int| 0 <= j < s.len() ==> s[j] != x,
        },
    decreases s.len(),
{
    if s.len() > 0 {
        lemma_find_index(s.drop_last(), x);
        assert forall|j: int| 0 <= j < s.len() - 1 implies s[j] == s.drop_last()[j] by {}
    }
}

/// In a sorted sequence whose first `i` elements lie below `x` and the rest do
/// not, `i` elements lie below `x`.
pub(crate) proof fn lemma_count_lt_split(s: Seq<u32>, x: u32, i: int)
    requires
        0 <= i <= s.len(),
        forall|j: int| 0 <= j < i ==> s[j] < x,
        forall|j: int| i <= j < s.len() ==> s[j] >= x,
    ensures
        count_lt(s, x) == i,
    decreases s.len(),
{
    if s.len() > 0 {
        if i == s.len() {
            lemma_count_lt_split(s.drop_last(), x, i - 1);
        } else {
            lemma_count_lt_split(s.drop_last(), x, i);
        }
    }
}

/// Count of elements at or below `x` extends by one element.
proof fn lemma_count_le_take(s: Seq<u32>, x: u32, i: int)
    requires
        0 <= i < s.len(),
    ensures
        count_le(s.take(i + 1), x) == count_le(s.take(i), x) + if s[i] <= x { 1nat } else { 0nat },
{
    assert(s.take(i + 1).drop_last() =~= s.take(i));
}

/// Number of leaders at or below `a`.
fn count_leaders_le(ls: &Vec<u32>, a: u32) -> (c: usize)
    ensures
        c == count_le(ls@, a),
{
    let mut c: usize = 0;
    for i in 0..ls.len()
        invariant
            c == count_le(ls@.take(i as int), a),
            c <= i,
    {
        proof {
            lemma_count_le_take(ls@, a, i as int);
        }
        if ls[i] <= a {
            c = c + 1;
        }
    }
    assert(ls@.take(ls@.len() as int) =~= ls@);
    c
}

/// The block an address belongs to.
fn block_of(ls: &Vec<u32>, a: u32) -> (b: usize)
    ensures
        b == block_of_addr(ls@, a),
{
    let c = count_leaders_le(ls, a);
    if c == 0 { 0 } else { c - 1 }
}

/// The block whose leader is `t`, if `t` is a leader.
fn leader_index(ls: &Vec<u32>, t: u32) -> (r: Option<usize>)
    ensures
        match r {
            Some(i) => find_index(ls@, t) == Some(i as int),
            None => find_index(ls@, t) is None,
        },
{
    proof {
        lemma_find_index(ls@, t);
    }
    let mut i: usize = 0;
    while i < ls.len()
        invariant
            i <= ls@.len(),
            forall|j: int| 0 <= j < i ==> ls@[j] != t,
        decreases ls@.len() - i,
    {
        if ls[i] == t {
            proof {
                lemma_find_index(ls@, t);
                match find_index(ls@, t) {
                    Some(k) => {
                        if k < i {
                            assert(ls@[k] == t);
                        } else if k > i {
                            assert(ls@[i as int] == t);
                        }
                    },
                    None => {
                        assert(ls@[i as int] == t);
                    },
                }
            }
            return Some(i);
        }
        i = i + 1;
    }
    None
}

/// Adds `x` to a strictly sorted vector, keeping it strictly sorted.
pub(crate) fn insert_leader(v: &mut Vec<u32>, x: u32)
    requires
        strictly_sorted(old(v)@),
    ensures
        final(v)@ == insert_sorted(old(v)@, x),
        strictly_sorted(final(v)@),
{
    let ghost s = v@;
    let mut i: usize = 0;
    while i < v.len() && v[i] < x
        invariant
            v@ == s,
            i <= s.len(),
            forall|j: int| 0 <= j < i ==> s[j] < x,
        decreases s.len() - i,
    {
        i = i + 1;
    }
    proof {
        assert forall|j: int| i <= j < s.len() implies s[j] >= x by {
            if j > i {
                assert(s[i as int] < s[j]);
            }
        }
        lemma_count_lt_split(s, x, i as int);
    }
    if i < v.len() && v[i] == x {
        assert(s.contains(x));
    } else {
        proof {
            assert forall|j: int| 0 <= j < s.len() implies s[j] != x by {
                if j >= i {
                    if j > i {
                        assert(s[i as int] < s[j]);
                    }
                }
            }
            assert(!s.contains(x));
        }
        v.insert(i, x);
        proof {
            let t = v@;
            assert(t == s.insert(i as int, x));
            assert forall|a: int, b: int| 0 <= a < b < t.len() implies t[a] < t[b] by {
                if b < i {
                } else if b == i {
                } else if a < i {
                    assert(t[b] == s[b - 1]);
                } else if a == i {
                    assert(t[b] == s[b - 1]);
                } else {
                    assert(t[a] == s[a - 1] && t[b] == s[b - 1]);
                }
            }
        }
    }
}

impl CodeGenerator {
    /// Static target of a relative `b` or `bc`; `None` for absolute branches
    /// and register branches (`blr`, `bctr`).
    fn branch_target(inst: &DecodedInstruction) -> (r: Option<u32>)
        ensures
            r == static_branch_target(*inst),
    {
        let raw = inst.raw;
        if (raw >> 1) & 1 != 0 {
            return None;
        }
        if raw >> 26 == 18 {
            Some(inst.address.wrapping_add(disp26(raw)))
        } else if raw >> 26 == 16 {
            Some(inst.address.wrapping_add(disp16(raw)))
        } else {
            None
        }
    }
}

/// Appends `__blk = N u32;` for the following block, or a return after the last one.
fn push_next(s: &mut String, cur: usize, n: usize)
    requires
        cur < n,
    ensures
        final(s)@ == old(s)@ + next_text(cur as nat, n as nat),
{
    let ghost s0 = s@;
    if cur + 1 < n {
        push_str(s, "__blk = ");
        push_dec(s, (cur + 1) as u64);
        push_str(s, "u32;");
    } else {
        push_str(s, "return Ok(Some(ctx.get_register(3)));");
    }
    assert(s@ =~= s0 + next_text(cur as nat, n as nat));
}

/// Appends the test of CR bit `bi` against the BO "true" bit.
fn push_cr_test(s: &mut String, bo: u32, bi: u32)
    requires
        bi < 32,
    ensures
        final(s)@ == old(s)@ + cr_test(bo, bi),
{
    let ghost s0 = s@;
    if bo & 0x10 != 0 {
        push_str(s, "true");
    } else {
        push_str(s, "((ctx.get_cr_field(");
        push_dec(s, (bi / 4) as u64);
        push_str(s, ") >> ");
        push_dec(s, (3 - bi % 4) as u64);
        push_str(s, ") & 1 != 0) == ");
        push_str(s, if bo & 0x08 != 0 { "true" } else { "false" });
    }
    assert(s@ =~= s0 + cr_test(bo, bi));
}

/// Appends the dispatcher call of `target` with LR set past `address`.
fn push_call(s: &mut String, address: u32, target: u32)
    ensures
        final(s)@ == old(s)@ + call_text(address, target),
{
    let ghost s0 = s@;
    push_str(s, "ctx.lr = 0x");
    push_hex8(s, address.wrapping_add(4));
    push_str(s, "u32; if let Ok(Some(rv)) = call_function_by_address(0x");
    push_hex8(s, target);
    push_str(s, "u32, ctx, memory) { ctx.set_register(3, rv); }");
    assert(s@ =~= s0 + call_text(address, target));
}

impl CodeGenerator {
    /// Code that ends block `cur` (of `n`) with the branch `inst`: a jump to
    /// the target block when it lies in this function, a dispatcher call for
    /// `bl`/`bctrl`/`blrl` and out-of-function targets, or a return.
    fn emit_terminator(&mut self, inst: &DecodedInstruction, cur: usize, n: usize, block_of: &Vec<u32>) -> (s: String)
        requires
            old(self).wf(),
            cur < n,
        ensures
            final(self).wf(),
            final(self).level() == old(self).level(),
            final(self).optimizing() == old(self).optimizing(),
            final(self).calls() == old(self).calls() + terminator_calls(*inst),
            s@ == gen_terminator(old(self).level(), *inst, cur as nat, n as nat, block_of@),
    {
        let raw = inst.raw;
        let primary = raw >> 26;
        let mut c = self.indent();
        if primary == 18 {
            let disp = disp26(raw);
            let target = if (raw >> 1) & 1 != 0 { disp } else { inst.address.wrapping_add(disp) };
            if raw & 1 != 0 {
                self.function_calls.push(target);
                push_call(&mut c, inst.address, target);
                push_str(&mut c, " ");
                push_next(&mut c, cur, n);
                push_str(&mut c, "\n");
            } else {
                match leader_index(block_of, target) {
                    Some(tb) => {
                        push_str(&mut c, "__blk = ");
                        push_dec(&mut c, tb as u64);
                        push_str(&mut c, "u32;\n");
                    },
                    None => {
                        push_call(&mut c, inst.address, target);
                        push_str(&mut c, " ");
                        push_str(&mut c, "return Ok(Some(ctx.get_register(3)));");
                        push_str(&mut c, "\n");
                    },
                }
            }
        } else if primary == 16 {
            let bo = (raw >> 21) & 0x1F;
            let bi = (raw >> 16) & 0x1F;
            assert(bi < 32) by (bit_vector)
                requires
                    bi == (raw >> 16) & 0x1F,
            ;
            let target = inst.address.wrapping_add(disp16(raw));
            let mut out = String::new();
            if bo & 0x04 == 0 {
                out = self.indent();
                push_str(&mut out, "ctx.ctr = ctx.ctr.wrapping_sub(1);\n");
            }
            push_string(&mut out, &c);
            push_str(&mut out, "if (");
            push_str(&mut out, if bo & 0x04 == 0 { if bo & 0x02 != 0 { "ctx.ctr == 0" } else { "ctx.ctr != 0" } } else { "true" });
            push_str(&mut out, ") && (");
            push_cr_test(&mut out, bo, bi);
            push_str(&mut out, ") { ");
            if (raw >> 1) & 1 == 0 {
                match leader_index(block_of, target) {
                    Some(tb) => {
                        push_str(&mut out, "__blk = ");
                        push_dec(&mut out, tb as u64);
                        push_str(&mut out, "u32;");
                    },
                    None => push_str(&mut out, "return Ok(Some(ctx.get_register(3)));"),
                }
            } else {
                push_str(&mut out, "return Ok(Some(ctx.get_register(3)));");
            }
            push_str(&mut out, " } else { ");
            push_next(&mut out, cur, n);
            push_str(&mut out, " }\n");
            c = out;
        } else if primary == 19 {
            let xo = (raw >> 1) & 0x3FF;
            let bo = (raw >> 21) & 0x1F;
            let bi = (raw >> 16) & 0x1F;
            assert(bi < 32) by (bit_vector)
                requires
                    bi == (raw >> 16) & 0x1F,
            ;
            let mut action = String::new();
            if xo == 528 {
                if raw & 1 != 0 {
                    push_str(&mut action, "ctx.lr = 0x");
                    push_hex8(&mut action, inst.address.wrapping_add(4));
                    push_str(&mut action, "u32; if let Ok(Some(rv)) = call_function_by_address(ctx.ctr, ctx, memory) { ctx.set_register(3, rv); } ");
                    push_next(&mut action, cur, n);
                } else {
                    push_str(&mut action, "if let Ok(Some(rv)) = call_function_by_address(ctx.ctr, ctx, memory) { ctx.set_register(3, rv); } return Ok(Some(ctx.get_register(3)));");
                }
            } else if raw & 1 != 0 {
                push_str(&mut action, "{ let __t = ctx.lr; ctx.lr = 0x");
                push_hex8(&mut action, inst.address.wrapping_add(4));
                push_str(&mut action, "u32; if let Ok(Some(rv)) = call_function_by_address(__t, ctx, memory) { ctx.set_register(3, rv); } } ");
                push_next(&mut action, cur, n);
            } else {
                push_str(&mut action, "return Ok(Some(ctx.get_register(3)));");
            }
            if bo & 0x10 != 0 {
                push_string(&mut c, &action);
                push_str(&mut c, "\n");
            } else {
                push_str(&mut c, "if ");
                push_cr_test(&mut c, bo, bi);
                push_str(&mut c, " { ");
                push_string(&mut c, &action);
                push_str(&mut c, " } else { ");
                push_next(&mut c, cur, n);
                push_str(&mut c, " }\n");
            }
        } else {
            push_str(&mut c, "return Ok(Some(ctx.get_register(3)));");
            push_str(&mut c, "\n");
        }
        assert(c@ =~= gen_terminator(old(self).level(), *inst, cur as nat, n as nat, block_of@));
        assert(self.function_calls@ =~= old(self).calls() + terminator_calls(*inst));
        c
    }
}

/// The sorted block leaders of a non-empty instruction list.
fn compute_leaders(insts: &[DecodedInstruction]) -> (ls: Vec<u32>)
    requires
        insts@.len() > 0,
    ensures
        ls@ == leaders(insts@),
        strictly_sorted(ls@),
        ls@.len() > 0,
{
    let lo = insts[0].address;
    let hi = insts[insts.len() - 1].address.wrapping_add(4);
    let mut ls: Vec<u32> = Vec::new();
    ls.push(lo);
    for i in 0..insts.len()
        invariant
            lo == insts@[0].address,
            hi == insts@.last().address.wrapping_add(4),
            ls@ == leaders_upto(insts@, lo, hi, i as nat),
            strictly_sorted(ls@),
    {
        let inst = &insts[i];
        if inst.instruction.instruction_type == InstructionType::Branch {
            let after = inst.address.wrapping_add(4);
            if lo <= after && after < hi {
                insert_leader(&mut ls, after);
            }
            match CodeGenerator::branch_target(inst) {
                Some(t) => {
                    if lo <= t && t < hi {
                        insert_leader(&mut ls, t);
                    }
                },
                None => {},
            }
        }
    }
    proof {
        lemma_leaders_nonempty(insts@, lo, hi, insts@.len());
    }
    ls
}

/// Leader sequences never become empty.
proof fn lemma_leaders_nonempty(insts: Seq<DecodedInstruction>, lo: u32, hi: u32, i: nat)
    requires
        i <= insts.len(),
    ensures
        leaders_upto(insts, lo, hi, i).len() > 0,
    decreases i,
{
    if i > 0 {
        lemma_leaders_nonempty(insts, lo, hi, (i - 1) as nat);
        let prev = leaders_upto(insts, lo, hi, (i - 1) as nat);
        assert forall|s: Seq<u32>, x: u32| s.len() > 0 implies #[trigger] insert_sorted(s, x).len() > 0 by {}
    }
}

/// The block of every instruction.
fn block_indices(insts: &[DecodedInstruction], ls: &Vec<u32>) -> (b: Vec<usize>)
    ensures
        b@.len() == insts@.len(),
        forall|j: int| 0 <= j < insts@.len() ==> b@[j] == block_of_addr(ls@, #[trigger] insts@[j].address),
{
    let mut b: Vec<usize> = Vec::new();
    for j in 0..insts.len()
        invariant
            b@.len() == j,
            forall|q: int| 0 <= q < j ==> b@[q] == block_of_addr(ls@, #[trigger] insts@[q].address),
    {
        b.push(block_of(ls, insts[j].address));
    }
    b
}

/// The last instruction of block `blk`, if it has any.
fn last_of_block(insts: &[DecodedInstruction], ls: &Vec<u32>, bidx: &Vec<usize>, blk: usize) -> (r: Option<usize>)
    requires
        bidx@.len() == insts@.len(),
        forall|j: int| 0 <= j < insts@.len() ==> bidx@[j] == block_of_addr(ls@, #[trigger] insts@[j].address),
    ensures
        match r {
            Some(j) => last_in_block(insts@, ls@, blk as int, insts@.len()) == Some(j as int) && j < insts@.len(),
            None => last_in_block(insts@, ls@, blk as int, insts@.len()) is None,
        },
{
    let mut last: Option<usize> = None;
    for j in 0..insts.len()
        invariant
            bidx@.len() == insts@.len(),
            forall|q: int| 0 <= q < insts@.len() ==> bidx@[q] == block_of_addr(ls@, #[trigger] insts@[q].address),
            match last {
                Some(q) => last_in_block(insts@, ls@, blk as int, j as nat) == Some(q as int) && q < j,
                None => last_in_block(insts@, ls@, blk as int, j as nat) is None,
            },
    {
        assert(bidx@[j as int] == block_of_addr(ls@, insts@[j as int].address));
        if bidx[j] == blk {
            last = Some(j);
        }
    }
    last
}

impl CodeGenerator {
    /// Code of instruction `j` of block `blk`: its terminator when it is the
    /// block's last instruction and a branch, its translation otherwise, and a
    /// comment when it cannot be translated.
    fn emit_block_member(
        &mut self,
        code: &mut String,
        insts: &[DecodedInstruction],
        ls: &Vec<u32>,
        j: usize,
        blk: usize,
        n: usize,
        last: Option<usize>,
        ind: &String,
    )
        requires
            old(self).wf(),
            old(self).level() < usize::MAX,
            blk < n,
            j < insts@.len(),
            ind@ == indent(old(self).level()),
            match last {
                Some(q) => last_in_block(insts@, ls@, blk as int, insts@.len()) == Some(q as int),
                None => last_in_block(insts@, ls@, blk as int, insts@.len()) is None,
            },
        ensures
            final(self).wf(),
            final(self).level() == old(self).level(),
            final(self).optimizing() == old(self).optimizing(),
            final(self).calls() == old(self).calls() + block_member_calls(insts@, ls@, blk as nat, j as int),
            final(code)@ == old(code)@ + gen_block_member(old(self).level(), insts@, ls@, blk as nat, n as nat, j as int),
    {
        let inst = &insts[j];
        let is_branch = inst.instruction.instruction_type == InstructionType::Branch;
        let is_last = match last { Some(q) => q == j, None => false };
        if is_last && is_branch {
            let t = self.emit_terminator(inst, blk, n, ls);
            push_string(code, &t);
        } else {
            match self.generate_instruction(inst) {
                Ok(c) => push_string(code, &c),
                Err(_) => {
                    push_string(code, ind);
                    push_str(code, "// untranslated 0x");
                    push_hex8(code, inst.raw);
                    push_str(code, "\n");
                },
            }
        }
        assert(code@ =~= old(code)@ + gen_block_member(old(self).level(), insts@, ls@, blk as nat, n as nat, j as int));
        assert(self.calls() =~= old(self).calls() + block_member_calls(insts@, ls@, blk as nat, j as int));
    }
}

impl CodeGenerator {
    /// One `N u32 => { ... }` arm of the block dispatch.
    #[verifier::spinoff_prover]
    #[verifier::rlimit(80)]
    fn emit_block(
        &mut self,
        code: &mut String,
        insts: &[DecodedInstruction],
        ls: &Vec<u32>,
        bidx: &Vec<usize>,
        blk: usize,
        n: usize,
    )
        requires
            old(self).wf(),
            old(self).level() < usize::MAX,
            blk < n,
            bidx@.len() == insts@.len(),
            forall|j: int| 0 <= j < insts@.len() ==> bidx@[j] == block_of_addr(ls@, #[trigger] insts@[j].address),
        ensures
            final(self).wf(),
            final(self).level() == old(self).level(),
            final(self).optimizing() == old(self).optimizing(),
            final(self).calls() == old(self).calls() + block_members_calls(insts@, ls@, blk as nat, insts@.len()),
            final(code)@ == old(code)@ + gen_block(old(self).level(), insts@, ls@, blk as nat, n as nat),
    {
        let ghost k = self.level();
        let ghost code0 = code@;
        let ghost calls0 = self.calls();
        let last = last_of_block(insts, ls, bidx, blk);
        let ind = self.indent();
        push_string(code, &ind);
        push_dec(code, blk as u64);
        push_str(code, "u32 => {\n");
        let ghost header = code@;
        for j in 0..insts.len()
            invariant
                self.wf(),
                self.level() == k,
                self.optimizing() == old(self).optimizing(),
                k < usize::MAX,
                ind@ == indent(k),
                blk < n,
                bidx@.len() == insts@.len(),
                forall|q: int| 0 <= q < insts@.len() ==> bidx@[q] == block_of_addr(ls@, #[trigger] insts@[q].address),
                match last {
                    Some(q) => last_in_block(insts@, ls@, blk as int, insts@.len()) == Some(q as int),
                    None => last_in_block(insts@, ls@, blk as int, insts@.len()) is None,
                },
                code@ == header + gen_block_members(k, insts@, ls@, blk as nat, n as nat, j as nat),
                self.calls() == calls0 + block_members_calls(insts@, ls@, blk as nat, j as nat),
        {
            assert(bidx@[j as int] == block_of_addr(ls@, insts@[j as int].address));
            let ghost before = code@;
            let ghost calls_before = self.calls();
            if bidx[j] == blk {
                self.emit_block_member(code, insts, ls, j, blk, n, last, &ind);
            }
            assert(code@ =~= header + gen_block_members(k, insts@, ls@, blk as nat, n as nat, (j + 1) as nat));
            assert(self.calls() =~= calls0 + block_members_calls(insts@, ls@, blk as nat, (j + 1) as nat));
        }
        let terminated = match last {
            Some(q) => insts[q].instruction.instruction_type == InstructionType::Branch,
            None => false,
        };
        let ghost members = code@;
        if !terminated {
            push_string(code, &ind);
            if blk + 1 < n {
                push_str(code, "__blk = ");
                push_dec(code, (blk + 1) as u64);
                push_str(code, "u32;\n");
            } else {
                push_str(code, "return Ok(Some(ctx.get_register(3)));");
                push_str(code, "\n");
            }
        }
        push_string(code, &ind);
        push_str(code, "}\n");
        assert(code@ =~= code0 + gen_block(k, insts@, ls@, blk as nat, n as nat));
    }

    /// The body of a generated function: a state machine over basic blocks
    /// (`let mut __blk = 0; loop { match __blk { ... } }`), guarded by a step
    /// budget so a spinning loop returns.
    fn generate_function_body(&mut self, instructions: &[DecodedInstruction]) -> (r: Result<String, CodegenError>)
        requires
            old(self).wf(),
            old(self).level() < usize::MAX,
        ensures
            final(self).wf(),
            final(self).level() == old(self).level(),
            final(self).optimizing() == old(self).optimizing(),
            final(self).calls() == old(self).calls() + body_calls(instructions@),
            r matches Ok(s) && s@ == gen_body(old(self).level(), instructions@),
    {
        let ghost k = self.level();
        let ind = self.indent();
        if instructions.len() == 0 {
            let mut c = String::new();
            push_string(&mut c, &ind);
            push_str(&mut c, "Ok(Some(ctx.get_register(3)))\n");
            assert(c@ =~= gen_body(k, instructions@));
            assert(self.calls() =~= old(self).calls() + body_calls(instructions@));
            return Ok(c);
        }
        let ls = compute_leaders(instructions);
        let bidx = block_indices(instructions, &ls);
        let n = ls.len();
        let mut code = String::new();
        push_string(&mut code, &ind);
        push_str(&mut code, "gcrecomp_core::runtime::trace_call(0x");
        push_hex8(&mut code, instructions[0].address);
        push_str(&mut code, "u32);\n");
        push_string(&mut code, &ind);
        push_str(&mut code, "if gcrecomp_core::runtime::out_of_budget() { return Ok(Some(ctx.get_register(3))); }\n");
        push_string(&mut code, &ind);
        push_str(&mut code, "let mut __blk: u32 = 0;\n");
        push_string(&mut code, &ind);
        push_str(&mut code, "let mut __steps: u64 = 0;\n");
        push_string(&mut code, &ind);
        push_str(&mut code, "loop {\n");
        push_string(&mut code, &ind);
        push_str(&mut code, "__steps += 1; if __steps > 8_000_000 || (__steps & 0xFFFF == 0 && gcrecomp_core::runtime::out_of_budget()) { return Ok(Some(ctx.get_register(3))); }\n");
        push_string(&mut code, &ind);
        push_str(&mut code, "match __blk {\n");
        let ghost header = code@;
        let ghost calls0 = self.calls();
        for b in 0..n
            invariant
                self.wf(),
                self.level() == k,
                self.optimizing() == old(self).optimizing(),
                k < usize::MAX,
                n == ls@.len(),
                bidx@.len() == instructions@.len(),
                forall|j: int| 0 <= j < instructions@.len() ==> bidx@[j] == block_of_addr(ls@, #[trigger] instructions@[j].address),
                code@ == header + gen_blocks(k, instructions@, ls@, n as nat, b as nat),
                self.calls() == calls0 + blocks_calls(instructions@, ls@, b as nat),
        {
            self.emit_block(&mut code, instructions, &ls, &bidx, b, n);
            assert(code@ =~= header + gen_blocks(k, instructions@, ls@, n as nat, (b + 1) as nat));
            assert(self.calls() =~= calls0 + blocks_calls(instructions@, ls@, (b + 1) as nat));
        }
        push_string(&mut code, &ind);
        push_str(&mut code, "_ => return Ok(Some(ctx.get_register(3))),\n");
        push_string(&mut code, &ind);
        push_str(&mut code, "}\n");
        push_string(&mut code, &ind);
        push_str(&mut code, "}\n");
        assert(code@ =~= gen_body(k, instructions@));
        Ok(code)
    }

    /// A whole Rust function for `metadata`: its signature, then the block
    /// state machine of `instructions` one level deeper.
    ///
    /// Always succeeds; the targets of `bl` instructions are recorded in order.
    pub fn generate_function(
        &mut self,
        metadata: &FunctionMetadata,
        instructions: &[DecodedInstruction],
    ) -> (r: Result<String, CodegenError>)
        requires
            old(self).wf(),
            old(self).level() + 2 <= usize::MAX,
        ensures
            final(self).wf(),
            final(self).level() == old(self).level(),
            final(self).optimizing() == old(self).optimizing(),
            final(self).calls() == old(self).calls() + body_calls(instructions@),
            gen_state(&*final(self)) == after_function(gen_state(&*old(self)), instructions@),
            r matches Ok(s) && s@ == gen_function(old(self).level(), metadata.name@, metadata.address, instructions@),
    {
        let mut code = String::new();
        let sig = match self.generate_function_signature(metadata) {
            Ok(s) => s,
            Err(e) => { return Err(e); },
        };
        push_string(&mut code, &sig);
        push_str(&mut code, " {\n");
        self.indent_level = self.indent_level + 1;
        let body = match self.generate_function_body(instructions) {
            Ok(b) => b,
            Err(e) => { return Err(e); },
        };
        push_string(&mut code, &body);
        self.indent_level = self.indent_level - 1;
        push_str(&mut code, "}\n");
        assert(code@ =~= gen_function(old(self).level(), metadata.name@, metadata.address, instructions@));
        Ok(code)
    }
}

/// What a generator carries from one call to the next: its indentation
/// level, whether it folds constants, and the call targets recorded.
pub open spec fn gen_state(g: &CodeGenerator) -> (nat, bool, Seq<u32>) {
    (g.level(), g.optimizing(), g.calls())
}

/// The state of a new generator.
pub open spec fn fresh_state() -> (nat, bool, Seq<u32>) {
    (0, true, Seq::empty())
}

/// The state after generating a function with `insts`.
pub open spec fn after_function(st: (nat, bool, Seq<u32>), insts: Seq<DecodedInstruction>) -> (nat, bool, Seq<u32>) {
    (st.0, st.1, st.2 + body_calls(insts))
}

/// The state after generating functions with each instruction list of
/// `history`, in order.
pub open spec fn after_functions(st: (nat, bool, Seq<u32>), history: Seq<Seq<DecodedInstruction>>) -> (nat, bool, Seq<u32>)
    decreases history.len(),
{
    if history.len() == 0 {
        st
    } else {
        after_function(after_functions(st, history.drop_last()), history.last())
    }
}

/// Earlier calls do not change what a generator emits: after any number of
/// functions have been generated, the next function's text is the text a
/// generator in the starting state would give for it.
pub proof fn lemma_output_independent_of_history(
    st: (nat, bool, Seq<u32>),
    history: Seq<Seq<DecodedInstruction>>,
    name: Seq<char>,
    address: u32,
    insts: Seq<DecodedInstruction>,
)
    ensures
        after_functions(st, history).0 == st.0,
        gen_function(after_functions(st, history).0, name, address, insts) == gen_function(st.0, name, address, insts),
    decreases history.len(),
{
    if history.len() > 0 {
        lemma_output_independent_of_history(st, history.drop_last(), name, address, insts);
    }
}

/// The Rust spelling of a recovered type.
pub open spec fn rust_type(t: TypeInfo) -> Seq<char>
    decreases t,
{
    match t {
        TypeInfo::Void => "()"@,
        TypeInfo::Integer { signed, size } => {
            if signed && size == 8 { "i8"@ }
            else if !signed && size == 8 { "u8"@ }
            else if signed && size == 16 { "i16"@ }
            else if !signed && size == 16 { "u16"@ }
            else if signed && size == 32 { "i32"@ }
            else if !signed && size == 32 { "u32"@ }
            else if signed && size == 64 { "i64"@ }
            else if !signed && size == 64 { "u64"@ }
            else { "u32"@ }
        },
        TypeInfo::Pointer { pointee } => "*mut "@ + rust_type(*pointee),
        TypeInfo::Unknown => "u32"@,
    }
}

impl CodeGenerator {
    /// The Rust spelling of a recovered type; unknown widths and types map to `u32`.
    pub fn type_to_rust(&self, ty: &TypeInfo) -> (r: String)
        ensures
            r@ == rust_type(*ty),
        decreases ty,
    {
        let mut r = String::new();
        match ty {
            TypeInfo::Void => push_str(&mut r, "()"),
            TypeInfo::Integer { signed, size } => {
                let signed = *signed;
                let size = *size;
                push_str(&mut r,
                    if signed && size == 8 { "i8" }
                    else if !signed && size == 8 { "u8" }
                    else if signed && size == 16 { "i16" }
                    else if !signed && size == 16 { "u16" }
                    else if signed && size == 32 { "i32" }
                    else if !signed && size == 32 { "u32" }
                    else if signed && size == 64 { "i64" }
                    else if !signed && size == 64 { "u64" }
                    else { "u32" });
            },
            TypeInfo::Pointer { pointee } => {
                push_str(&mut r, "*mut ");
                let inner = self.type_to_rust(pointee);
                push_string(&mut r, &inner);
            },
            TypeInfo::Unknown => push_str(&mut r, "u32"),
        }
        assert(r@ =~= rust_type(*ty));
        r
    }
}

impl Default for CodeGenerator {
    fn default() -> (g: Self)
        ensures
            g.wf(),
            g.level() == 0,
            g.optimizing(),
            g.calls() == Seq::<u32>::empty(),
    {
        CodeGenerator::new()
    }
}

/// The first character of a non-empty string.
fn first_char(s: &String) -> (c: char)
    requires
        s@.len() > 0,
    ensures
        c == s@[0],
{
    s.as_str().get_char(0)
}

/// Whether the characters begin with `sub_`.
fn has_sub_prefix(cs: &Vec<char>) -> (b: bool)
    ensures
        b == starts_with(cs@, "sub_"@),
{
    proof {
        reveal_strlit("sub_");
    }
    if cs.len() < 4 {
        false
    } else {
        let b = cs[0] == 's' && cs[1] == 'u' && cs[2] == 'b' && cs[3] == '_';
        proof {
            if b {
                assert(cs@.take(4) =~= "sub_"@);
            } else if cs@.take(4) == "sub_"@ {
                assert(cs@.take(4)[0] == 's' && cs@.take(4)[1] == 'u');
                assert(cs@.take(4)[2] == 'b' && cs@.take(4)[3] == '_');
            }
        }
        b
    }
}


/// Where the open block starts after a straight split of the first `i`
/// instructions: one past the last branch among them (0 when none).
pub open spec fn cut_start(insts: Seq<DecodedInstruction>, i: nat) -> nat
    decreases i,
{
    if i == 0 {
        0
    } else if insts[i - 1].instruction.instruction_type == InstructionType::Branch {
        i
    } else {
        cut_start(insts, (i - 1) as nat)
    }
}

/// The finished blocks, as `[start, end)` index ranges, of a straight split
/// of the first `i` instructions: one ends after every branch.
pub open spec fn cut_spans(insts: Seq<DecodedInstruction>, i: nat) -> Seq<(nat, nat)>
    decreases i,
{
    if i == 0 {
        seq![]
    } else if insts[i - 1].instruction.instruction_type == InstructionType::Branch {
        cut_spans(insts, (i - 1) as nat).push((cut_start(insts, (i - 1) as nat), i))
    } else {
        cut_spans(insts, (i - 1) as nat)
    }
}

/// The blocks of a straight split: after every branch, plus the trailing
/// instructions as a last block when there are any.
pub open spec fn basic_block_spans(insts: Seq<DecodedInstruction>) -> Seq<(nat, nat)> {
    let start = cut_start(insts, insts.len());
    if start < insts.len() { cut_spans(insts, insts.len()).push((start, insts.len())) } else { cut_spans(insts, insts.len()) }
}

/// `r` lists the index ranges `spans`.
pub open spec fn same_spans(r: Seq<(usize, usize)>, spans: Seq<(nat, nat)>) -> bool {
    &&& r.len() == spans.len()
    &&& forall|i: int| #![trigger r[i]] 0 <= i < r.len() ==> r[i].0 == spans[i].0 && r[i].1 == spans[i].1
}

impl CodeGenerator {
    /// Splits `instructions` into blocks that end after every branch (the
    /// trailing instructions form a last block), as `[start, end)` index ranges.
    pub fn build_basic_blocks(&self, instructions: &[DecodedInstruction]) -> (r: Vec<(usize, usize)>)
        ensures
            same_spans(r@, basic_block_spans(instructions@)),
    {
        let mut blocks: Vec<(usize, usize)> = Vec::new();
        let mut start: usize = 0;
        let n = instructions.len();
        let mut i: usize = 0;
        while i < n
            invariant
                n == instructions@.len(),
                i <= n,
                start <= i,
                cut_start(instructions@, i as nat) == start,
                same_spans(blocks@, cut_spans(instructions@, i as nat)),
            decreases n - i,
        {
            if instructions[i].instruction.instruction_type == InstructionType::Branch {
                let ghost before = blocks@;
                blocks.push((start, i + 1));
                proof {
                    let sp = cut_spans(instructions@, (i + 1) as nat);
                    assert forall|k: int| 0 <= k < blocks@.len() implies #[trigger] blocks@[k].0 == sp[k].0 && blocks@[k].1 == sp[k].1 by {
                        if k < before.len() {
                            assert(blocks@[k] == before[k]);
                        }
                    }
                }
                start = i + 1;
            }
            i = i + 1;
        }
        if start < n {
            let ghost before = blocks@;
            blocks.push((start, n));
            proof {
                let sp = basic_block_spans(instructions@);
                assert forall|k: int| 0 <= k < blocks@.len() implies #[trigger] blocks@[k].0 == sp[k].0 && blocks@[k].1 == sp[k].1 by {
                    if k < before.len() {
                        assert(blocks@[k] == before[k]);
                    }
                }
            }
        }
        blocks
    }
}

} // verus!
