//! The x86-64 backend: the register table and the instruction encoders.
//!
//! Every encoder is specified byte for byte by a spec function, and the
//! length predictions of `Opcode` are proved to agree with the bytes the
//! encoders emit.

use vstd::prelude::*;

use crate::jit::{
    lemma_layout_pos_mono, lemma_table_lookup, spec_op_resolved, spec_ops_len, spec_table,
    Compilable, Jit, JitError, JitFunction, JitOp, JitReg, Opcode, Register,
};

verus! {

/// The fixed register table: the 3-bit physical index of each logical
/// register within its bank.
pub open spec fn spec_real_reg(r: JitReg) -> u8 {
    match r {
        JitReg::R1 => 0,   // rax
        JitReg::R2 => 7,   // rdi
        JitReg::R3 => 6,   // rsi
        JitReg::R4 => 2,   // rdx
        JitReg::R5 => 1,   // rcx
        JitReg::R6 => 0,   // r8
        JitReg::R7 => 1,   // r9
        JitReg::R8 => 3,   // rbx
        JitReg::R9 => 2,   // r10
        JitReg::R10 => 3,  // r11
        JitReg::R11 => 4,  // r12
        JitReg::R12 => 5,  // r13
        JitReg::R13 => 6,  // r14
        JitReg::R14 => 7,  // r15
        JitReg::SP => 4,   // rsp
        JitReg::BP => 5,   // rbp
    }
}

/// Whether a logical register lives in the upper eight physical
/// registers, which need an extra prefix bit to address.
pub open spec fn spec_extended(r: JitReg) -> bool {
    match r {
        JitReg::R6 | JitReg::R7 | JitReg::R9 | JitReg::R10 | JitReg::R11 | JitReg::R12
            | JitReg::R13 | JitReg::R14 => true,
        _ => false,
    }
}

impl Register for JitReg {
    open spec fn spec_real(&self) -> u8 {
        spec_real_reg(*self)
    }

    open spec fn spec_ext(&self) -> bool {
        spec_extended(*self)
    }

    fn to_real_reg(&self) -> u8 {
        match *self {
            JitReg::R1 => 0b000,
            JitReg::R2 => 0b111,
            JitReg::R3 => 0b110,
            JitReg::R4 => 0b010,
            JitReg::R5 => 0b001,
            JitReg::R6 => 0b000,
            JitReg::R7 => 0b001,
            JitReg::R8 => 0b011,
            JitReg::R9 => 0b010,
            JitReg::R10 => 0b011,
            JitReg::R11 => 0b100,
            JitReg::R12 => 0b101,
            JitReg::R13 => 0b110,
            JitReg::R14 => 0b111,
            JitReg::SP => 0b100,
            JitReg::BP => 0b101,
        }
    }

    fn extended(&self) -> bool {
        let r = match *self {
            JitReg::R6 | JitReg::R7 | JitReg::R9 | JitReg::R10 | JitReg::R11 | JitReg::R12
                | JitReg::R13 | JitReg::R14 => true,
            _ => false,
        };
        proof {
            assert(r == spec_extended(*self));
            assert(r == self.spec_ext());
        }
        r
    }
}

/// The register table is complete and collision-free: within one bank
/// (extended or not) no two registers share a physical index, so the
/// sixteen logical names cover sixteen distinct physical registers.
pub proof fn lemma_register_table_unique(r1: JitReg, r2: JitReg)
    requires
        spec_extended(r1) == spec_extended(r2),
        spec_real_reg(r1) == spec_real_reg(r2),
    ensures
        r1 == r2,
{
}

/// The number of bytes (1, 2, 4 or 8, reported as the width class
/// 1, 2, 3 or 4) that an unsigned immediate needs.
pub open spec fn spec_needed_bytes(imm: u64) -> nat {
    if imm <= 0xff {
        1
    } else if imm <= 0xffff {
        2
    } else if imm <= 0xffff_ffff {
        3
    } else {
        4
    }
}

/// Classifies an immediate into the smallest width class that holds it:
/// 1 (8 bits), 2 (16 bits), 3 (32 bits) or 4 (64 bits).
pub fn needed_bytes(imm: u64) -> (r: usize)
    ensures
        r == spec_needed_bytes(imm),
{
    if imm <= 0xff {
        1
    } else if imm <= 0xffff {
        2
    } else if imm <= 0xffff_ffff {
        3
    } else {
        4
    }
}

/// The one-byte extended-register prefix: a base of 0x48 (64-bit operand
/// width) or 0x40, plus one bit for an extended first register (bit 2
/// when a second register follows, bit 0 otherwise) and bit 0 for an
/// extended second register.  The value 0x40 (and 0x48 where the width
/// bit is forced) thus means "no prefix needed".
pub open spec fn spec_rex(reg: JitReg, reg2: Option<JitReg>, w_field: bool) -> u8 {
    ((if w_field {
        0x48int
    } else {
        0x40int
    }) + (if spec_extended(reg) {
        if reg2 is Some {
            4int
        } else {
            1int
        }
    } else {
        0int
    }) + (match reg2 {
        Some(r2) => if spec_extended(r2) {
            1int
        } else {
            0int
        },
        None => 0int,
    })) as u8
}

/// The four little-endian bytes of an immediate's low 32 bits.
pub open spec fn spec_imm32(imm: u64) -> Seq<u8> {
    seq![imm as u8, (imm >> 8) as u8, (imm >> 16) as u8, (imm >> 24) as u8]
}

/// The eight little-endian bytes of a full 64-bit immediate.
pub open spec fn spec_imm64(imm: u64) -> Seq<u8> {
    seq![
        imm as u8,
        (imm >> 8) as u8,
        (imm >> 16) as u8,
        (imm >> 24) as u8,
        (imm >> 32) as u8,
        (imm >> 40) as u8,
        (imm >> 48) as u8,
        (imm >> 56) as u8,
    ]
}

/// Add-immediate: the 4-byte short form for 8-bit immediates, the 7-byte
/// form with a 4-byte immediate field for 16/32-bit ones, and no encoding
/// at all for immediates that need the full 64 bits.
pub open spec fn spec_addri(reg: JitReg, imm: u64) -> Option<Seq<u8>> {
    if spec_needed_bytes(imm) == 1 {
        Some(
            seq![
                spec_rex(reg, None, true),
                0x83u8,
                (0xc0 + spec_real_reg(reg)) as u8,
                imm as u8,
            ],
        )
    } else if spec_needed_bytes(imm) <= 3 {
        Some(
            seq![spec_rex(reg, None, true), 0x81u8, (0xc0 + spec_real_reg(reg)) as u8]
                + spec_imm32(imm),
        )
    } else {
        None
    }
}

/// Subtract-immediate: the same two forms as add-immediate, with the
/// subtract opcode extension in the operand byte.
pub open spec fn spec_subri(reg: JitReg, imm: u64) -> Option<Seq<u8>> {
    if spec_needed_bytes(imm) == 1 {
        Some(
            seq![
                spec_rex(reg, None, true),
                0x83u8,
                (0xc0 + 0x28 + spec_real_reg(reg)) as u8,
                imm as u8,
            ],
        )
    } else if spec_needed_bytes(imm) <= 3 {
        Some(
            seq![spec_rex(reg, None, true), 0x81u8, (0xc0 + 0x28 + spec_real_reg(reg)) as u8]
                + spec_imm32(imm),
        )
    } else {
        None
    }
}

/// Push: a register-coded opcode byte, prefixed only for an extended
/// register.
pub open spec fn spec_pushr(reg: JitReg) -> Seq<u8> {
    if spec_rex(reg, None, true) == 0x48 {
        seq![(0x50 + spec_real_reg(reg)) as u8]
    } else {
        seq![spec_rex(reg, None, true), (0x50 + spec_real_reg(reg)) as u8]
    }
}

/// Pop: a register-coded opcode byte, prefixed only for an extended
/// register.
pub open spec fn spec_popr(reg: JitReg) -> Seq<u8> {
    if spec_rex(reg, None, true) == 0x48 {
        seq![(0x58 + spec_real_reg(reg)) as u8]
    } else {
        seq![spec_rex(reg, None, true), (0x58 + spec_real_reg(reg)) as u8]
    }
}

/// Move register to register (`reg2` into `reg1`): prefix, opcode, and
/// one ModRM operand byte.
pub open spec fn spec_movrr(reg1: JitReg, reg2: JitReg) -> Seq<u8> {
    seq![
        spec_rex(reg1, Some(reg2), true),
        0x89u8,
        (0xc0 + spec_real_reg(reg2) * 8 + spec_real_reg(reg1)) as u8,
    ]
}

/// Move immediate to register: a short form with a 4-byte literal for
/// immediates up to 32 bits (the prefix omitted entirely when no
/// extended register asks for it), and a 10-byte form carrying the full
/// literal, with the 64-bit operand-width bit forced on, beyond that.
pub open spec fn spec_movri(reg: JitReg, imm: u64) -> Seq<u8> {
    if spec_needed_bytes(imm) <= 3 {
        if spec_rex(reg, None, false) == 0x40 {
            seq![(0xb8 + spec_real_reg(reg)) as u8] + spec_imm32(imm)
        } else {
            seq![spec_rex(reg, None, false), (0xb8 + spec_real_reg(reg)) as u8] + spec_imm32(imm)
        }
    } else {
        seq![
            (spec_rex(reg, None, false) + 8) as u8,
            (0xb8 + spec_real_reg(reg)) as u8,
        ] + spec_imm64(imm)
    }
}

/// The architecture's single-operand multiply/divide instruction works
/// implicitly on the fixed accumulator/secondary pair (`R1`, `R3`).  For
/// any other operands the sequence saves the fixed registers, moves the
/// operands in, issues the one opcode (`special` selects multiply or
/// divide in the operand byte), moves the result back and restores.
pub open spec fn spec_mul_div_rr(reg: JitReg, reg2: JitReg, special: u8) -> Seq<u8> {
    (if reg != JitReg::R1 {
        spec_pushr(JitReg::R1) + spec_movrr(JitReg::R1, reg)
    } else {
        Seq::<u8>::empty()
    }) + (if reg2 != JitReg::R3 {
        spec_pushr(JitReg::R3) + spec_movrr(JitReg::R3, reg2)
    } else {
        Seq::<u8>::empty()
    }) + seq![
        spec_rex(JitReg::R3, None, true),
        0xf7u8,
        (0xc0 + special * 8 + spec_real_reg(JitReg::R3)) as u8,
    ] + (if reg2 != JitReg::R3 {
        spec_popr(JitReg::R3)
    } else {
        Seq::<u8>::empty()
    }) + (if reg != JitReg::R1 {
        spec_movrr(reg, JitReg::R1) + spec_popr(JitReg::R1)
    } else {
        Seq::<u8>::empty()
    })
}

/// Multiply/divide by immediate spills a scratch register, materializes
/// the immediate there, and recurses into the register-pair form.
pub open spec fn spec_mul_div_ri(reg: JitReg, imm: u64, special: u8) -> Seq<u8> {
    let immreg = if reg == JitReg::R3 {
        JitReg::R5
    } else {
        JitReg::R3
    };
    spec_pushr(immreg) + spec_movri(immreg, imm) + spec_mul_div_rr(reg, immreg, special)
        + spec_popr(immreg)
}

/// Register-pair multiply.
pub open spec fn spec_mulrr(reg: JitReg, reg2: JitReg) -> Seq<u8> {
    spec_mul_div_rr(reg, reg2, 4)
}

/// Register-pair divide.
pub open spec fn spec_divrr(reg: JitReg, reg2: JitReg) -> Seq<u8> {
    spec_mul_div_rr(reg, reg2, 6)
}

/// Multiply by immediate.
pub open spec fn spec_mulri(reg: JitReg, imm: u64) -> Seq<u8> {
    spec_mul_div_ri(reg, imm, 4)
}

/// Divide by immediate.
pub open spec fn spec_divri(reg: JitReg, imm: u64) -> Seq<u8> {
    spec_mul_div_ri(reg, imm, 6)
}

/// Builds the extended-register prefix byte.
pub fn encode_rex(reg: JitReg, reg2: Option<JitReg>, w_field: bool) -> (r: u8)
    ensures
        r == spec_rex(reg, reg2, w_field),
{
    let mut res: u8 = if w_field {
        0b0100_1000
    } else {
        0b0100_0000
    };
    if reg.extended() {
        res = res + if reg2.is_some() {
            4u8
        } else {
            1u8
        };
    }
    if let Some(r2) = reg2 {
        if r2.extended() {
            res = res + 1;
        }
    }
    res
}

/// Appends the four little-endian bytes of the immediate's low 32 bits.
fn push_imm32(v: &mut Vec<u8>, imm: u64)
    ensures
        final(v)@ == old(v)@ + spec_imm32(imm),
{
    v.push(#[verifier::truncate] (imm as u8));
    v.push(#[verifier::truncate] ((imm >> 8) as u8));
    v.push(#[verifier::truncate] ((imm >> 16) as u8));
    v.push(#[verifier::truncate] ((imm >> 24) as u8));
    proof {
        assert(v@ =~= old(v)@ + spec_imm32(imm));
    }
}

/// Appends all eight little-endian bytes of the immediate.
fn push_imm64(v: &mut Vec<u8>, imm: u64)
    ensures
        final(v)@ == old(v)@ + spec_imm64(imm),
{
    v.push(#[verifier::truncate] (imm as u8));
    v.push(#[verifier::truncate] ((imm >> 8) as u8));
    v.push(#[verifier::truncate] ((imm >> 16) as u8));
    v.push(#[verifier::truncate] ((imm >> 24) as u8));
    v.push(#[verifier::truncate] ((imm >> 32) as u8));
    v.push(#[verifier::truncate] ((imm >> 40) as u8));
    v.push(#[verifier::truncate] ((imm >> 48) as u8));
    v.push(#[verifier::truncate] ((imm >> 56) as u8));
    proof {
        assert(v@ =~= old(v)@ + spec_imm64(imm));
    }
}

/// Encodes add-immediate, or reports that the immediate needs an
/// unsupported 64-bit-width form.
pub fn encode_addri(reg: JitReg, imm: u64) -> (r: Result<Vec<u8>, JitError>)
    ensures
        match spec_addri(reg, imm) {
            Some(b) => r matches Ok(v) && v@ == b,
            None => r == Err::<Vec<u8>, JitError>(JitError::UnsupportedImmediateWidth),
        },
{
    let rex = encode_rex(reg, None, true);
    let nb = needed_bytes(imm);
    let mut v: Vec<u8> = Vec::new();
    if nb == 1 {
        v.push(rex);
        v.push(0x83);
        v.push(0xc0 + reg.to_real_reg());
        v.push(imm as u8);
        proof {
            assert(Some(v@) == spec_addri(reg, imm)) by {
                assert(v@ =~= seq![
                    spec_rex(reg, None, true),
                    0x83u8,
                    (0xc0 + spec_real_reg(reg)) as u8,
                    imm as u8,
                ]);
            }
        }
        Ok(v)
    } else if nb <= 3 {
        v.push(rex);
        v.push(0x81);
        v.push(0xc0 + reg.to_real_reg());
        push_imm32(&mut v, imm);
        proof {
            assert(Some(v@) == spec_addri(reg, imm)) by {
                assert(v@ =~= seq![
                    spec_rex(reg, None, true),
                    0x81u8,
                    (0xc0 + spec_real_reg(reg)) as u8,
                ] + spec_imm32(imm));
            }
        }
        Ok(v)
    } else {
        Err(JitError::UnsupportedImmediateWidth)
    }
}

/// Encodes subtract-immediate, or reports that the immediate needs an
/// unsupported 64-bit-width form.
pub fn encode_subri(reg: JitReg, imm: u64) -> (r: Result<Vec<u8>, JitError>)
    ensures
        match spec_subri(reg, imm) {
            Some(b) => r matches Ok(v) && v@ == b,
            None => r == Err::<Vec<u8>, JitError>(JitError::UnsupportedImmediateWidth),
        },
{
    let rex = encode_rex(reg, None, true);
    let nb = needed_bytes(imm);
    let mut v: Vec<u8> = Vec::new();
    if nb == 1 {
        v.push(rex);
        v.push(0x83);
        v.push(0xc0 + 0x28 + reg.to_real_reg());
        v.push(imm as u8);
        proof {
            assert(Some(v@) == spec_subri(reg, imm)) by {
                assert(v@ =~= seq![
                    spec_rex(reg, None, true),
                    0x83u8,
                    (0xc0 + 0x28 + spec_real_reg(reg)) as u8,
                    imm as u8,
                ]);
            }
        }
        Ok(v)
    } else if nb <= 3 {
        v.push(rex);
        v.push(0x81);
        v.push(0xc0 + 0x28 + reg.to_real_reg());
        push_imm32(&mut v, imm);
        proof {
            assert(Some(v@) == spec_subri(reg, imm)) by {
                assert(v@ =~= seq![
                    spec_rex(reg, None, true),
                    0x81u8,
                    (0xc0 + 0x28 + spec_real_reg(reg)) as u8,
                ] + spec_imm32(imm));
            }
        }
        Ok(v)
    } else {
        Err(JitError::UnsupportedImmediateWidth)
    }
}

/// Encodes a register push.
pub fn encode_pushr(reg: JitReg) -> (r: Vec<u8>)
    ensures
        r@ == spec_pushr(reg),
{
    let rex = encode_rex(reg, None, true);
    let mut v: Vec<u8> = Vec::new();
    if rex == 0x48 {
        v.push(0x50 + reg.to_real_reg());
    } else {
        v.push(rex);
        v.push(0x50 + reg.to_real_reg());
    }
    proof {
        assert(v@ =~= spec_pushr(reg));
    }
    v
}

/// Encodes a register pop.
pub fn encode_popr(reg: JitReg) -> (r: Vec<u8>)
    ensures
        r@ == spec_popr(reg),
{
    let rex = encode_rex(reg, None, true);
    let mut v: Vec<u8> = Vec::new();
    if rex == 0x48 {
        v.push(0x58 + reg.to_real_reg());
    } else {
        v.push(rex);
        v.push(0x58 + reg.to_real_reg());
    }
    proof {
        assert(v@ =~= spec_popr(reg));
    }
    v
}

/// Encodes a register-to-register move of `reg2` into `reg1`.
pub fn encode_movrr(reg1: JitReg, reg2: JitReg) -> (r: Vec<u8>)
    ensures
        r@ == spec_movrr(reg1, reg2),
{
    let mut v: Vec<u8> = Vec::new();
    v.push(encode_rex(reg1, Some(reg2), true));
    v.push(0x89);
    v.push(0xc0 + reg2.to_real_reg() * 8 + reg1.to_real_reg());
    proof {
        assert(v@ =~= spec_movrr(reg1, reg2));
    }
    v
}

/// Encodes a move of an immediate into a register.
pub fn encode_movri(reg: JitReg, imm: u64) -> (r: Vec<u8>)
    ensures
        r@ == spec_movri(reg, imm),
{
    let rex = encode_rex(reg, None, false);
    let nb = needed_bytes(imm);
    let mut v: Vec<u8> = Vec::new();
    if nb <= 3 {
        if rex == 0x40 {
            v.push(0xb8 + reg.to_real_reg());
        } else {
            v.push(rex);
            v.push(0xb8 + reg.to_real_reg());
        }
        push_imm32(&mut v, imm);
    } else {
        v.push(rex + 8);
        v.push(0xb8 + reg.to_real_reg());
        push_imm64(&mut v, imm);
    }
    proof {
        assert(v@ =~= spec_movri(reg, imm));
    }
    v
}

/// Encodes the multiply/divide sequence for an arbitrary register pair,
/// spilling around the fixed accumulator/secondary convention.  The
/// `special` value is the 3-bit opcode-extension field of the operand
/// byte (multiply or divide).
pub fn encode_mul_div_rr(reg: JitReg, reg2: JitReg, special: u8) -> (r: Vec<u8>)
    requires
        special <= 7,
    ensures
        r@ == spec_mul_div_rr(reg, reg2, special),
{
    let mut res: Vec<u8> = Vec::new();
    if reg != JitReg::R1 {
        let mut t = encode_pushr(JitReg::R1);
        res.append(&mut t);
        let mut t = encode_movrr(JitReg::R1, reg);
        res.append(&mut t);
    }
    if reg2 != JitReg::R3 {
        let mut t = encode_pushr(JitReg::R3);
        res.append(&mut t);
        let mut t = encode_movrr(JitReg::R3, reg2);
        res.append(&mut t);
    }
    res.push(encode_rex(JitReg::R3, None, true));
    res.push(0xf7);
    res.push(0xc0 + special * 8 + JitReg::R3.to_real_reg());
    if reg2 != JitReg::R3 {
        let mut t = encode_popr(JitReg::R3);
        res.append(&mut t);
    }
    if reg != JitReg::R1 {
        let mut t = encode_movrr(reg, JitReg::R1);
        res.append(&mut t);
        let mut t = encode_popr(JitReg::R1);
        res.append(&mut t);
    }
    proof {
        assert(res@ =~= spec_mul_div_rr(reg, reg2, special));
    }
    res
}

/// Encodes a register-pair multiply.
pub fn encode_mulrr(reg: JitReg, reg2: JitReg) -> (r: Vec<u8>)
    ensures
        r@ == spec_mulrr(reg, reg2),
{
    encode_mul_div_rr(reg, reg2, 0b100)
}

/// Encodes a register-pair divide.
pub fn encode_divrr(reg1: JitReg, reg2: JitReg) -> (r: Vec<u8>)
    ensures
        r@ == spec_divrr(reg1, reg2),
{
    encode_mul_div_rr(reg1, reg2, 0b110)
}

/// Encodes a multiply by immediate: spill a scratch register, move the
/// immediate in, multiply by it, restore.
pub fn encode_mulri(reg: JitReg, imm: u64) -> (r: Vec<u8>)
    ensures
        r@ == spec_mulri(reg, imm),
{
    let immreg = if reg == JitReg::R3 {
        JitReg::R5
    } else {
        JitReg::R3
    };
    let mut res = encode_pushr(immreg);
    let mut t = encode_movri(immreg, imm);
    res.append(&mut t);
    let mut t = encode_mulrr(reg, immreg);
    res.append(&mut t);
    let mut t = encode_popr(immreg);
    res.append(&mut t);
    proof {
        assert(res@ =~= spec_mulri(reg, imm));
    }
    res
}

/// The call displacement as emitted: callee base offset minus caller
/// instruction offset, with an additional 5 (the call instruction's own
/// length) subtracted only when the callee lies ahead of the caller,
/// represented as an unsigned 32-bit two's-complement value.  Backward
/// references receive no such adjustment — a knowingly kept asymmetry
/// of the current design, not silently altered here.
pub open spec fn spec_disp_mod(target: int, pos: int) -> int {
    let d = if target > pos {
        target - pos - 5
    } else {
        target - pos
    };
    if d >= 0 {
        d
    } else {
        d + 0x1_0000_0000
    }
}

/// A call: one opcode byte and the 4-byte relative displacement.
pub open spec fn spec_call_bytes(target: int, pos: int) -> Seq<u8> {
    seq![0xe8u8] + spec_imm32(spec_disp_mod(target, pos) as u64)
}

/// The bytes of one operation, given the symbolic-call resolution table
/// and the operation's own byte offset within the final buffer; `None`
/// where the encoding is undefined (an unsupported immediate width, an
/// unresolved call target).
pub open spec fn spec_op_bytes(op: JitOp, table: Map<Seq<char>, int>, pos: int) -> Option<
    Seq<u8>,
> {
    match op {
        JitOp::Addri(reg, imm) => spec_addri(reg, imm),
        JitOp::Subri(reg, imm) => spec_subri(reg, imm),
        JitOp::Mulri(reg, imm) => Some(spec_mulri(reg, imm)),
        JitOp::Mulrr(r1, r2) => Some(spec_mulrr(r1, r2)),
        JitOp::Divri(reg, imm) => Some(spec_divri(reg, imm)),
        JitOp::Divrr(r1, r2) => Some(spec_divrr(r1, r2)),
        JitOp::Movrr(r1, r2) => Some(spec_movrr(r1, r2)),
        JitOp::Movri(reg, imm) => Some(spec_movri(reg, imm)),
        JitOp::Pushr(r) => Some(spec_pushr(r)),
        JitOp::Popr(r) => Some(spec_popr(r)),
        JitOp::Call(name) => if table.contains_key(name@) {
            Some(spec_call_bytes(table[name@], pos))
        } else {
            None
        },
        JitOp::Ret => Some(seq![0xc3u8]),
    }
}

/// Predicted length of a move-immediate: the 4-byte literal form plus
/// opcode, with one prefix byte for an extended register, or the fixed
/// 10-byte full-literal form.
pub open spec fn spec_movri_len(reg: JitReg, imm: u64) -> nat {
    if spec_needed_bytes(imm) <= 3 {
        if spec_extended(reg) {
            6
        } else {
            5
        }
    } else {
        10
    }
}

/// Predicted length of the synthesized register-pair multiply/divide:
/// the 3-byte opcode itself, 8 bytes of save/load/move-back/restore when
/// the destination is not the accumulator, and 5 when the second operand
/// is not the secondary register.
pub open spec fn spec_mul_div_rr_len(reg: JitReg, reg2: JitReg) -> nat {
    3 + (if reg != JitReg::R1 {
        8nat
    } else {
        0nat
    }) + (if reg2 != JitReg::R3 {
        5nat
    } else {
        0nat
    })
}

/// Predicted length of multiply/divide by immediate: the scratch push
/// and pop around the materialized immediate and the register-pair form.
pub open spec fn spec_mul_div_ri_len(reg: JitReg, imm: u64) -> nat {
    let immreg = if reg == JitReg::R3 {
        JitReg::R5
    } else {
        JitReg::R3
    };
    2 + spec_movri_len(immreg, imm) + spec_mul_div_rr_len(reg, immreg)
}

/// The predicted encoded length of an operation, or `None` for the
/// unsupported 64-bit-width add/subtract immediates.  `Call` is always
/// five bytes, whatever it resolves to.
pub open spec fn spec_op_len(op: JitOp) -> Option<nat> {
    match op {
        JitOp::Addri(_, imm) | JitOp::Subri(_, imm) => {
            if spec_needed_bytes(imm) == 1 {
                Some(4nat)
            } else if spec_needed_bytes(imm) <= 3 {
                Some(7nat)
            } else {
                None
            }
        },
        JitOp::Mulri(reg, imm) => Some(spec_mul_div_ri_len(reg, imm)),
        JitOp::Mulrr(r1, r2) => Some(spec_mul_div_rr_len(r1, r2)),
        JitOp::Divri(reg, imm) => Some(spec_mul_div_ri_len(reg, imm)),
        JitOp::Divrr(r1, r2) => Some(spec_mul_div_rr_len(r1, r2)),
        JitOp::Movrr(_, _) => Some(3nat),
        JitOp::Movri(reg, imm) => Some(spec_movri_len(reg, imm)),
        JitOp::Pushr(r) => Some(
            if spec_extended(r) {
                2nat
            } else {
                1nat
            },
        ),
        JitOp::Popr(r) => Some(
            if spec_extended(r) {
                2nat
            } else {
                1nat
            },
        ),
        JitOp::Call(_) => Some(5nat),
        JitOp::Ret => Some(1nat),
    }
}

impl Opcode for JitOp {
    open spec fn spec_len(&self) -> Option<nat> {
        spec_op_len(*self)
    }

    /// Predicts an operation's encoded length without emitting bytes,
    /// from the same width rules the encoders use.
    fn len(&self) -> (r: Result<usize, JitError>) {
        match self {
            JitOp::Addri(_, imm) | JitOp::Subri(_, imm) => {
                let nb = needed_bytes(*imm);
                if nb == 1 {
                    Ok(4)
                } else if nb <= 3 {
                    Ok(7)
                } else {
                    Err(JitError::UnsupportedImmediateWidth)
                }
            },
            JitOp::Mulri(reg, imm) | JitOp::Divri(reg, imm) => {
                let immreg = if *reg == JitReg::R3 {
                    JitReg::R5
                } else {
                    JitReg::R3
                };
                let movri_len: usize = if needed_bytes(*imm) <= 3 {
                    if immreg.extended() {
                        6
                    } else {
                        5
                    }
                } else {
                    10
                };
                let rr_len: usize = 3 + (if *reg != JitReg::R1 {
                    8
                } else {
                    0
                }) + (if immreg != JitReg::R3 {
                    5
                } else {
                    0
                });
                Ok(2 + movri_len + rr_len)
            },
            JitOp::Mulrr(r1, r2) | JitOp::Divrr(r1, r2) => {
                Ok(
                    3 + (if *r1 != JitReg::R1 {
                        8
                    } else {
                        0
                    }) + (if *r2 != JitReg::R3 {
                        5
                    } else {
                        0
                    }),
                )
            },
            JitOp::Movrr(_, _) => Ok(3),
            JitOp::Movri(reg, imm) => {
                if needed_bytes(*imm) <= 3 {
                    if reg.extended() {
                        Ok(6)
                    } else {
                        Ok(5)
                    }
                } else {
                    Ok(10)
                }
            },
            JitOp::Pushr(r) | JitOp::Popr(r) => {
                if r.extended() {
                    Ok(2)
                } else {
                    Ok(1)
                }
            },
            JitOp::Call(_) => Ok(5),
            JitOp::Ret => Ok(1),
        }
    }
}

/// Encodes a divide by immediate, via the same spill pattern as
/// multiply by immediate.
pub fn encode_divri(reg: JitReg, imm: u64) -> (r: Vec<u8>)
    ensures
        r@ == spec_divri(reg, imm),
{
    let immreg = if reg == JitReg::R3 {
        JitReg::R5
    } else {
        JitReg::R3
    };
    let mut res = encode_pushr(immreg);
    let mut t = encode_movri(immreg, imm);
    res.append(&mut t);
    let mut t = encode_divrr(reg, immreg);
    res.append(&mut t);
    let mut t = encode_popr(immreg);
    res.append(&mut t);
    proof {
        assert(res@ =~= spec_divri(reg, imm));
    }
    res
}

/// Encodes a call through an already-looked-up function, or reports an
/// unresolved target.  Both positions must lie within reach of the
/// 4-byte relative displacement.
pub fn encode_call(func: Option<&JitFunction>, pos: usize) -> (r: Result<Vec<u8>, JitError>)
    requires
        pos < 0x8000_0000,
        func matches Some(f) ==> f.label.pos < 0x8000_0000,
    ensures
        match func {
            Some(f) => r matches Ok(v) && v@ == spec_call_bytes(f.label.pos as int, pos as int),
            None => r == Err::<Vec<u8>, JitError>(JitError::UnresolvedCallTarget),
        },
{
    match func {
        Some(f) => {
            let tpos = f.label.pos;
            let du: u32 = if tpos > pos {
                let d = tpos - pos;
                if d >= 5 {
                    (d - 5) as u32
                } else {
                    (0x1_0000_0000u64 - ((5 - d) as u64)) as u32
                }
            } else {
                let d = pos - tpos;
                if d == 0 {
                    0
                } else {
                    (0x1_0000_0000u64 - (d as u64)) as u32
                }
            };
            let mut v: Vec<u8> = Vec::new();
            v.push(0xe8);
            push_imm32(&mut v, du as u64);
            proof {
                assert(du == spec_disp_mod(tpos as int, pos as int));
                assert(v@ =~= spec_call_bytes(tpos as int, pos as int));
            }
            Ok(v)
        },
        None => Err(JitError::UnresolvedCallTarget),
    }
}

impl Compilable for JitOp {
    open spec fn compile_req(&self, jit: Jit, pos: int) -> bool {
        jit.wf() && 0 <= pos < 0x8000_0000
    }

    open spec fn spec_compiled(&self, jit: Jit, pos: int) -> Option<Seq<u8>> {
        spec_op_bytes(*self, spec_table(jit.funcs@), pos)
    }

    open spec fn compile_err_ok(&self, jit: Jit, pos: int, e: JitError) -> bool {
        match self {
            JitOp::Addri(_, imm) | JitOp::Subri(_, imm) => spec_needed_bytes(*imm) == 4 && e
                == JitError::UnsupportedImmediateWidth,
            JitOp::Call(name) => !spec_table(jit.funcs@).contains_key(name@) && e
                == JitError::UnresolvedCallTarget,
            _ => false,
        }
    }

    /// Emits the exact bytes of one operation at offset `pos`, resolving
    /// a call against the program's function table.
    fn compile(&self, jit: &Jit, pos: usize) -> (r: Result<Vec<u8>, JitError>) {
        match self {
            JitOp::Addri(reg, imm) => {
                let res = encode_addri(*reg, *imm);
                proof {
                    assert(res is Ok ==> self.spec_compiled(*jit, pos as int) == Some(
                        res->Ok_0@,
                    ));
                    assert(res is Err ==> self.spec_compiled(*jit, pos as int) is None
                        && self.compile_err_ok(*jit, pos as int, res->Err_0));
                }
                return res;
            },
            JitOp::Subri(reg, imm) => {
                return encode_subri(*reg, *imm);
            },
            JitOp::Mulri(reg, imm) => {
                return Ok(encode_mulri(*reg, *imm));
            },
            JitOp::Mulrr(r1, r2) => {
                return Ok(encode_mulrr(*r1, *r2));
            },
            JitOp::Divri(reg, imm) => {
                return Ok(encode_divri(*reg, *imm));
            },
            JitOp::Divrr(r1, r2) => {
                return Ok(encode_divrr(*r1, *r2));
            },
            JitOp::Movrr(r1, r2) => {
                return Ok(encode_movrr(*r1, *r2));
            },
            JitOp::Movri(reg, imm) => {
                return Ok(encode_movri(*reg, *imm));
            },
            JitOp::Pushr(rg) => {
                return Ok(encode_pushr(*rg));
            },
            JitOp::Popr(rg) => {
                return Ok(encode_popr(*rg));
            },
            JitOp::Call(name) => {
                let found = jit.find_function(name);
                proof {
                    assert(self.compile_req(*jit, pos as int));
                    assert(jit.wf());
                    assert(jit.names_distinct());
                    assert forall|a: int, b: int|
                        #![trigger jit.funcs@[a], jit.funcs@[b]]
                        0 <= a < b < jit.funcs@.len() implies jit.funcs@[a].label.name@
                        != jit.funcs@[b].label.name@ by {}
                    lemma_table_lookup(jit.funcs@);
                    match found {
                        Some(f) => {
                            let i = choose|i: int|
                                0 <= i < jit.funcs@.len() && #[trigger] jit.funcs@[i] == *f
                                    && f.label.name@ == name@;
                            assert(jit.funcs@[i].label.pos == crate::jit::spec_layout_pos(
                                jit.funcs@,
                                i,
                            ));
                            lemma_layout_pos_mono(jit.funcs@, i, jit.funcs@.len() as int);
                            assert(f.label.pos < 0x8000_0000);
                            assert(spec_table(jit.funcs@)[name@] == f.label.pos);
                        },
                        None => {},
                    }
                }
                encode_call(found, pos)
            },
            JitOp::Ret => {
                let mut v: Vec<u8> = Vec::new();
                v.push(0xc3);
                proof {
                    assert(v@ =~= seq![0xc3u8]);
                }
                Ok(v)
            },
        }
    }
}

proof fn lemma_pushr_len(r: JitReg)
    ensures
        spec_pushr(r).len() == (if spec_extended(r) {
            2nat
        } else {
            1nat
        }),
{
}

proof fn lemma_popr_len(r: JitReg)
    ensures
        spec_popr(r).len() == (if spec_extended(r) {
            2nat
        } else {
            1nat
        }),
{
}

proof fn lemma_movri_byte_len(reg: JitReg, imm: u64)
    ensures
        spec_movri(reg, imm).len() == spec_movri_len(reg, imm),
{
}

proof fn lemma_mul_div_rr_byte_len(reg: JitReg, reg2: JitReg, special: u8)
    ensures
        spec_mul_div_rr(reg, reg2, special).len() == spec_mul_div_rr_len(reg, reg2),
{
    lemma_pushr_len(JitReg::R1);
    lemma_popr_len(JitReg::R1);
    lemma_pushr_len(JitReg::R3);
    lemma_popr_len(JitReg::R3);
}

proof fn lemma_mul_div_ri_byte_len(reg: JitReg, imm: u64, special: u8)
    ensures
        spec_mul_div_ri(reg, imm, special).len() == spec_mul_div_ri_len(reg, imm),
{
    let immreg = if reg == JitReg::R3 {
        JitReg::R5
    } else {
        JitReg::R3
    };
    lemma_pushr_len(immreg);
    lemma_popr_len(immreg);
    lemma_movri_byte_len(immreg, imm);
    lemma_mul_div_rr_byte_len(reg, immreg, special);
}

/// The concatenated bytes of the first `i` operations of a run starting
/// at byte offset `pos`, each operation at its own running offset, or
/// `None` as soon as one encoding is undefined.
pub open spec fn spec_ops_bytes_upto(
    ops: Seq<JitOp>,
    table: Map<Seq<char>, int>,
    pos: int,
    i: int,
) -> Option<Seq<u8>>
    decreases i,
{
    if i <= 0 {
        Some(Seq::<u8>::empty())
    } else {
        match spec_ops_bytes_upto(ops, table, pos, i - 1) {
            None => None,
            Some(acc) => match spec_op_bytes(ops[i - 1], table, pos + acc.len()) {
                None => None,
                Some(b) => Some(acc + b),
            },
        }
    }
}

/// The bytes of a whole operation run starting at `pos`.
pub open spec fn spec_ops_bytes(ops: Seq<JitOp>, table: Map<Seq<char>, int>, pos: int) -> Option<
    Seq<u8>,
> {
    spec_ops_bytes_upto(ops, table, pos, ops.len() as int)
}

/// Once a prefix has no bytes, no longer prefix has either.
proof fn lemma_ops_bytes_none(ops: Seq<JitOp>, table: Map<Seq<char>, int>, pos: int, i: int, k: int)
    requires
        0 <= i <= k,
        spec_ops_bytes_upto(ops, table, pos, i) is None,
    ensures
        spec_ops_bytes_upto(ops, table, pos, k) is None,
    decreases k,
{
    if k > i {
        lemma_ops_bytes_none(ops, table, pos, i, k - 1);
    }
}

/// Run-level length/encode agreement: when the first `i` operations
/// have bytes, their total length is the sum the length model predicts.
pub proof fn lemma_ops_bytes_len(ops: Seq<JitOp>, table: Map<Seq<char>, int>, pos: int, i: int)
    requires
        0 <= i <= ops.len(),
    ensures
        match spec_ops_bytes_upto(ops, table, pos, i) {
            Some(b) => spec_ops_len(ops.subrange(0, i)) == Some(b.len()),
            None => true,
        },
    decreases i,
{
    if i > 0 {
        lemma_ops_bytes_len(ops, table, pos, i - 1);
        assert(ops.subrange(0, i).drop_last() =~= ops.subrange(0, i - 1));
        assert(ops.subrange(0, i).last() == ops[i - 1]);
        match spec_ops_bytes_upto(ops, table, pos, i - 1) {
            Some(acc) => {
                lemma_len_encode_agree(ops[i - 1], table, pos + acc.len());
            },
            None => {},
        }
    }
}

/// In a run whose total length is defined, every single operation has a
/// defined length.
pub proof fn lemma_ops_len_elem(ops: Seq<JitOp>, j: int)
    requires
        0 <= j < ops.len(),
        spec_ops_len(ops) is Some,
    ensures
        ops[j].spec_len() is Some,
    decreases ops.len(),
{
    if j < ops.len() - 1 {
        lemma_ops_len_elem(ops.drop_last(), j);
        assert(ops.drop_last()[j] == ops[j]);
    }
}

/// For a run of operations that all have defined lengths, bytes exist
/// exactly when every call among the first `i` operations resolves.
pub proof fn lemma_ops_bytes_some(ops: Seq<JitOp>, table: Map<Seq<char>, int>, pos: int, i: int)
    requires
        0 <= i <= ops.len(),
        spec_ops_len(ops) is Some,
    ensures
        (spec_ops_bytes_upto(ops, table, pos, i) is Some) <==> (forall|j: int|
            0 <= j < i ==> spec_op_resolved(#[trigger] ops[j], table)),
    decreases i,
{
    if i > 0 {
        lemma_ops_bytes_some(ops, table, pos, i - 1);
        lemma_ops_len_elem(ops, i - 1);
        match spec_ops_bytes_upto(ops, table, pos, i - 1) {
            Some(acc) => {
                lemma_len_encode_agree(ops[i - 1], table, pos + acc.len());
            },
            None => {},
        }
    }
}

/// A well-formed, supported function's bytes are exactly as long as its
/// predicted length, wherever they exist.
pub proof fn lemma_func_bytes_len(f: JitFunction, jit: Jit, pos: int)
    requires
        f.wf(),
        f.supported,
    ensures
        match f.spec_compiled(jit, pos) {
            Some(b) => b.len() == f.len,
            None => true,
        },
{
    lemma_ops_bytes_len(f.ops@, spec_table(jit.funcs@), pos, f.ops@.len() as int);
    assert(f.ops@.subrange(0, f.ops@.len() as int) =~= f.ops@);
}

/// A well-formed, supported function has bytes exactly when all its
/// calls resolve.
pub proof fn lemma_func_bytes_some(f: JitFunction, jit: Jit, pos: int)
    requires
        f.wf(),
        f.supported,
    ensures
        (f.spec_compiled(jit, pos) is Some) <==> (forall|j: int|
            0 <= j < f.ops@.len() ==> spec_op_resolved(#[trigger] f.ops@[j], spec_table(
                jit.funcs@,
            ))),
{
    lemma_ops_bytes_some(f.ops@, spec_table(jit.funcs@), pos, f.ops@.len() as int);
}

/// The predicted length of a prefix never exceeds that of the whole
/// run, when the whole run has one.
pub proof fn lemma_ops_len_prefix(ops: Seq<JitOp>, i: int)
    requires
        0 <= i <= ops.len(),
        spec_ops_len(ops) is Some,
    ensures
        spec_ops_len(ops.subrange(0, i)) is Some,
        spec_ops_len(ops.subrange(0, i))->0 <= spec_ops_len(ops)->0,
    decreases ops.len() - i,
{
    if i < ops.len() {
        lemma_ops_len_prefix(ops, i + 1);
        assert(ops.subrange(0, i + 1).drop_last() =~= ops.subrange(0, i));
        assert(ops.subrange(0, i + 1).last() == ops[i]);
    } else {
        assert(ops.subrange(0, i) =~= ops);
    }
}

impl Compilable for JitFunction {
    open spec fn compile_req(&self, jit: Jit, pos: int) -> bool {
        jit.wf() && self.wf() && self.supported && 0 <= pos && pos + self.len < 0x8000_0000
    }

    open spec fn spec_compiled(&self, jit: Jit, pos: int) -> Option<Seq<u8>> {
        spec_ops_bytes(self.ops@, spec_table(jit.funcs@), pos)
    }

    open spec fn compile_err_ok(&self, jit: Jit, pos: int, e: JitError) -> bool {
        e == JitError::UnresolvedCallTarget && exists|j: int|
            0 <= j < self.ops@.len() && ((#[trigger] self.ops@[j]) matches JitOp::Call(name)
                && !spec_table(jit.funcs@).contains_key(name@))
    }

    /// Emits the function's bytes: each operation in order, every call
    /// resolved against the program's table at the operation's own
    /// offset.
    fn compile(&self, jit: &Jit, pos: usize) -> (r: Result<Vec<u8>, JitError>) {
        let ghost table = spec_table(jit.funcs@);
        let mut vec: Vec<u8> = Vec::new();
        let mut i: usize = 0;
        while i < self.ops.len()
            invariant
                jit.wf(),
                self.wf(),
                self.supported,
                0 <= pos,
                pos + self.len < 0x8000_0000,
                i <= self.ops@.len(),
                table == spec_table(jit.funcs@),
                spec_ops_bytes_upto(self.ops@, table, pos as int, i as int) == Some(vec@),
                spec_ops_len(self.ops@.subrange(0, i as int)) == Some(vec@.len()),
            decreases self.ops@.len() - i,
        {
            proof {
                lemma_ops_len_prefix(self.ops@, i as int);
                assert(spec_ops_len(self.ops@) == Some(self.len as nat));
                assert(vec@.len() <= self.len);
            }
            let op_pos = pos + vec.len();
            let comp = match self.ops[i].compile(jit, op_pos) {
                Ok(c) => c,
                Err(e) => {
                    proof {
                        lemma_ops_len_prefix(self.ops@, i as int + 1);
                        assert(self.ops@.subrange(0, i as int + 1).drop_last() =~= self.ops@
                            .subrange(0, i as int));
                        assert(self.ops@.subrange(0, i as int + 1).last() == self.ops@[i as int]);
                        assert(self.ops@[i as int].spec_len() is Some);
                        assert(spec_ops_bytes_upto(self.ops@, table, pos as int, i as int + 1)
                            is None);
                        lemma_ops_bytes_none(
                            self.ops@,
                            table,
                            pos as int,
                            i as int + 1,
                            self.ops@.len() as int,
                        );
                    }
                    return Err(e);
                },
            };
            let mut comp = comp;
            vec.append(&mut comp);
            i = i + 1;
            proof {
                lemma_ops_bytes_len(self.ops@, table, pos as int, i as int);
            }
        }
        proof {
            assert(self.ops@.subrange(0, self.ops@.len() as int) =~= self.ops@);
        }
        Ok(vec)
    }
}

/// Length/encode agreement: wherever an operation's encoding is defined,
/// the predicted length equals the number of bytes emitted, and where no
/// length is defined (a 64-bit add/subtract immediate) no bytes are
/// defined either.  The only further way bytes can be undefined is an
/// unresolved call target, whose length is nevertheless fixed at five.
pub proof fn lemma_len_encode_agree(op: JitOp, table: Map<Seq<char>, int>, pos: int)
    ensures
        match spec_op_bytes(op, table, pos) {
            Some(b) => spec_op_len(op) == Some(b.len()),
            None => spec_op_len(op) is None || (op matches JitOp::Call(name)
                && !table.contains_key(name@)),
        },
{
    match op {
        JitOp::Mulri(reg, imm) => {
            lemma_mul_div_ri_byte_len(reg, imm, 4);
        },
        JitOp::Divri(reg, imm) => {
            lemma_mul_div_ri_byte_len(reg, imm, 6);
        },
        JitOp::Mulrr(r1, r2) => {
            lemma_mul_div_rr_byte_len(r1, r2, 4);
        },
        JitOp::Divrr(r1, r2) => {
            lemma_mul_div_rr_byte_len(r1, r2, 6);
        },
        JitOp::Movri(reg, imm) => {
            lemma_movri_byte_len(reg, imm);
        },
        JitOp::Pushr(r) => {
            lemma_pushr_len(r);
        },
        JitOp::Popr(r) => {
            lemma_popr_len(r);
        },
        _ => {},
    }
}

} // verus!
