//! The round trip between the assembler's instruction encoder and the
//! machine's decoder: decoding an encoded operation yields the operation
//! back, for every opcode and every legal combination of parameter types.

use vstd::prelude::*;
use crate::MEM_SIZE;
use crate::bytes::{be16_of, be32_of, be32_byte};
use crate::compiler::{
    code_of_any, code_of_di, code_of_rd, code_of_ri, enc_reg, enc_word, op_type_of,
    spec_dir_width, spec_encode_op, spec_op_size, spec_pcb, trunc32,
};
use crate::decoder::{
    code_param_type, pcb_slot, pcb_valid, read_cell, spec_decode_instr, spec_decode_op,
    spec_instr_size, spec_param, spec_param_offset, spec_param_type, spec_param_value,
    spec_reg_ok, unused_mask,
};
use crate::memory::{mem_read_i16, mem_read_i32, wrap};
use crate::ops::{spec_op_code, spec_op_spec, OpType, ParamType};
use crate::types::{op_wf, AnyParam, DirInd, Direct, Indirect, Op, RegDir, RegInd, Register};
use crate::vm_types::{Instruction, Param};

verus! {

/// A direct operand's literal fits the width the opcode gives it.
pub open spec fn dir_fits(d: Direct, w: int) -> bool {
    match d {
        Direct::Label(_) => false,
        Direct::Numeric(n) => if w == 4 {
            i32::MIN <= n <= i32::MAX
        } else {
            i16::MIN <= n <= i16::MAX
        },
    }
}

pub open spec fn ind_fits(ind: Indirect) -> bool {
    match ind {
        Indirect::Label(_) => false,
        Indirect::Numeric(n) => i16::MIN <= n <= i16::MAX,
    }
}

pub open spec fn rd_fits(p: RegDir, w: int) -> bool {
    match p {
        RegDir::Reg(_) => true,
        RegDir::Dir(d) => dir_fits(d, w),
    }
}

pub open spec fn ri_fits(p: RegInd) -> bool {
    match p {
        RegInd::Reg(_) => true,
        RegInd::Ind(d) => ind_fits(d),
    }
}

pub open spec fn di_fits(p: DirInd, w: int) -> bool {
    match p {
        DirInd::Dir(d) => dir_fits(d, w),
        DirInd::Ind(d) => ind_fits(d),
    }
}

pub open spec fn any_fits(p: AnyParam, w: int) -> bool {
    match p {
        AnyParam::Reg(_) => true,
        AnyParam::Dir(d) => dir_fits(d, w),
        AnyParam::Ind(d) => ind_fits(d),
    }
}

/// A well-formed operation whose operands are all numeric (no label
/// references) and fit their wire widths.
pub open spec fn op_concrete(op: Op) -> bool {
    let w = spec_dir_width(op);
    &&& op_wf(op)
    &&& match op {
        Op::Live(d) => dir_fits(d, w),
        Op::Ld(di, _) => di_fits(di, w),
        Op::St(_, ri) => ri_fits(ri),
        Op::Add(..) => true,
        Op::Sub(..) => true,
        Op::And(a, b, _) => any_fits(a, w) && any_fits(b, w),
        Op::Or(a, b, _) => any_fits(a, w) && any_fits(b, w),
        Op::Xor(a, b, _) => any_fits(a, w) && any_fits(b, w),
        Op::Zjmp(d) => dir_fits(d, w),
        Op::Ldi(a, rd, _) => any_fits(a, w) && rd_fits(rd, w),
        Op::Sti(_, a, rd) => any_fits(a, w) && rd_fits(rd, w),
        Op::Fork(d) => dir_fits(d, w),
        Op::Lld(di, _) => di_fits(di, w),
        Op::Lldi(a, rd, _) => any_fits(a, w) && rd_fits(rd, w),
        Op::Lfork(d) => dir_fits(d, w),
        Op::Aff(_) => true,
    }
}

/// The decoded form of a register operand.
pub open spec fn p_reg(r: Register) -> Param {
    Param { kind: ParamType::Register, value: r.0 as i32 }
}

pub open spec fn p_dir(d: Direct) -> Param {
    Param { kind: ParamType::Direct, value: d->Numeric_0 as i32 }
}

pub open spec fn p_ind(d: Indirect) -> Param {
    Param { kind: ParamType::Indirect, value: d->Numeric_0 as i32 }
}

pub open spec fn p_rd(p: RegDir) -> Param {
    match p {
        RegDir::Reg(r) => p_reg(r),
        RegDir::Dir(d) => p_dir(d),
    }
}

pub open spec fn p_ri(p: RegInd) -> Param {
    match p {
        RegInd::Reg(r) => p_reg(r),
        RegInd::Ind(d) => p_ind(d),
    }
}

pub open spec fn p_di(p: DirInd) -> Param {
    match p {
        DirInd::Dir(d) => p_dir(d),
        DirInd::Ind(d) => p_ind(d),
    }
}

pub open spec fn p_any(p: AnyParam) -> Param {
    match p {
        AnyParam::Reg(r) => p_reg(r),
        AnyParam::Dir(d) => p_dir(d),
        AnyParam::Ind(d) => p_ind(d),
    }
}

/// The instruction the decoder should produce for an encoded operation.
pub open spec fn expected_instr(op: Op) -> Instruction {
    let fill = Param::default_spec();
    let ps: (Param, Param, Param) = match op {
        Op::Live(d) => (p_dir(d), fill, fill),
        Op::Ld(di, r) => (p_di(di), p_reg(r), fill),
        Op::St(r, ri) => (p_reg(r), p_ri(ri), fill),
        Op::Add(a, b, c) => (p_reg(a), p_reg(b), p_reg(c)),
        Op::Sub(a, b, c) => (p_reg(a), p_reg(b), p_reg(c)),
        Op::And(a, b, c) => (p_any(a), p_any(b), p_reg(c)),
        Op::Or(a, b, c) => (p_any(a), p_any(b), p_reg(c)),
        Op::Xor(a, b, c) => (p_any(a), p_any(b), p_reg(c)),
        Op::Zjmp(d) => (p_dir(d), fill, fill),
        Op::Ldi(a, rd, c) => (p_any(a), p_rd(rd), p_reg(c)),
        Op::Sti(r, a, rd) => (p_reg(r), p_any(a), p_rd(rd)),
        Op::Fork(d) => (p_dir(d), fill, fill),
        Op::Lld(di, r) => (p_di(di), p_reg(r), fill),
        Op::Lldi(a, rd, c) => (p_any(a), p_rd(rd), p_reg(c)),
        Op::Lfork(d) => (p_dir(d), fill, fill),
        Op::Aff(r) => (p_reg(r), fill, fill),
    };
    Instruction {
        kind: op_type_of(op),
        params: [ps.0, ps.1, ps.2],
        byte_size: spec_op_size(op) as usize,
    }
}

/// The encoded bytes sit in the arena at `addr` without wrapping.
pub open spec fn encoded_at(mem: Seq<u8>, addr: int, op: Op, op_pos: int, m: Map<Seq<char>, int>) -> bool {
    &&& mem.len() == MEM_SIZE
    &&& 0 <= addr
    &&& addr + spec_op_size(op) <= MEM_SIZE
    &&& mem.subrange(addr, addr + spec_op_size(op)) == spec_encode_op(op, op_pos, m)
}

/// Each encoded byte reads back unchanged.
proof fn lemma_mem_bytes(mem: Seq<u8>, addr: int, enc: Seq<u8>)
    requires
        mem.len() == MEM_SIZE,
        0 <= addr,
        addr + enc.len() <= MEM_SIZE,
        mem.subrange(addr, addr + enc.len()) == enc,
    ensures
        forall|k: int| 0 <= k < enc.len() ==> #[trigger] read_cell(mem, addr + k) == enc[k],
{
    assert forall|k: int| 0 <= k < enc.len() implies #[trigger] read_cell(mem, addr + k)
        == enc[k] by {
        vstd::arithmetic::div_mod::lemma_small_mod((addr + k) as nat, MEM_SIZE as nat);
        assert(mem.subrange(addr, addr + enc.len())[k] == mem[addr + k]);
    }
}

/// Extracting each two-bit slot from a packed operand-type byte, and the
/// trailing bits it leaves clear.
proof fn lemma_pcb_bits(c1: u8, c2: u8, c3: u8)
    requires
        c1 <= 3,
        c2 <= 3,
        c3 <= 3,
    ensures
        ((c1 << 6) | (c2 << 4) | (c3 << 2)) >> 6 & 3 == c1,
        ((c1 << 6) | (c2 << 4) | (c3 << 2)) >> 4 & 3 == c2,
        ((c1 << 6) | (c2 << 4) | (c3 << 2)) >> 2 & 3 == c3,
        ((c1 << 6) | (c2 << 4) | (c3 << 2)) & 0x03 == 0,
        ((c1 << 6) | (c2 << 4)) >> 6 & 3 == c1,
        ((c1 << 6) | (c2 << 4)) >> 4 & 3 == c2,
        ((c1 << 6) | (c2 << 4)) & 0x0f == 0,
        (c1 << 6) >> 6 & 3 == c1,
        (c1 << 6) & 0x3f == 0,
{
    assert(c1 <= 3 && c2 <= 3 && c3 <= 3 ==> {
        &&& ((c1 << 6) | (c2 << 4) | (c3 << 2)) >> 6 & 3 == c1
        &&& ((c1 << 6) | (c2 << 4) | (c3 << 2)) >> 4 & 3 == c2
        &&& ((c1 << 6) | (c2 << 4) | (c3 << 2)) >> 2 & 3 == c3
        &&& ((c1 << 6) | (c2 << 4) | (c3 << 2)) & 0x03 == 0
        &&& ((c1 << 6) | (c2 << 4)) >> 6 & 3 == c1
        &&& ((c1 << 6) | (c2 << 4)) >> 4 & 3 == c2
        &&& ((c1 << 6) | (c2 << 4)) & 0x0f == 0
        &&& (c1 << 6) >> 6 & 3 == c1
        &&& (c1 << 6) & 0x3f == 0
    }) by (bit_vector);
}

/// A mask bit is admitted by any mask that contains it.
proof fn lemma_mask_admit()
    ensures
        (1u8 | 2u8) == 3u8,
        (1u8 | 4u8) == 5u8,
        (2u8 | 4u8) == 6u8,
        (1u8 | 2u8 | 4u8) == 7u8,
        (2u8 | 4u8) & 2 == 2,
        (2u8 | 4u8) & 4 == 4,
        1u8 & 1 == 1,
        2u8 & 2 == 2,
        4u8 & 4 == 4,
        6u8 & 2 == 2,
        6u8 & 4 == 4,
        5u8 & 1 == 1,
        5u8 & 4 == 4,
        7u8 & 1 == 1,
        7u8 & 2 == 2,
        7u8 & 4 == 4,
        3u8 & 1 == 1,
        3u8 & 2 == 2,
{
    assert((1u8 | 2u8) == 3u8 && (1u8 | 4u8) == 5u8 && (2u8 | 4u8) == 6u8 && (1u8 | 2u8 | 4u8)
        == 7u8 && 1u8 & 1 == 1 && 2u8 & 2 == 2 && 4u8 & 4 == 4 && 6u8 & 2 == 2 && 6u8 & 4 == 4
        && 5u8 & 1 == 1 && 5u8 & 4 == 4 && 7u8 & 1 == 1 && 7u8 & 2 == 2 && 7u8 & 4 == 4 && 3u8
        & 1 == 1 && 3u8 & 2 == 2) by (bit_vector);
}

/// A four-byte direct reads back as the value written.
proof fn lemma_dir4_round_trip(mem: Seq<u8>, at: int, n: i64)
    requires
        i32::MIN <= n <= i32::MAX,
        forall|k: int| 0 <= k < 4 ==> #[trigger] read_cell(mem, at + k) == enc_word(
            n as int,
            4,
        )[k],
        0 <= at,
        at + 4 <= MEM_SIZE,
        mem.len() == MEM_SIZE,
    ensures
        mem_read_i32(mem, at) == n as i32,
{
    let w = trunc32(n as int);
    crate::bytes::lemma_be32_word_round_trip(w);
    assert forall|k: int| 0 <= k < 4 implies mem[wrap(at + k)] == enc_word(n as int, 4)[k] by {
        vstd::arithmetic::div_mod::lemma_small_mod((at + k) as nat, MEM_SIZE as nat);
        assert(read_cell(mem, at + k) == enc_word(n as int, 4)[k]);
    }
    assert(wrap(at) == wrap(at + 0));
    assert(enc_word(n as int, 4)[0] == be32_byte(w, 0));
    assert(enc_word(n as int, 4)[1] == be32_byte(w, 1));
    assert(enc_word(n as int, 4)[2] == be32_byte(w, 2));
    assert(enc_word(n as int, 4)[3] == be32_byte(w, 3));
    assert(mem[wrap(at + 0)] == be32_byte(w, 0));
    assert(mem[wrap(at + 1)] == be32_byte(w, 1));
    assert(mem[wrap(at + 2)] == be32_byte(w, 2));
    assert(mem[wrap(at + 3)] == be32_byte(w, 3));
    assert(mem_read_i32(mem, at) == be32_of(
        be32_byte(w, 0),
        be32_byte(w, 1),
        be32_byte(w, 2),
        be32_byte(w, 3),
    ));
    assert(mem_read_i32(mem, at) == w as i32);
    lemma_trunc32_i32(n);
}

/// A two-byte direct or indirect reads back sign-extended.
proof fn lemma_dir2_round_trip(mem: Seq<u8>, at: int, n: i64)
    requires
        i16::MIN <= n <= i16::MAX,
        forall|k: int| 0 <= k < 2 ==> #[trigger] read_cell(mem, at + k) == enc_word(
            n as int,
            2,
        )[k],
        0 <= at,
        at + 2 <= MEM_SIZE,
        mem.len() == MEM_SIZE,
    ensures
        mem_read_i16(mem, at) == n as i16,
        mem_read_i16(mem, at) as i32 == n as i32,
{
    let w = trunc32(n as int);
    crate::bytes::lemma_be16_round_trip(w);
    assert forall|k: int| 0 <= k < 2 implies mem[wrap(at + k)] == enc_word(n as int, 2)[k] by {
        vstd::arithmetic::div_mod::lemma_small_mod((at + k) as nat, MEM_SIZE as nat);
        assert(read_cell(mem, at + k) == enc_word(n as int, 2)[k]);
    }
    assert(wrap(at) == wrap(at + 0));
    assert(enc_word(n as int, 2)[0] == be32_byte(w, 2));
    assert(enc_word(n as int, 2)[1] == be32_byte(w, 3));
    assert(mem[wrap(at + 0)] == be32_byte(w, 2));
    assert(mem[wrap(at + 1)] == be32_byte(w, 3));
    assert(mem_read_i16(mem, at) == be16_of(be32_byte(w, 2), be32_byte(w, 3)));
    assert(mem_read_i16(mem, at) == w as i16);
    lemma_trunc32_i16(n);
}

/// The low 32 bits of an in-range value cast back to it.
proof fn lemma_trunc32_i32(n: i64)
    requires
        i32::MIN <= n <= i32::MAX,
    ensures
        trunc32(n as int) as i32 == n as i32,
{
    if n >= 0 {
        vstd::arithmetic::div_mod::lemma_small_mod(n as nat, 0x1_0000_0000);
        assert(trunc32(n as int) == n);
    } else {
        vstd::arithmetic::div_mod::lemma_mod_add_multiples_vanish(n as int, 0x1_0000_0000);
        vstd::arithmetic::div_mod::lemma_small_mod((n + 0x1_0000_0000) as nat, 0x1_0000_0000);
        assert(trunc32(n as int) as int == n + 0x1_0000_0000);
        let w = trunc32(n as int);
        assert(w as int >= 0x8000_0000 ==> (w as i32) as int == w as int - 0x1_0000_0000)
            by (bit_vector);
    }
}

/// The low 32 bits of an in-range value keep its low 16 bits.
proof fn lemma_trunc32_i16(n: i64)
    requires
        i16::MIN <= n <= i16::MAX,
    ensures
        trunc32(n as int) as i16 == n as i16,
        (n as i16) as i32 == n as i32,
{
    if n >= 0 {
        vstd::arithmetic::div_mod::lemma_small_mod(n as nat, 0x1_0000_0000);
        assert(trunc32(n as int) == n);
        let w = trunc32(n as int);
        assert(w as int == n as int && 0 <= n <= 0x7fff ==> w as i16 == n as i16)
            by (bit_vector)
            requires
                w as int == n as int,
                0 <= n <= 0x7fff,
        ;
    } else {
        vstd::arithmetic::div_mod::lemma_mod_add_multiples_vanish(n as int, 0x1_0000_0000);
        vstd::arithmetic::div_mod::lemma_small_mod((n + 0x1_0000_0000) as nat, 0x1_0000_0000);
        let w = trunc32(n as int);
        assert(w as int == n as int + 0x1_0000_0000);
        assert(w as int == n as int + 0x1_0000_0000 && -0x8000 <= n < 0 ==> w as i16 == n as i16)
            by (bit_vector)
            requires
                w as int == n as int + 0x1_0000_0000,
                -0x8000 <= n < 0,
        ;
    }
}

/// The bytes of one operand, located at `off` within the encoding.
proof fn lemma_sub_bytes(mem: Seq<u8>, addr: int, enc: Seq<u8>, off: int, sub: Seq<u8>)
    requires
        mem.len() == MEM_SIZE,
        0 <= addr,
        addr + enc.len() <= MEM_SIZE,
        forall|k: int| 0 <= k < enc.len() ==> #[trigger] read_cell(mem, addr + k) == enc[k],
        0 <= off,
        off + sub.len() <= enc.len(),
        enc.subrange(off, off + sub.len()) == sub,
    ensures
        forall|k: int| 0 <= k < sub.len() ==> #[trigger] read_cell(mem, addr + off + k)
            == sub[k],
{
    assert forall|k: int| 0 <= k < sub.len() implies #[trigger] read_cell(mem, addr + off + k)
        == sub[k] by {
        assert(read_cell(mem, addr + (off + k)) == enc[off + k]);
        assert(enc.subrange(off, off + sub.len())[k] == enc[off + k]);
    }
}

/// The decoder's verdict on an instruction whose operand-type byte packs
/// the codes `c1 c2 c3` and whose three operands lie consecutively after
/// it: it accepts and yields exactly the three decoded parameters.
proof fn lemma_decode_shape3(
    mem: Seq<u8>,
    addr: int,
    t: OpType,
    c1: u8,
    c2: u8,
    c3: u8,
    l1: int,
    l2: int,
    l3: int,
    v1: Param,
    v2: Param,
    v3: Param,
)
    requires
        mem.len() == MEM_SIZE,
        0 <= addr,
        spec_op_spec(t).has_pcb,
        spec_op_spec(t).param_count == 3,
        1 <= c1 <= 3,
        1 <= c2 <= 3,
        1 <= c3 <= 3,
        spec_op_spec(t).param_masks[0] & crate::decoder::code_flag(c1)
            == crate::decoder::code_flag(c1),
        spec_op_spec(t).param_masks[1] & crate::decoder::code_flag(c2)
            == crate::decoder::code_flag(c2),
        spec_op_spec(t).param_masks[2] & crate::decoder::code_flag(c3)
            == crate::decoder::code_flag(c3),
        read_cell(mem, addr + 1) == (c1 << 6) | (c2 << 4) | (c3 << 2),
        v1.kind == code_param_type(c1),
        v2.kind == code_param_type(c2),
        v3.kind == code_param_type(c3),
        l1 == crate::decoder::param_size(v1.kind, spec_op_spec(t).dir_size),
        l2 == crate::decoder::param_size(v2.kind, spec_op_spec(t).dir_size),
        l3 == crate::decoder::param_size(v3.kind, spec_op_spec(t).dir_size),
        addr + 2 + l1 + l2 + l3 <= MEM_SIZE,
        spec_param_value(mem, v1.kind, addr + 2, spec_op_spec(t).dir_size) == v1.value,
        spec_param_value(mem, v2.kind, addr + 2 + l1, spec_op_spec(t).dir_size) == v2.value,
        spec_param_value(mem, v3.kind, addr + 2 + l1 + l2, spec_op_spec(t).dir_size)
            == v3.value,
        v1.kind == ParamType::Register ==> 1 <= read_cell(mem, addr + 2) <= 16,
        v2.kind == ParamType::Register ==> 1 <= read_cell(mem, addr + 2 + l1) <= 16,
        v3.kind == ParamType::Register ==> 1 <= read_cell(mem, addr + 2 + l1 + l2) <= 16,
    ensures
        spec_decode_instr(mem, t, addr) == Ok::<Instruction, crate::decoder::InstrDecodeError>(
            Instruction {
                kind: t,
                params: [v1, v2, v3],
                byte_size: (2 + l1 + l2 + l3) as usize,
            },
        ),
{
    let s = spec_op_spec(t);
    let pcb = read_cell(mem, addr + 1);
    lemma_pcb_bits(c1, c2, c3);
    assert(pcb_slot(pcb, 0) == c1);
    assert(pcb_slot(pcb, 1) == c2);
    assert(pcb_slot(pcb, 2) == c3);
    assert(unused_mask(3) == 0x03);
    assert(pcb & 0x03 == 0);
    assert forall|i: int| 0 <= i < s.param_count implies crate::decoder::slot_ok(pcb, s, i) by {
        if i == 0 {
        } else if i == 1 {
        } else {
        }
    }
    assert(pcb_valid(pcb, s));
    assert(spec_param_type(t, pcb, 0) == v1.kind);
    assert(spec_param_type(t, pcb, 1) == v2.kind);
    assert(spec_param_type(t, pcb, 2) == v3.kind);
    assert(spec_param_offset(t, pcb, 0) == 2);
    assert(spec_param_offset(t, pcb, 1) == 2 + l1);
    assert(spec_param_offset(t, pcb, 2) == 2 + l1 + l2);
    assert(spec_reg_ok(mem, t, pcb, addr, 0));
    assert(spec_reg_ok(mem, t, pcb, addr, 1));
    assert(spec_reg_ok(mem, t, pcb, addr, 2));
    assert(spec_param(mem, t, pcb, addr, 0) == v1);
    assert(spec_param(mem, t, pcb, addr, 1) == v2);
    assert(spec_param(mem, t, pcb, addr, 2) == v3);
    assert(spec_instr_size(t, pcb) == 2 + l1 + l2 + l3);
}

/// The same, for an opcode of two operands.
proof fn lemma_decode_shape2(
    mem: Seq<u8>,
    addr: int,
    t: OpType,
    c1: u8,
    c2: u8,
    l1: int,
    l2: int,
    v1: Param,
    v2: Param,
)
    requires
        mem.len() == MEM_SIZE,
        0 <= addr,
        spec_op_spec(t).has_pcb,
        spec_op_spec(t).param_count == 2,
        1 <= c1 <= 3,
        1 <= c2 <= 3,
        spec_op_spec(t).param_masks[0] & crate::decoder::code_flag(c1)
            == crate::decoder::code_flag(c1),
        spec_op_spec(t).param_masks[1] & crate::decoder::code_flag(c2)
            == crate::decoder::code_flag(c2),
        read_cell(mem, addr + 1) == (c1 << 6) | (c2 << 4),
        v1.kind == code_param_type(c1),
        v2.kind == code_param_type(c2),
        l1 == crate::decoder::param_size(v1.kind, spec_op_spec(t).dir_size),
        l2 == crate::decoder::param_size(v2.kind, spec_op_spec(t).dir_size),
        addr + 2 + l1 + l2 <= MEM_SIZE,
        spec_param_value(mem, v1.kind, addr + 2, spec_op_spec(t).dir_size) == v1.value,
        spec_param_value(mem, v2.kind, addr + 2 + l1, spec_op_spec(t).dir_size) == v2.value,
        v1.kind == ParamType::Register ==> 1 <= read_cell(mem, addr + 2) <= 16,
        v2.kind == ParamType::Register ==> 1 <= read_cell(mem, addr + 2 + l1) <= 16,
    ensures
        spec_decode_instr(mem, t, addr) == Ok::<Instruction, crate::decoder::InstrDecodeError>(
            Instruction {
                kind: t,
                params: [v1, v2, Param::default_spec()],
                byte_size: (2 + l1 + l2) as usize,
            },
        ),
{
    let s = spec_op_spec(t);
    let pcb = read_cell(mem, addr + 1);
    lemma_pcb_bits(c1, c2, 0);
    assert(pcb_slot(pcb, 0) == c1);
    assert(pcb_slot(pcb, 1) == c2);
    assert(unused_mask(2) == 0x0f);
    assert(pcb & 0x0f == 0);
    assert forall|i: int| 0 <= i < s.param_count implies crate::decoder::slot_ok(pcb, s, i) by {
        if i == 0 {
        } else {
        }
    }
    assert(pcb_valid(pcb, s));
    assert(spec_param_type(t, pcb, 0) == v1.kind);
    assert(spec_param_type(t, pcb, 1) == v2.kind);
    assert(spec_param_offset(t, pcb, 0) == 2);
    assert(spec_param_offset(t, pcb, 1) == 2 + l1);
    assert(spec_reg_ok(mem, t, pcb, addr, 0));
    assert(spec_reg_ok(mem, t, pcb, addr, 1));
    assert(spec_param(mem, t, pcb, addr, 0) == v1);
    assert(spec_param(mem, t, pcb, addr, 1) == v2);
    assert(spec_param(mem, t, pcb, addr, 2) == Param::default_spec());
    assert(spec_instr_size(t, pcb) == 2 + l1 + l2);
}

/// The same, for `aff`: one register operand behind an operand-type byte.
proof fn lemma_decode_shape1(mem: Seq<u8>, addr: int, t: OpType, v1: Param)
    requires
        mem.len() == MEM_SIZE,
        0 <= addr,
        addr + 3 <= MEM_SIZE,
        spec_op_spec(t).has_pcb,
        spec_op_spec(t).param_count == 1,
        spec_op_spec(t).param_masks[0] == 1,
        read_cell(mem, addr + 1) == 1u8 << 6,
        v1.kind == ParamType::Register,
        spec_param_value(mem, v1.kind, addr + 2, spec_op_spec(t).dir_size) == v1.value,
        1 <= read_cell(mem, addr + 2) <= 16,
    ensures
        spec_decode_instr(mem, t, addr) == Ok::<Instruction, crate::decoder::InstrDecodeError>(
            Instruction {
                kind: t,
                params: [v1, Param::default_spec(), Param::default_spec()],
                byte_size: 3usize,
            },
        ),
{
    let s = spec_op_spec(t);
    let pcb = read_cell(mem, addr + 1);
    lemma_mask_admit();
    lemma_pcb_bits(1, 0, 0);
    assert(pcb_slot(pcb, 0) == 1);
    assert(unused_mask(1) == 0x3f);
    assert(pcb & 0x3f == 0);
    assert forall|i: int| 0 <= i < s.param_count implies crate::decoder::slot_ok(pcb, s, i) by {
    }
    assert(pcb_valid(pcb, s));
    assert(spec_param_type(t, pcb, 0) == v1.kind);
    assert(spec_param_offset(t, pcb, 0) == 2);
    assert(spec_reg_ok(mem, t, pcb, addr, 0));
    assert(spec_param(mem, t, pcb, addr, 0) == v1);
    assert(spec_param(mem, t, pcb, addr, 1) == Param::default_spec());
    assert(spec_param(mem, t, pcb, addr, 2) == Param::default_spec());
    assert(spec_instr_size(t, pcb) == 3);
}

/// The same, for the four opcodes without an operand-type byte: one direct
/// operand right after the opcode byte.
proof fn lemma_decode_nopcb(mem: Seq<u8>, addr: int, t: OpType, l1: int, v1: Param)
    requires
        mem.len() == MEM_SIZE,
        0 <= addr,
        spec_op_spec(t).has_pcb == false,
        spec_op_spec(t).param_count == 1,
        spec_op_spec(t).param_masks[0] == 2,
        v1.kind == ParamType::Direct,
        l1 == crate::decoder::param_size(v1.kind, spec_op_spec(t).dir_size),
        addr + 1 + l1 <= MEM_SIZE,
        spec_param_value(mem, v1.kind, addr + 1, spec_op_spec(t).dir_size) == v1.value,
    ensures
        spec_decode_instr(mem, t, addr) == Ok::<Instruction, crate::decoder::InstrDecodeError>(
            Instruction {
                kind: t,
                params: [v1, Param::default_spec(), Param::default_spec()],
                byte_size: (1 + l1) as usize,
            },
        ),
{
    let s = spec_op_spec(t);
    let pcb = read_cell(mem, addr + 1);
    assert(crate::decoder::mask_param_type(2) == ParamType::Direct);
    assert(spec_param_type(t, pcb, 0) == v1.kind);
    assert(spec_param_offset(t, pcb, 0) == 1);
    assert(spec_reg_ok(mem, t, pcb, addr, 0));
    assert(spec_param(mem, t, pcb, addr, 0) == v1);
    assert(spec_param(mem, t, pcb, addr, 1) == Param::default_spec());
    assert(spec_param(mem, t, pcb, addr, 2) == Param::default_spec());
    assert(spec_instr_size(t, pcb) == 1 + l1);
}

/// What one encoded operand at `off` guarantees to the decoder: a
/// register byte.
proof fn lemma_operand_reg(
    mem: Seq<u8>,
    addr: int,
    enc: Seq<u8>,
    off: int,
    r: Register,
    ds: crate::ops::DirectSize,
)
    requires
        mem.len() == MEM_SIZE,
        0 <= addr,
        addr + enc.len() <= MEM_SIZE,
        forall|k: int| 0 <= k < enc.len() ==> #[trigger] read_cell(mem, addr + k) == enc[k],
        0 <= off,
        off + 1 <= enc.len(),
        enc.subrange(off, off + 1) == enc_reg(r),
    ensures
        read_cell(mem, addr + off) == r.0,
        spec_param_value(mem, ParamType::Register, addr + off, ds) == r.0 as i32,
{
    lemma_sub_bytes(mem, addr, enc, off, enc_reg(r));
    assert(read_cell(mem, addr + off + 0) == enc_reg(r)[0]);
    assert(addr + off + 0 == addr + off);
}

/// A four-byte direct operand at `off`.
proof fn lemma_operand_dir4(mem: Seq<u8>, addr: int, enc: Seq<u8>, off: int, n: i64)
    requires
        mem.len() == MEM_SIZE,
        0 <= addr,
        addr + enc.len() <= MEM_SIZE,
        forall|k: int| 0 <= k < enc.len() ==> #[trigger] read_cell(mem, addr + k) == enc[k],
        0 <= off,
        off + 4 <= enc.len(),
        enc.subrange(off, off + 4) == enc_word(n as int, 4),
        i32::MIN <= n <= i32::MAX,
    ensures
        spec_param_value(mem, ParamType::Direct, addr + off, crate::ops::DirectSize::FourBytes)
            == n as i32,
{
    lemma_sub_bytes(mem, addr, enc, off, enc_word(n as int, 4));
    lemma_dir4_round_trip(mem, addr + off, n);
}

/// A two-byte direct operand at `off`.
proof fn lemma_operand_dir2(mem: Seq<u8>, addr: int, enc: Seq<u8>, off: int, n: i64)
    requires
        mem.len() == MEM_SIZE,
        0 <= addr,
        addr + enc.len() <= MEM_SIZE,
        forall|k: int| 0 <= k < enc.len() ==> #[trigger] read_cell(mem, addr + k) == enc[k],
        0 <= off,
        off + 2 <= enc.len(),
        enc.subrange(off, off + 2) == enc_word(n as int, 2),
        i16::MIN <= n <= i16::MAX,
    ensures
        spec_param_value(mem, ParamType::Direct, addr + off, crate::ops::DirectSize::TwoBytes)
            == n as i32,
{
    lemma_sub_bytes(mem, addr, enc, off, enc_word(n as int, 2));
    lemma_dir2_round_trip(mem, addr + off, n);
}

/// A two-byte indirect operand at `off`.
proof fn lemma_operand_ind(
    mem: Seq<u8>,
    addr: int,
    enc: Seq<u8>,
    off: int,
    n: i64,
    ds: crate::ops::DirectSize,
)
    requires
        mem.len() == MEM_SIZE,
        0 <= addr,
        addr + enc.len() <= MEM_SIZE,
        forall|k: int| 0 <= k < enc.len() ==> #[trigger] read_cell(mem, addr + k) == enc[k],
        0 <= off,
        off + 2 <= enc.len(),
        enc.subrange(off, off + 2) == enc_word(n as int, 2),
        i16::MIN <= n <= i16::MAX,
    ensures
        spec_param_value(mem, ParamType::Indirect, addr + off, ds) == n as i32,
{
    lemma_sub_bytes(mem, addr, enc, off, enc_word(n as int, 2));
    lemma_dir2_round_trip(mem, addr + off, n);
}

/// An operand of any shape at `off`: its decoded type, size, value and
/// register bound.
proof fn lemma_operand_any(
    mem: Seq<u8>,
    addr: int,
    enc: Seq<u8>,
    off: int,
    p: AnyParam,
    w: int,
    ds: crate::ops::DirectSize,
    m: Map<Seq<char>, int>,
    op_pos: int,
)
    requires
        mem.len() == MEM_SIZE,
        0 <= addr,
        addr + enc.len() <= MEM_SIZE,
        forall|k: int| 0 <= k < enc.len() ==> #[trigger] read_cell(mem, addr + k) == enc[k],
        0 <= off,
        off + crate::compiler::size_of_any(p, w) <= enc.len(),
        enc.subrange(off, off + crate::compiler::size_of_any(p, w)) == crate::compiler::enc_any(
            p,
            w,
            m,
            op_pos,
        ),
        any_fits(p, w),
        crate::types::any_wf(p),
        ds.spec_byte_count() == w,
    ensures
        p_any(p).kind == code_param_type(code_of_any(p)),
        1 <= code_of_any(p) <= 3,
        crate::compiler::size_of_any(p, w) == crate::decoder::param_size(p_any(p).kind, ds),
        spec_param_value(mem, p_any(p).kind, addr + off, ds) == p_any(p).value,
        p_any(p).kind == ParamType::Register ==> 1 <= read_cell(mem, addr + off) <= 16,
{
    match p {
        AnyParam::Reg(r) => {
            lemma_operand_reg(mem, addr, enc, off, r, ds);
        },
        AnyParam::Dir(d) => {
            let n = d->Numeric_0;
            if w == 4 {
                lemma_operand_dir4(mem, addr, enc, off, n);
            } else {
                lemma_operand_dir2(mem, addr, enc, off, n);
            }
        },
        AnyParam::Ind(d) => {
            lemma_operand_ind(mem, addr, enc, off, d->Numeric_0, ds);
        },
    }
}

/// A register-or-direct operand at `off`.
proof fn lemma_operand_rd(
    mem: Seq<u8>,
    addr: int,
    enc: Seq<u8>,
    off: int,
    p: RegDir,
    w: int,
    ds: crate::ops::DirectSize,
    m: Map<Seq<char>, int>,
    op_pos: int,
)
    requires
        mem.len() == MEM_SIZE,
        0 <= addr,
        addr + enc.len() <= MEM_SIZE,
        forall|k: int| 0 <= k < enc.len() ==> #[trigger] read_cell(mem, addr + k) == enc[k],
        0 <= off,
        off + crate::compiler::size_of_rd(p, w) <= enc.len(),
        enc.subrange(off, off + crate::compiler::size_of_rd(p, w)) == crate::compiler::enc_rd(
            p,
            w,
            m,
            op_pos,
        ),
        rd_fits(p, w),
        crate::types::reg_dir_wf(p),
        ds.spec_byte_count() == w,
    ensures
        p_rd(p).kind == code_param_type(code_of_rd(p)),
        1 <= code_of_rd(p) <= 3,
        crate::compiler::size_of_rd(p, w) == crate::decoder::param_size(p_rd(p).kind, ds),
        spec_param_value(mem, p_rd(p).kind, addr + off, ds) == p_rd(p).value,
        p_rd(p).kind == ParamType::Register ==> 1 <= read_cell(mem, addr + off) <= 16,
{
    match p {
        RegDir::Reg(r) => {
            lemma_operand_reg(mem, addr, enc, off, r, ds);
        },
        RegDir::Dir(d) => {
            let n = d->Numeric_0;
            if w == 4 {
                lemma_operand_dir4(mem, addr, enc, off, n);
            } else {
                lemma_operand_dir2(mem, addr, enc, off, n);
            }
        },
    }
}

/// A register-or-indirect operand at `off`.
proof fn lemma_operand_ri(
    mem: Seq<u8>,
    addr: int,
    enc: Seq<u8>,
    off: int,
    p: RegInd,
    ds: crate::ops::DirectSize,
    m: Map<Seq<char>, int>,
    op_pos: int,
)
    requires
        mem.len() == MEM_SIZE,
        0 <= addr,
        addr + enc.len() <= MEM_SIZE,
        forall|k: int| 0 <= k < enc.len() ==> #[trigger] read_cell(mem, addr + k) == enc[k],
        0 <= off,
        off + crate::compiler::size_of_ri(p) <= enc.len(),
        enc.subrange(off, off + crate::compiler::size_of_ri(p)) == crate::compiler::enc_ri(
            p,
            m,
            op_pos,
        ),
        ri_fits(p),
        crate::types::reg_ind_wf(p),
    ensures
        p_ri(p).kind == code_param_type(code_of_ri(p)),
        1 <= code_of_ri(p) <= 3,
        crate::compiler::size_of_ri(p) == crate::decoder::param_size(p_ri(p).kind, ds),
        spec_param_value(mem, p_ri(p).kind, addr + off, ds) == p_ri(p).value,
        p_ri(p).kind == ParamType::Register ==> 1 <= read_cell(mem, addr + off) <= 16,
{
    match p {
        RegInd::Reg(r) => {
            lemma_operand_reg(mem, addr, enc, off, r, ds);
        },
        RegInd::Ind(d) => {
            lemma_operand_ind(mem, addr, enc, off, d->Numeric_0, ds);
        },
    }
}

/// A direct-or-indirect operand at `off`.
proof fn lemma_operand_di(
    mem: Seq<u8>,
    addr: int,
    enc: Seq<u8>,
    off: int,
    p: DirInd,
    w: int,
    ds: crate::ops::DirectSize,
    m: Map<Seq<char>, int>,
    op_pos: int,
)
    requires
        mem.len() == MEM_SIZE,
        0 <= addr,
        addr + enc.len() <= MEM_SIZE,
        forall|k: int| 0 <= k < enc.len() ==> #[trigger] read_cell(mem, addr + k) == enc[k],
        0 <= off,
        off + crate::compiler::size_of_di(p, w) <= enc.len(),
        enc.subrange(off, off + crate::compiler::size_of_di(p, w)) == crate::compiler::enc_di(
            p,
            w,
            m,
            op_pos,
        ),
        di_fits(p, w),
        ds.spec_byte_count() == w,
    ensures
        p_di(p).kind == code_param_type(code_of_di(p)),
        1 <= code_of_di(p) <= 3,
        crate::compiler::size_of_di(p, w) == crate::decoder::param_size(p_di(p).kind, ds),
        spec_param_value(mem, p_di(p).kind, addr + off, ds) == p_di(p).value,
        p_di(p).kind != ParamType::Register,
{
    match p {
        DirInd::Dir(d) => {
            let n = d->Numeric_0;
            if w == 4 {
                lemma_operand_dir4(mem, addr, enc, off, n);
            } else {
                lemma_operand_dir2(mem, addr, enc, off, n);
            }
        },
        DirInd::Ind(d) => {
            lemma_operand_ind(mem, addr, enc, off, d->Numeric_0, ds);
        },
    }
}

proof fn lemma_case_live(mem: Seq<u8>, addr: int, op_pos: int, m: Map<Seq<char>, int>, d: Direct)
    requires
        op_concrete(Op::Live(d)),
        encoded_at(mem, addr, Op::Live(d), op_pos, m),
    ensures
        spec_decode_instr(mem, op_type_of(Op::Live(d)), addr) == Ok::<
            Instruction,
            crate::decoder::InstrDecodeError,
        >(expected_instr(Op::Live(d))),
{
    let op = Op::Live(d);
    let t = op_type_of(op);
    let s = spec_op_spec(t);
    let enc = spec_encode_op(op, op_pos, m);
    crate::compiler::lemma_encode_op_len(op, op_pos, m);
    lemma_mem_bytes(mem, addr, enc);
    lemma_mask_admit();
    let n = d->Numeric_0;
    let e1 = enc_word(n as int, 4);
    assert(enc =~= seq![spec_op_code(t)] + e1);
    assert(enc.subrange(1int, 1 + 4int) =~= e1);
    lemma_operand_dir4(mem, addr, enc, 1, n);
    lemma_decode_nopcb(mem, addr, t, 4, p_dir(d));
    assert(spec_op_size(op) == 1 + 4);
    assert(expected_instr(op) == (Instruction {
        kind: t,
        params: [p_dir(d), Param::default_spec(), Param::default_spec()],
        byte_size: (1 + 4) as usize,
    }));
}

proof fn lemma_case_zjmp(mem: Seq<u8>, addr: int, op_pos: int, m: Map<Seq<char>, int>, d: Direct)
    requires
        op_concrete(Op::Zjmp(d)),
        encoded_at(mem, addr, Op::Zjmp(d), op_pos, m),
    ensures
        spec_decode_instr(mem, op_type_of(Op::Zjmp(d)), addr) == Ok::<
            Instruction,
            crate::decoder::InstrDecodeError,
        >(expected_instr(Op::Zjmp(d))),
{
    let op = Op::Zjmp(d);
    let t = op_type_of(op);
    let s = spec_op_spec(t);
    let enc = spec_encode_op(op, op_pos, m);
    crate::compiler::lemma_encode_op_len(op, op_pos, m);
    lemma_mem_bytes(mem, addr, enc);
    lemma_mask_admit();
    let n = d->Numeric_0;
    let e1 = enc_word(n as int, 2);
    assert(enc =~= seq![spec_op_code(t)] + e1);
    assert(enc.subrange(1int, 1 + 2int) =~= e1);
    lemma_operand_dir2(mem, addr, enc, 1, n);
    lemma_decode_nopcb(mem, addr, t, 2, p_dir(d));
    assert(spec_op_size(op) == 1 + 2);
    assert(expected_instr(op) == (Instruction {
        kind: t,
        params: [p_dir(d), Param::default_spec(), Param::default_spec()],
        byte_size: (1 + 2) as usize,
    }));
}

proof fn lemma_case_fork(mem: Seq<u8>, addr: int, op_pos: int, m: Map<Seq<char>, int>, d: Direct)
    requires
        op_concrete(Op::Fork(d)),
        encoded_at(mem, addr, Op::Fork(d), op_pos, m),
    ensures
        spec_decode_instr(mem, op_type_of(Op::Fork(d)), addr) == Ok::<
            Instruction,
            crate::decoder::InstrDecodeError,
        >(expected_instr(Op::Fork(d))),
{
    let op = Op::Fork(d);
    let t = op_type_of(op);
    let s = spec_op_spec(t);
    let enc = spec_encode_op(op, op_pos, m);
    crate::compiler::lemma_encode_op_len(op, op_pos, m);
    lemma_mem_bytes(mem, addr, enc);
    lemma_mask_admit();
    let n = d->Numeric_0;
    let e1 = enc_word(n as int, 2);
    assert(enc =~= seq![spec_op_code(t)] + e1);
    assert(enc.subrange(1int, 1 + 2int) =~= e1);
    lemma_operand_dir2(mem, addr, enc, 1, n);
    lemma_decode_nopcb(mem, addr, t, 2, p_dir(d));
    assert(spec_op_size(op) == 1 + 2);
    assert(expected_instr(op) == (Instruction {
        kind: t,
        params: [p_dir(d), Param::default_spec(), Param::default_spec()],
        byte_size: (1 + 2) as usize,
    }));
}

proof fn lemma_case_lfork(mem: Seq<u8>, addr: int, op_pos: int, m: Map<Seq<char>, int>, d: Direct)
    requires
        op_concrete(Op::Lfork(d)),
        encoded_at(mem, addr, Op::Lfork(d), op_pos, m),
    ensures
        spec_decode_instr(mem, op_type_of(Op::Lfork(d)), addr) == Ok::<
            Instruction,
            crate::decoder::InstrDecodeError,
        >(expected_instr(Op::Lfork(d))),
{
    let op = Op::Lfork(d);
    let t = op_type_of(op);
    let s = spec_op_spec(t);
    let enc = spec_encode_op(op, op_pos, m);
    crate::compiler::lemma_encode_op_len(op, op_pos, m);
    lemma_mem_bytes(mem, addr, enc);
    lemma_mask_admit();
    let n = d->Numeric_0;
    let e1 = enc_word(n as int, 2);
    assert(enc =~= seq![spec_op_code(t)] + e1);
    assert(enc.subrange(1int, 1 + 2int) =~= e1);
    lemma_operand_dir2(mem, addr, enc, 1, n);
    lemma_decode_nopcb(mem, addr, t, 2, p_dir(d));
    assert(spec_op_size(op) == 1 + 2);
    assert(expected_instr(op) == (Instruction {
        kind: t,
        params: [p_dir(d), Param::default_spec(), Param::default_spec()],
        byte_size: (1 + 2) as usize,
    }));
}

proof fn lemma_case_ld(mem: Seq<u8>, addr: int, op_pos: int, m: Map<Seq<char>, int>, di: DirInd, r: Register)
    requires
        op_concrete(Op::Ld(di, r)),
        encoded_at(mem, addr, Op::Ld(di, r), op_pos, m),
    ensures
        spec_decode_instr(mem, op_type_of(Op::Ld(di, r)), addr) == Ok::<
            Instruction,
            crate::decoder::InstrDecodeError,
        >(expected_instr(Op::Ld(di, r))),
{
    let op = Op::Ld(di, r);
    let t = op_type_of(op);
    let s = spec_op_spec(t);
    let enc = spec_encode_op(op, op_pos, m);
    crate::compiler::lemma_encode_op_len(op, op_pos, m);
    lemma_mem_bytes(mem, addr, enc);
    lemma_mask_admit();
    let w = 4;
    let ds = spec_op_spec(t).dir_size;
    let e1 = crate::compiler::enc_di(di, w, m, op_pos);
    let e2 = enc_reg(r);
    let l1 = crate::compiler::size_of_di(di, w);
    assert(enc =~= seq![spec_op_code(t), spec_pcb(op)] + e1 + e2);
    assert(enc.subrange(2, 2 + l1) =~= e1);
    assert(enc.subrange(2 + l1, 2 + l1 + 1) =~= e2);
    assert(read_cell(mem, addr + 1) == enc[1]);
    lemma_operand_di(mem, addr, enc, 2, di, w, ds, m, op_pos);
    lemma_operand_reg(mem, addr, enc, 2 + l1, r, ds);
    lemma_decode_shape2(
        mem,
        addr,
        t,
        code_of_di(di),
        1,
        l1,
        1,
        p_di(di),
        p_reg(r),
    );
    assert(spec_op_size(op) == 2 + l1 + 1);
    assert(expected_instr(op) == (Instruction {
        kind: t,
        params: [p_di(di), p_reg(r), Param::default_spec()],
        byte_size: (2 + l1 + 1) as usize,
    }));
}

proof fn lemma_case_lld(mem: Seq<u8>, addr: int, op_pos: int, m: Map<Seq<char>, int>, di: DirInd, r: Register)
    requires
        op_concrete(Op::Lld(di, r)),
        encoded_at(mem, addr, Op::Lld(di, r), op_pos, m),
    ensures
        spec_decode_instr(mem, op_type_of(Op::Lld(di, r)), addr) == Ok::<
            Instruction,
            crate::decoder::InstrDecodeError,
        >(expected_instr(Op::Lld(di, r))),
{
    let op = Op::Lld(di, r);
    let t = op_type_of(op);
    let s = spec_op_spec(t);
    let enc = spec_encode_op(op, op_pos, m);
    crate::compiler::lemma_encode_op_len(op, op_pos, m);
    lemma_mem_bytes(mem, addr, enc);
    lemma_mask_admit();
    let w = 4;
    let ds = spec_op_spec(t).dir_size;
    let e1 = crate::compiler::enc_di(di, w, m, op_pos);
    let e2 = enc_reg(r);
    let l1 = crate::compiler::size_of_di(di, w);
    assert(enc =~= seq![spec_op_code(t), spec_pcb(op)] + e1 + e2);
    assert(enc.subrange(2, 2 + l1) =~= e1);
    assert(enc.subrange(2 + l1, 2 + l1 + 1) =~= e2);
    assert(read_cell(mem, addr + 1) == enc[1]);
    lemma_operand_di(mem, addr, enc, 2, di, w, ds, m, op_pos);
    lemma_operand_reg(mem, addr, enc, 2 + l1, r, ds);
    lemma_decode_shape2(
        mem,
        addr,
        t,
        code_of_di(di),
        1,
        l1,
        1,
        p_di(di),
        p_reg(r),
    );
    assert(spec_op_size(op) == 2 + l1 + 1);
    assert(expected_instr(op) == (Instruction {
        kind: t,
        params: [p_di(di), p_reg(r), Param::default_spec()],
        byte_size: (2 + l1 + 1) as usize,
    }));
}

proof fn lemma_case_st(mem: Seq<u8>, addr: int, op_pos: int, m: Map<Seq<char>, int>, r: Register, ri: RegInd)
    requires
        op_concrete(Op::St(r, ri)),
        encoded_at(mem, addr, Op::St(r, ri), op_pos, m),
    ensures
        spec_decode_instr(mem, op_type_of(Op::St(r, ri)), addr) == Ok::<
            Instruction,
            crate::decoder::InstrDecodeError,
        >(expected_instr(Op::St(r, ri))),
{
    let op = Op::St(r, ri);
    let t = op_type_of(op);
    let s = spec_op_spec(t);
    let enc = spec_encode_op(op, op_pos, m);
    crate::compiler::lemma_encode_op_len(op, op_pos, m);
    lemma_mem_bytes(mem, addr, enc);
    lemma_mask_admit();
    let ds = spec_op_spec(t).dir_size;
    let e1 = enc_reg(r);
    let e2 = crate::compiler::enc_ri(ri, m, op_pos);
    let l2 = crate::compiler::size_of_ri(ri);
    assert(enc =~= seq![spec_op_code(t), spec_pcb(op)] + e1 + e2);
    assert(enc.subrange(2int, 2 + 1int) =~= e1);
    assert(enc.subrange(2 + 1int, 2 + 1 + l2) =~= e2);
    assert(read_cell(mem, addr + 1) == enc[1]);
    lemma_operand_reg(mem, addr, enc, 2, r, ds);
    lemma_operand_ri(mem, addr, enc, 2 + 1int, ri, ds, m, op_pos);
    lemma_decode_shape2(mem, addr, t, 1, code_of_ri(ri), 1, l2, p_reg(r), p_ri(ri));
    assert(spec_op_size(op) == 2 + 1 + l2);
    assert(expected_instr(op) == (Instruction {
        kind: t,
        params: [p_reg(r), p_ri(ri), Param::default_spec()],
        byte_size: (2 + 1 + l2) as usize,
    }));
}

proof fn lemma_case_add(mem: Seq<u8>, addr: int, op_pos: int, m: Map<Seq<char>, int>, a: Register, b: Register, c: Register)
    requires
        op_concrete(Op::Add(a, b, c)),
        encoded_at(mem, addr, Op::Add(a, b, c), op_pos, m),
    ensures
        spec_decode_instr(mem, op_type_of(Op::Add(a, b, c)), addr) == Ok::<
            Instruction,
            crate::decoder::InstrDecodeError,
        >(expected_instr(Op::Add(a, b, c))),
{
    let op = Op::Add(a, b, c);
    let t = op_type_of(op);
    let s = spec_op_spec(t);
    let enc = spec_encode_op(op, op_pos, m);
    crate::compiler::lemma_encode_op_len(op, op_pos, m);
    lemma_mem_bytes(mem, addr, enc);
    lemma_mask_admit();
    let ds = spec_op_spec(t).dir_size;
    let e1 = enc_reg(a);
    let e2 = enc_reg(b);
    let e3 = enc_reg(c);
    assert(enc =~= seq![spec_op_code(t), spec_pcb(op)] + e1 + e2 + e3);
    assert(enc.subrange(2int, 3int) =~= e1);
    assert(enc.subrange(3int, 4int) =~= e2);
    assert(enc.subrange(4int, 5int) =~= e3);
    assert(read_cell(mem, addr + 1) == enc[1]);
    lemma_operand_reg(mem, addr, enc, 2, a, ds);
    lemma_operand_reg(mem, addr, enc, 3, b, ds);
    lemma_operand_reg(mem, addr, enc, 4, c, ds);
    lemma_decode_shape3(mem, addr, t, 1, 1, 1, 1, 1, 1, p_reg(a), p_reg(b), p_reg(c));
    assert(spec_op_size(op) == 5);
    assert(expected_instr(op) == (Instruction {
        kind: t,
        params: [p_reg(a), p_reg(b), p_reg(c)],
        byte_size: 5usize,
    }));
}

proof fn lemma_case_sub(mem: Seq<u8>, addr: int, op_pos: int, m: Map<Seq<char>, int>, a: Register, b: Register, c: Register)
    requires
        op_concrete(Op::Sub(a, b, c)),
        encoded_at(mem, addr, Op::Sub(a, b, c), op_pos, m),
    ensures
        spec_decode_instr(mem, op_type_of(Op::Sub(a, b, c)), addr) == Ok::<
            Instruction,
            crate::decoder::InstrDecodeError,
        >(expected_instr(Op::Sub(a, b, c))),
{
    let op = Op::Sub(a, b, c);
    let t = op_type_of(op);
    let s = spec_op_spec(t);
    let enc = spec_encode_op(op, op_pos, m);
    crate::compiler::lemma_encode_op_len(op, op_pos, m);
    lemma_mem_bytes(mem, addr, enc);
    lemma_mask_admit();
    let ds = spec_op_spec(t).dir_size;
    let e1 = enc_reg(a);
    let e2 = enc_reg(b);
    let e3 = enc_reg(c);
    assert(enc =~= seq![spec_op_code(t), spec_pcb(op)] + e1 + e2 + e3);
    assert(enc.subrange(2int, 3int) =~= e1);
    assert(enc.subrange(3int, 4int) =~= e2);
    assert(enc.subrange(4int, 5int) =~= e3);
    assert(read_cell(mem, addr + 1) == enc[1]);
    lemma_operand_reg(mem, addr, enc, 2, a, ds);
    lemma_operand_reg(mem, addr, enc, 3, b, ds);
    lemma_operand_reg(mem, addr, enc, 4, c, ds);
    lemma_decode_shape3(mem, addr, t, 1, 1, 1, 1, 1, 1, p_reg(a), p_reg(b), p_reg(c));
    assert(spec_op_size(op) == 5);
    assert(expected_instr(op) == (Instruction {
        kind: t,
        params: [p_reg(a), p_reg(b), p_reg(c)],
        byte_size: 5usize,
    }));
}

proof fn lemma_case_and(mem: Seq<u8>, addr: int, op_pos: int, m: Map<Seq<char>, int>, a: AnyParam, b: AnyParam, c: Register)
    requires
        op_concrete(Op::And(a, b, c)),
        encoded_at(mem, addr, Op::And(a, b, c), op_pos, m),
    ensures
        spec_decode_instr(mem, op_type_of(Op::And(a, b, c)), addr) == Ok::<
            Instruction,
            crate::decoder::InstrDecodeError,
        >(expected_instr(Op::And(a, b, c))),
{
    let op = Op::And(a, b, c);
    let t = op_type_of(op);
    let s = spec_op_spec(t);
    let enc = spec_encode_op(op, op_pos, m);
    crate::compiler::lemma_encode_op_len(op, op_pos, m);
    lemma_mem_bytes(mem, addr, enc);
    lemma_mask_admit();
    let w = 4int;
    let ds = spec_op_spec(t).dir_size;
    let e1 = crate::compiler::enc_any(a, w, m, op_pos);
    let e2 = crate::compiler::enc_any(b, w, m, op_pos);
    let e3 = enc_reg(c);
    let l1 = crate::compiler::size_of_any(a, w);
    let l2 = crate::compiler::size_of_any(b, w);
    assert(enc =~= seq![spec_op_code(t), spec_pcb(op)] + e1 + e2 + e3);
    assert(enc.subrange(2, 2 + l1) =~= e1);
    assert(enc.subrange(2 + l1, 2 + l1 + l2) =~= e2);
    assert(enc.subrange(2 + l1 + l2, 2 + l1 + l2 + 1) =~= e3);
    assert(read_cell(mem, addr + 1) == enc[1]);
    lemma_operand_any(mem, addr, enc, 2, a, w, ds, m, op_pos);
    lemma_operand_any(mem, addr, enc, 2 + l1, b, w, ds, m, op_pos);
    lemma_operand_reg(mem, addr, enc, 2 + l1 + l2, c, ds);
    lemma_decode_shape3(
        mem,
        addr,
        t,
        code_of_any(a),
        code_of_any(b),
        1,
        l1,
        l2,
        1,
        p_any(a),
        p_any(b),
        p_reg(c),
    );
    assert(spec_op_size(op) == 2 + l1 + l2 + 1);
    assert(expected_instr(op) == (Instruction {
        kind: t,
        params: [p_any(a), p_any(b), p_reg(c)],
        byte_size: (2 + l1 + l2 + 1) as usize,
    }));
}

proof fn lemma_case_or(mem: Seq<u8>, addr: int, op_pos: int, m: Map<Seq<char>, int>, a: AnyParam, b: AnyParam, c: Register)
    requires
        op_concrete(Op::Or(a, b, c)),
        encoded_at(mem, addr, Op::Or(a, b, c), op_pos, m),
    ensures
        spec_decode_instr(mem, op_type_of(Op::Or(a, b, c)), addr) == Ok::<
            Instruction,
            crate::decoder::InstrDecodeError,
        >(expected_instr(Op::Or(a, b, c))),
{
    let op = Op::Or(a, b, c);
    let t = op_type_of(op);
    let s = spec_op_spec(t);
    let enc = spec_encode_op(op, op_pos, m);
    crate::compiler::lemma_encode_op_len(op, op_pos, m);
    lemma_mem_bytes(mem, addr, enc);
    lemma_mask_admit();
    let w = 4int;
    let ds = spec_op_spec(t).dir_size;
    let e1 = crate::compiler::enc_any(a, w, m, op_pos);
    let e2 = crate::compiler::enc_any(b, w, m, op_pos);
    let e3 = enc_reg(c);
    let l1 = crate::compiler::size_of_any(a, w);
    let l2 = crate::compiler::size_of_any(b, w);
    assert(enc =~= seq![spec_op_code(t), spec_pcb(op)] + e1 + e2 + e3);
    assert(enc.subrange(2, 2 + l1) =~= e1);
    assert(enc.subrange(2 + l1, 2 + l1 + l2) =~= e2);
    assert(enc.subrange(2 + l1 + l2, 2 + l1 + l2 + 1) =~= e3);
    assert(read_cell(mem, addr + 1) == enc[1]);
    lemma_operand_any(mem, addr, enc, 2, a, w, ds, m, op_pos);
    lemma_operand_any(mem, addr, enc, 2 + l1, b, w, ds, m, op_pos);
    lemma_operand_reg(mem, addr, enc, 2 + l1 + l2, c, ds);
    lemma_decode_shape3(
        mem,
        addr,
        t,
        code_of_any(a),
        code_of_any(b),
        1,
        l1,
        l2,
        1,
        p_any(a),
        p_any(b),
        p_reg(c),
    );
    assert(spec_op_size(op) == 2 + l1 + l2 + 1);
    assert(expected_instr(op) == (Instruction {
        kind: t,
        params: [p_any(a), p_any(b), p_reg(c)],
        byte_size: (2 + l1 + l2 + 1) as usize,
    }));
}

proof fn lemma_case_xor(mem: Seq<u8>, addr: int, op_pos: int, m: Map<Seq<char>, int>, a: AnyParam, b: AnyParam, c: Register)
    requires
        op_concrete(Op::Xor(a, b, c)),
        encoded_at(mem, addr, Op::Xor(a, b, c), op_pos, m),
    ensures
        spec_decode_instr(mem, op_type_of(Op::Xor(a, b, c)), addr) == Ok::<
            Instruction,
            crate::decoder::InstrDecodeError,
        >(expected_instr(Op::Xor(a, b, c))),
{
    let op = Op::Xor(a, b, c);
    let t = op_type_of(op);
    let s = spec_op_spec(t);
    let enc = spec_encode_op(op, op_pos, m);
    crate::compiler::lemma_encode_op_len(op, op_pos, m);
    lemma_mem_bytes(mem, addr, enc);
    lemma_mask_admit();
    let w = 4int;
    let ds = spec_op_spec(t).dir_size;
    let e1 = crate::compiler::enc_any(a, w, m, op_pos);
    let e2 = crate::compiler::enc_any(b, w, m, op_pos);
    let e3 = enc_reg(c);
    let l1 = crate::compiler::size_of_any(a, w);
    let l2 = crate::compiler::size_of_any(b, w);
    assert(enc =~= seq![spec_op_code(t), spec_pcb(op)] + e1 + e2 + e3);
    assert(enc.subrange(2, 2 + l1) =~= e1);
    assert(enc.subrange(2 + l1, 2 + l1 + l2) =~= e2);
    assert(enc.subrange(2 + l1 + l2, 2 + l1 + l2 + 1) =~= e3);
    assert(read_cell(mem, addr + 1) == enc[1]);
    lemma_operand_any(mem, addr, enc, 2, a, w, ds, m, op_pos);
    lemma_operand_any(mem, addr, enc, 2 + l1, b, w, ds, m, op_pos);
    lemma_operand_reg(mem, addr, enc, 2 + l1 + l2, c, ds);
    lemma_decode_shape3(
        mem,
        addr,
        t,
        code_of_any(a),
        code_of_any(b),
        1,
        l1,
        l2,
        1,
        p_any(a),
        p_any(b),
        p_reg(c),
    );
    assert(spec_op_size(op) == 2 + l1 + l2 + 1);
    assert(expected_instr(op) == (Instruction {
        kind: t,
        params: [p_any(a), p_any(b), p_reg(c)],
        byte_size: (2 + l1 + l2 + 1) as usize,
    }));
}

proof fn lemma_case_ldi(mem: Seq<u8>, addr: int, op_pos: int, m: Map<Seq<char>, int>, a: AnyParam, rd: RegDir, c: Register)
    requires
        op_concrete(Op::Ldi(a, rd, c)),
        encoded_at(mem, addr, Op::Ldi(a, rd, c), op_pos, m),
    ensures
        spec_decode_instr(mem, op_type_of(Op::Ldi(a, rd, c)), addr) == Ok::<
            Instruction,
            crate::decoder::InstrDecodeError,
        >(expected_instr(Op::Ldi(a, rd, c))),
{
    let op = Op::Ldi(a, rd, c);
    let t = op_type_of(op);
    let s = spec_op_spec(t);
    let enc = spec_encode_op(op, op_pos, m);
    crate::compiler::lemma_encode_op_len(op, op_pos, m);
    lemma_mem_bytes(mem, addr, enc);
    lemma_mask_admit();
    let w = 2int;
    let ds = spec_op_spec(t).dir_size;
    let e1 = crate::compiler::enc_any(a, w, m, op_pos);
    let e2 = crate::compiler::enc_rd(rd, w, m, op_pos);
    let e3 = enc_reg(c);
    let l1 = crate::compiler::size_of_any(a, w);
    let l2 = crate::compiler::size_of_rd(rd, w);
    assert(enc =~= seq![spec_op_code(t), spec_pcb(op)] + e1 + e2 + e3);
    assert(enc.subrange(2, 2 + l1) =~= e1);
    assert(enc.subrange(2 + l1, 2 + l1 + l2) =~= e2);
    assert(enc.subrange(2 + l1 + l2, 2 + l1 + l2 + 1) =~= e3);
    assert(read_cell(mem, addr + 1) == enc[1]);
    lemma_operand_any(mem, addr, enc, 2, a, w, ds, m, op_pos);
    lemma_operand_rd(mem, addr, enc, 2 + l1, rd, w, ds, m, op_pos);
    lemma_operand_reg(mem, addr, enc, 2 + l1 + l2, c, ds);
    lemma_decode_shape3(
        mem,
        addr,
        t,
        code_of_any(a),
        code_of_rd(rd),
        1,
        l1,
        l2,
        1,
        p_any(a),
        p_rd(rd),
        p_reg(c),
    );
    assert(spec_op_size(op) == 2 + l1 + l2 + 1);
    assert(expected_instr(op) == (Instruction {
        kind: t,
        params: [p_any(a), p_rd(rd), p_reg(c)],
        byte_size: (2 + l1 + l2 + 1) as usize,
    }));
}

proof fn lemma_case_lldi(mem: Seq<u8>, addr: int, op_pos: int, m: Map<Seq<char>, int>, a: AnyParam, rd: RegDir, c: Register)
    requires
        op_concrete(Op::Lldi(a, rd, c)),
        encoded_at(mem, addr, Op::Lldi(a, rd, c), op_pos, m),
    ensures
        spec_decode_instr(mem, op_type_of(Op::Lldi(a, rd, c)), addr) == Ok::<
            Instruction,
            crate::decoder::InstrDecodeError,
        >(expected_instr(Op::Lldi(a, rd, c))),
{
    let op = Op::Lldi(a, rd, c);
    let t = op_type_of(op);
    let s = spec_op_spec(t);
    let enc = spec_encode_op(op, op_pos, m);
    crate::compiler::lemma_encode_op_len(op, op_pos, m);
    lemma_mem_bytes(mem, addr, enc);
    lemma_mask_admit();
    let w = 2int;
    let ds = spec_op_spec(t).dir_size;
    let e1 = crate::compiler::enc_any(a, w, m, op_pos);
    let e2 = crate::compiler::enc_rd(rd, w, m, op_pos);
    let e3 = enc_reg(c);
    let l1 = crate::compiler::size_of_any(a, w);
    let l2 = crate::compiler::size_of_rd(rd, w);
    assert(enc =~= seq![spec_op_code(t), spec_pcb(op)] + e1 + e2 + e3);
    assert(enc.subrange(2, 2 + l1) =~= e1);
    assert(enc.subrange(2 + l1, 2 + l1 + l2) =~= e2);
    assert(enc.subrange(2 + l1 + l2, 2 + l1 + l2 + 1) =~= e3);
    assert(read_cell(mem, addr + 1) == enc[1]);
    lemma_operand_any(mem, addr, enc, 2, a, w, ds, m, op_pos);
    lemma_operand_rd(mem, addr, enc, 2 + l1, rd, w, ds, m, op_pos);
    lemma_operand_reg(mem, addr, enc, 2 + l1 + l2, c, ds);
    lemma_decode_shape3(
        mem,
        addr,
        t,
        code_of_any(a),
        code_of_rd(rd),
        1,
        l1,
        l2,
        1,
        p_any(a),
        p_rd(rd),
        p_reg(c),
    );
    assert(spec_op_size(op) == 2 + l1 + l2 + 1);
    assert(expected_instr(op) == (Instruction {
        kind: t,
        params: [p_any(a), p_rd(rd), p_reg(c)],
        byte_size: (2 + l1 + l2 + 1) as usize,
    }));
}

proof fn lemma_case_sti(mem: Seq<u8>, addr: int, op_pos: int, m: Map<Seq<char>, int>, r: Register, a: AnyParam, rd: RegDir)
    requires
        op_concrete(Op::Sti(r, a, rd)),
        encoded_at(mem, addr, Op::Sti(r, a, rd), op_pos, m),
    ensures
        spec_decode_instr(mem, op_type_of(Op::Sti(r, a, rd)), addr) == Ok::<
            Instruction,
            crate::decoder::InstrDecodeError,
        >(expected_instr(Op::Sti(r, a, rd))),
{
    let op = Op::Sti(r, a, rd);
    let t = op_type_of(op);
    let s = spec_op_spec(t);
    let enc = spec_encode_op(op, op_pos, m);
    crate::compiler::lemma_encode_op_len(op, op_pos, m);
    lemma_mem_bytes(mem, addr, enc);
    lemma_mask_admit();
    let w = 2int;
    let ds = spec_op_spec(t).dir_size;
    let e1 = enc_reg(r);
    let e2 = crate::compiler::enc_any(a, w, m, op_pos);
    let e3 = crate::compiler::enc_rd(rd, w, m, op_pos);
    let l2 = crate::compiler::size_of_any(a, w);
    let l3 = crate::compiler::size_of_rd(rd, w);
    assert(enc =~= seq![spec_op_code(t), spec_pcb(op)] + e1 + e2 + e3);
    assert(enc.subrange(2int, 3int) =~= e1);
    assert(enc.subrange(3int, 3 + l2) =~= e2);
    assert(enc.subrange(3 + l2, 3 + l2 + l3) =~= e3);
    assert(read_cell(mem, addr + 1) == enc[1]);
    lemma_operand_reg(mem, addr, enc, 2, r, ds);
    lemma_operand_any(mem, addr, enc, 3, a, w, ds, m, op_pos);
    lemma_operand_rd(mem, addr, enc, 3 + l2, rd, w, ds, m, op_pos);
    lemma_decode_shape3(
        mem,
        addr,
        t,
        1,
        code_of_any(a),
        code_of_rd(rd),
        1,
        l2,
        l3,
        p_reg(r),
        p_any(a),
        p_rd(rd),
    );
    assert(spec_op_size(op) == 2 + 1 + l2 + l3);
    assert(expected_instr(op) == (Instruction {
        kind: t,
        params: [p_reg(r), p_any(a), p_rd(rd)],
        byte_size: (2 + 1 + l2 + l3) as usize,
    }));
}

proof fn lemma_case_aff(mem: Seq<u8>, addr: int, op_pos: int, m: Map<Seq<char>, int>, r: Register)
    requires
        op_concrete(Op::Aff(r)),
        encoded_at(mem, addr, Op::Aff(r), op_pos, m),
    ensures
        spec_decode_instr(mem, op_type_of(Op::Aff(r)), addr) == Ok::<
            Instruction,
            crate::decoder::InstrDecodeError,
        >(expected_instr(Op::Aff(r))),
{
    let op = Op::Aff(r);
    let t = op_type_of(op);
    let s = spec_op_spec(t);
    let enc = spec_encode_op(op, op_pos, m);
    crate::compiler::lemma_encode_op_len(op, op_pos, m);
    lemma_mem_bytes(mem, addr, enc);
    lemma_mask_admit();
    let ds = spec_op_spec(t).dir_size;
    let e1 = enc_reg(r);
    assert(enc =~= seq![spec_op_code(t), spec_pcb(op)] + e1);
    assert(enc.subrange(2int, 3int) =~= e1);
    assert(read_cell(mem, addr + 1) == enc[1]);
    lemma_operand_reg(mem, addr, enc, 2, r, ds);
    lemma_decode_shape1(mem, addr, t, p_reg(r));
    assert(spec_op_size(op) == 3);
    assert(expected_instr(op) == (Instruction {
        kind: t,
        params: [p_reg(r), Param::default_spec(), Param::default_spec()],
        byte_size: 3usize,
    }));
}

/// Decoding an encoded operation recovers the operation: for every opcode
/// and every legal combination of parameter types, the decoder accepts
/// the encoder's bytes and yields exactly the instruction the operation
/// denotes.
pub proof fn lemma_decode_encode(
    op: Op,
    mem: Seq<u8>,
    addr: int,
    op_pos: int,
    m: Map<Seq<char>, int>,
)
    requires
        op_concrete(op),
        encoded_at(mem, addr, op, op_pos, m),
    ensures
        spec_decode_op(mem, addr) == Ok::<OpType, crate::decoder::InvalidOpCode>(op_type_of(op)),
        spec_decode_instr(mem, op_type_of(op), addr) == Ok::<
            Instruction,
            crate::decoder::InstrDecodeError,
        >(expected_instr(op)),
{
    let t = op_type_of(op);
    let enc = spec_encode_op(op, op_pos, m);
    crate::compiler::lemma_encode_op_len(op, op_pos, m);
    lemma_mem_bytes(mem, addr, enc);
    crate::ops::lemma_op_code_round_trip(t);
    assert(read_cell(mem, addr + 0) == enc[0]);
    assert(wrap(addr) == wrap(addr + 0)) by {
        vstd::arithmetic::div_mod::lemma_small_mod(addr as nat, MEM_SIZE as nat);
        vstd::arithmetic::div_mod::lemma_small_mod((addr + 0) as nat, MEM_SIZE as nat);
    }
    assert(read_cell(mem, addr) == spec_op_code(t));
    match op {
        Op::Live(d) => lemma_case_live(mem, addr, op_pos, m, d),
        Op::Zjmp(d) => lemma_case_zjmp(mem, addr, op_pos, m, d),
        Op::Fork(d) => lemma_case_fork(mem, addr, op_pos, m, d),
        Op::Lfork(d) => lemma_case_lfork(mem, addr, op_pos, m, d),
        Op::Ld(di, r) => lemma_case_ld(mem, addr, op_pos, m, di, r),
        Op::Lld(di, r) => lemma_case_lld(mem, addr, op_pos, m, di, r),
        Op::St(r, ri) => lemma_case_st(mem, addr, op_pos, m, r, ri),
        Op::Add(a, b, c) => lemma_case_add(mem, addr, op_pos, m, a, b, c),
        Op::Sub(a, b, c) => lemma_case_sub(mem, addr, op_pos, m, a, b, c),
        Op::And(a, b, c) => lemma_case_and(mem, addr, op_pos, m, a, b, c),
        Op::Or(a, b, c) => lemma_case_or(mem, addr, op_pos, m, a, b, c),
        Op::Xor(a, b, c) => lemma_case_xor(mem, addr, op_pos, m, a, b, c),
        Op::Ldi(a, rd, c) => lemma_case_ldi(mem, addr, op_pos, m, a, rd, c),
        Op::Lldi(a, rd, c) => lemma_case_lldi(mem, addr, op_pos, m, a, rd, c),
        Op::Sti(r, a, rd) => lemma_case_sti(mem, addr, op_pos, m, r, a, rd),
        Op::Aff(r) => lemma_case_aff(mem, addr, op_pos, m, r),
    }
}
} // verus!
