//! Instruction decoding and opcode semantics.
//!
//! An instruction is a 16-bit word: opcode in bits 15-12, register fields of
//! 3 bits each, an immediate-mode selector at bit 5 where applicable, and
//! sign-extended immediate/offset fields of 5, 6, 9 or 11 bits.

use crate::registers::Cond;
use crate::registers::Registers;
use crate::registers::cond_of;
use crate::vm::VM;
use vstd::prelude::*;

verus! {

/// What one executed instruction asks of the run loop.
#[derive(Clone, Copy, Debug, PartialEq, Eq, Structural)]
pub enum Event {
    /// Go on to the next instruction.
    Continue,
    /// A blocking input trap wants one character; `true` asks the embedder to
    /// echo it to the output (IN), `false` suppresses the echo (GETC).
    AwaitInput(bool),
    /// The HALT trap was serviced: a graceful stop.
    Halted,
    /// The program counter ran off the top of the address space: a normal
    /// stop distinct from HALT.
    OutOfBounds,
    /// A TRAP instruction carried a vector no routine is defined for: a
    /// fatal stop reporting the offending vector.
    UnknownTrap(u16),
    /// A reserved opcode (RTI or RES) was executed: a fatal stop, since the
    /// architecture defines no user-mode behaviour for it.
    Reserved(OpCode),
}

/// The trap routines, named by their conventional vectors
/// `0x20`..`0x25`.
#[derive(Clone, Copy, Debug, PartialEq, Eq, Structural)]
pub enum TrapCode {
    /// `0x20`: read one character, no echo
    GETC,
    /// `0x21`: write the character in the low byte of `R0`
    OUT,
    /// `0x22`: write a word string, one character per cell
    PUTS,
    /// `0x23`: prompt, read one character, echo it
    IN,
    /// `0x24`: write a byte string, two characters per cell
    PUTSP,
    /// `0x25`: halt the program
    HALT,
}

/// The trap routine an 8-bit vector selects, `None` for a vector no routine
/// is defined for.
pub open spec fn decode_trap(v: u16) -> Option<TrapCode> {
    if v == 0x20 {
        Some(TrapCode::GETC)
    } else if v == 0x21 {
        Some(TrapCode::OUT)
    } else if v == 0x22 {
        Some(TrapCode::PUTS)
    } else if v == 0x23 {
        Some(TrapCode::IN)
    } else if v == 0x24 {
        Some(TrapCode::PUTSP)
    } else if v == 0x25 {
        Some(TrapCode::HALT)
    } else {
        None
    }
}

/// Map a trap vector to its routine; vectors outside `0x20`..`0x25` have
/// none.
pub fn get_trap_code(vector: u16) -> (r: Option<TrapCode>)
    ensures
        r == decode_trap(vector),
{
    match vector {
        0x20 => Some(TrapCode::GETC),
        0x21 => Some(TrapCode::OUT),
        0x22 => Some(TrapCode::PUTS),
        0x23 => Some(TrapCode::IN),
        0x24 => Some(TrapCode::PUTSP),
        0x25 => Some(TrapCode::HALT),
        _ => None,
    }
}

/// The sixteen opcodes, in the order of their 4-bit encodings `0..=15`.
#[derive(Clone, Copy, Debug, PartialEq, Eq, Structural)]
pub enum OpCode {
    /// branch
    BR,
    /// add
    ADD,
    /// load
    LD,
    /// store
    ST,
    /// jump register
    JSR,
    /// bitwise and
    AND,
    /// load base+offset
    LDR,
    /// store base+offset
    STR,
    /// return from interrupt (reserved, no user-mode behaviour)
    RTI,
    /// bitwise complement
    NOT,
    /// load indirect
    LDI,
    /// store indirect
    STI,
    /// jump
    JMP,
    /// reserved slot
    RES,
    /// load effective address
    LEA,
    /// execute trap
    TRAP,
}

/// The opcode bits: the top 4 bits of the instruction word.
pub open spec fn opcode_bits(i: u16) -> u16 {
    i >> 12
}

/// The opcode a word decodes to, by its top 4 bits. Every 4-bit value is a
/// defined slot, so decoding never fails.
pub open spec fn decode_op(i: u16) -> OpCode {
    let b = opcode_bits(i);
    if b == 0 {
        OpCode::BR
    } else if b == 1 {
        OpCode::ADD
    } else if b == 2 {
        OpCode::LD
    } else if b == 3 {
        OpCode::ST
    } else if b == 4 {
        OpCode::JSR
    } else if b == 5 {
        OpCode::AND
    } else if b == 6 {
        OpCode::LDR
    } else if b == 7 {
        OpCode::STR
    } else if b == 8 {
        OpCode::RTI
    } else if b == 9 {
        OpCode::NOT
    } else if b == 10 {
        OpCode::LDI
    } else if b == 11 {
        OpCode::STI
    } else if b == 12 {
        OpCode::JMP
    } else if b == 13 {
        OpCode::RES
    } else if b == 14 {
        OpCode::LEA
    } else {
        OpCode::TRAP
    }
}

/// Decode the opcode of an instruction word from its top 4 bits.
///
/// All 16 slots are defined, so the result is always `Some`; the `Option`
/// shape leaves room for an embedder that wants to treat a slot as absent.
pub fn get_op_code(instruction: &u16) -> (r: Option<OpCode>)
    ensures
        r == Some(decode_op(*instruction)),
{
    let w: u16 = *instruction;
    let b = w >> 12;
    proof {
        assert(b <= 15) by (bit_vector)
            requires
                b == w >> 12,
        ;
    }
    match b {
        0 => Some(OpCode::BR),
        1 => Some(OpCode::ADD),
        2 => Some(OpCode::LD),
        3 => Some(OpCode::ST),
        4 => Some(OpCode::JSR),
        5 => Some(OpCode::AND),
        6 => Some(OpCode::LDR),
        7 => Some(OpCode::STR),
        8 => Some(OpCode::RTI),
        9 => Some(OpCode::NOT),
        10 => Some(OpCode::LDI),
        11 => Some(OpCode::STI),
        12 => Some(OpCode::JMP),
        13 => Some(OpCode::RES),
        14 => Some(OpCode::LEA),
        _ => Some(OpCode::TRAP),
    }
}

/// Widen a two's-complement field of `bit_count` bits to 16 bits: if the
/// field's top bit is set, every bit above it is set in the result, which
/// preserves the field's signed value.
pub open spec fn sign_extend_spec(x: u16, bit_count: u16) -> u16 {
    if (x >> ((bit_count - 1) as u16)) & 1 == 1 {
        x | (0xFFFFu16 << bit_count)
    } else {
        x
    }
}

/// The signed value a `bit_count`-bit two's-complement field denotes:
/// `x` itself when the top bit is clear, `x - 2^bit_count` when it is set.
pub open spec fn signed_field_val(x: u16, bit_count: u16) -> int {
    if (x >> ((bit_count - 1) as u16)) & 1 == 1 {
        x - (1u16 << bit_count)
    } else {
        x as int
    }
}

/// 16-bit wraparound addition, the arithmetic of every address and register
/// computation in the machine.
pub open spec fn wadd(a: u16, b: u16) -> u16 {
    if a + b > 0xFFFF {
        (a + b - 0x10000) as u16
    } else {
        (a + b) as u16
    }
}

/// Sign-extend a field of `bit_count` bits to a 16-bit word.
pub fn sign_extend(x: u16, bit_count: u16) -> (r: u16)
    requires
        1 <= bit_count <= 15,
        x < (1u16 << bit_count),
    ensures
        r == sign_extend_spec(x, bit_count),
{
    if (x >> (bit_count - 1)) & 1 == 1 {
        x | (0xFFFFu16 << bit_count)
    } else {
        x
    }
}

/// The destination (or, for stores, source) register field, bits 11-9.
pub open spec fn dr_of(i: u16) -> u16 {
    (i >> 9) & 0x7
}

/// The first source (or base) register field, bits 8-6.
pub open spec fn sr1_of(i: u16) -> u16 {
    (i >> 6) & 0x7
}

/// The second source register field, bits 2-0.
pub open spec fn sr2_of(i: u16) -> u16 {
    i & 0x7
}

/// The immediate-mode selector, bit 5: set means the second operand is the
/// sign-extended 5-bit immediate rather than a register.
pub open spec fn imm_mode(i: u16) -> bool {
    (i >> 5) & 1 == 1
}

/// The sign-extended 5-bit immediate field.
pub open spec fn imm5_of(i: u16) -> u16 {
    sign_extend_spec(i & 0x1F, 5)
}

/// The sign-extended 6-bit offset field of the base+offset modes.
pub open spec fn off6_of(i: u16) -> u16 {
    sign_extend_spec(i & 0x3F, 6)
}

/// The sign-extended 9-bit PC-relative offset field.
pub open spec fn off9_of(i: u16) -> u16 {
    sign_extend_spec(i & 0x1FF, 9)
}

/// The sign-extended 11-bit offset field of JSR.
pub open spec fn off11_of(i: u16) -> u16 {
    sign_extend_spec(i & 0x7FF, 11)
}

/// The long-flag of JSR, bit 11: set selects the PC-relative form, clear the
/// base-register form (JSRR).
pub open spec fn jsr_long(i: u16) -> bool {
    (i >> 11) & 1 == 1
}

/// The 8-bit trap vector of a TRAP instruction.
pub open spec fn trap_vector_of(i: u16) -> u16 {
    i & 0xFF
}

/// Whether the condition bits of a BR instruction (n at bit 11, z at bit 10,
/// p at bit 9) intersect the current flag state.
pub open spec fn cond_matches(i: u16, c: Cond) -> bool {
    ||| ((i >> 11) & 1 == 1 && c == Cond::Negative)
    ||| ((i >> 10) & 1 == 1 && c == Cond::Zero)
    ||| ((i >> 9) & 1 == 1 && c == Cond::Positive)
}

/// Extract the destination-register field, bits 11-9.
pub fn dr_field(i: u16) -> (r: u16)
    ensures
        r == dr_of(i),
        r < 8,
{
    proof {
        assert((i >> 9) & 0x7 < 8) by (bit_vector);
    }
    (i >> 9) & 0x7
}

/// Extract the first source-register field, bits 8-6.
pub fn sr1_field(i: u16) -> (r: u16)
    ensures
        r == sr1_of(i),
        r < 8,
{
    proof {
        assert((i >> 6) & 0x7 < 8) by (bit_vector);
    }
    (i >> 6) & 0x7
}

/// Extract the second source-register field, bits 2-0.
pub fn sr2_field(i: u16) -> (r: u16)
    ensures
        r == sr2_of(i),
        r < 8,
{
    proof {
        assert(i & 0x7 < 8) by (bit_vector);
    }
    i & 0x7
}

/// Extract and sign-extend the 5-bit immediate field.
pub fn imm5_field(i: u16) -> (r: u16)
    ensures
        r == imm5_of(i),
{
    proof {
        assert(i & 0x1F < (1u16 << 5)) by (bit_vector);
    }
    sign_extend(i & 0x1F, 5)
}

/// Extract and sign-extend the 6-bit offset field.
pub fn off6_field(i: u16) -> (r: u16)
    ensures
        r == off6_of(i),
{
    proof {
        assert(i & 0x3F < (1u16 << 6)) by (bit_vector);
    }
    sign_extend(i & 0x3F, 6)
}

/// Extract and sign-extend the 9-bit offset field.
pub fn off9_field(i: u16) -> (r: u16)
    ensures
        r == off9_of(i),
{
    proof {
        assert(i & 0x1FF < (1u16 << 9)) by (bit_vector);
    }
    sign_extend(i & 0x1FF, 9)
}

/// Extract and sign-extend the 11-bit offset field.
pub fn off11_field(i: u16) -> (r: u16)
    ensures
        r == off11_of(i),
{
    proof {
        assert(i & 0x7FF < (1u16 << 11)) by (bit_vector);
    }
    sign_extend(i & 0x7FF, 11)
}

/// Sign extension computes two's-complement widening: for a field `x` of
/// `n` bits, the extended word equals the field's signed value modulo 65536,
/// and adding the extended word to any 16-bit value `a` (with wraparound)
/// adds the signed value modulo 65536.
pub proof fn lemma_sign_extend_twos_complement(x: u16, n: u16, a: u16)
    requires
        1 <= n <= 15,
        x < (1u16 << n),
    ensures
        (x >> ((n - 1) as u16)) & 1 == 1 ==> sign_extend_spec(x, n) == x + 0x10000 - (1u16
            << n),
        (x >> ((n - 1) as u16)) & 1 == 0 ==> sign_extend_spec(x, n) == x,
        wadd(a, sign_extend_spec(x, n)) == (a + signed_field_val(x, n)) % 0x10000,
{
    let ext = sign_extend_spec(x, n);
    assert((x >> ((n - 1) as u16)) & 1 == 1 ==> (x | (0xFFFFu16 << n)) as u32 == (x as u32)
        + 0x10000 - (1u32 << (n as u32))) by (bit_vector)
        requires
            1 <= n <= 15,
            x < (1u16 << n),
    ;
    assert((1u16 << n) as u32 == 1u32 << (n as u32)) by (bit_vector)
        requires
            1 <= n <= 15,
    ;
    if (x >> ((n - 1) as u16)) & 1 == 1 {
        assert(ext == x + 0x10000 - (1u16 << n));
        assert(x < (1u16 << n));
        let s = signed_field_val(x, n);
        assert(s == x - (1u16 << n));
        assert(2 <= (1u16 << n) <= 0x8000) by (bit_vector)
            requires
                1 <= n <= 15,
        ;
        assert(-0x8000 <= s < 0);
        // a + s lies in (-0x8000, 0x10000); reduce it modulo 0x10000 by hand.
        if a + s < 0 {
            assert((a + s) % 0x10000 == a + s + 0x10000) by {
                vstd::arithmetic::div_mod::lemma_mod_add_multiples_vanish(a + s, 0x10000);
                vstd::arithmetic::div_mod::lemma_small_mod((a + s + 0x10000) as nat, 0x10000);
            };
            assert(wadd(a, ext) == a + s + 0x10000);
        } else {
            assert((a + s) % 0x10000 == a + s) by {
                vstd::arithmetic::div_mod::lemma_small_mod((a + s) as nat, 0x10000);
            };
            assert(wadd(a, ext) == a + s);
        }
    } else {
        let s = signed_field_val(x, n);
        assert(s == x as int);
        if a + s > 0xFFFF {
            assert((a + s) % 0x10000 == a + s - 0x10000) by {
                vstd::arithmetic::div_mod::lemma_mod_sub_multiples_vanish(a + s, 0x10000);
                vstd::arithmetic::div_mod::lemma_small_mod((a + s - 0x10000) as nat, 0x10000);
            };
        } else {
            assert((a + s) % 0x10000 == a + s) by {
                vstd::arithmetic::div_mod::lemma_small_mod((a + s) as nat, 0x10000);
            };
        }
    }
}

/// The register file after an instruction wrote `v` to general register `r`:
/// the register is set and the condition flags reflect the sign of `v`.
pub open spec fn write_reg_effect(pre: Registers, post: Registers, r: int, v: u16) -> bool {
    post == pre.spec_set(r, v).with_cond(cond_of(v))
}

/// ADD: `DR = SR1 + (SR2 or the 5-bit immediate)`, 16-bit wraparound, flags
/// updated; memory and the program counter untouched.
pub open spec fn add_effect(pre: VM, post: VM, i: u16) -> bool {
    let a = pre.registers.reg(sr1_of(i) as int);
    let b = if imm_mode(i) {
        imm5_of(i)
    } else {
        pre.registers.reg(sr2_of(i) as int)
    };
    &&& post.memory@ == pre.memory@
    &&& write_reg_effect(pre.registers, post.registers, dr_of(i) as int, wadd(a, b))
}

/// AND: `DR = SR1 & (SR2 or the 5-bit immediate)`, flags updated.
pub open spec fn and_effect(pre: VM, post: VM, i: u16) -> bool {
    let a = pre.registers.reg(sr1_of(i) as int);
    let b = if imm_mode(i) {
        imm5_of(i)
    } else {
        pre.registers.reg(sr2_of(i) as int)
    };
    &&& post.memory@ == pre.memory@
    &&& write_reg_effect(pre.registers, post.registers, dr_of(i) as int, a & b)
}

/// NOT: `DR = !SR`, flags updated.
pub open spec fn not_effect(pre: VM, post: VM, i: u16) -> bool {
    &&& post.memory@ == pre.memory@
    &&& write_reg_effect(
        pre.registers,
        post.registers,
        dr_of(i) as int,
        !pre.registers.reg(sr1_of(i) as int),
    )
}

/// BR: when the instruction's condition bits intersect the current flags the
/// program counter advances by the signed 9-bit offset; otherwise nothing
/// changes beyond the normal fetch increment.
pub open spec fn br_effect(pre: VM, post: VM, i: u16) -> bool {
    &&& post.memory@ == pre.memory@
    &&& post.registers == if cond_matches(i, pre.registers.cond) {
        pre.registers.with_pc(wadd(pre.registers.pc, off9_of(i)))
    } else {
        pre.registers
    }
}

/// JMP: `PC = base register`; flags and memory untouched.
pub open spec fn jmp_effect(pre: VM, post: VM, i: u16) -> bool {
    &&& post.memory@ == pre.memory@
    &&& post.registers == pre.registers.with_pc(pre.registers.reg(sr1_of(i) as int))
}

/// JSR/JSRR: `R7` receives the return address (the post-increment PC), then
/// the PC jumps — PC-relative by the 11-bit offset when bit 11 is set,
/// else to the base register's value as it stood before `R7` was written.
pub open spec fn jsr_effect(pre: VM, post: VM, i: u16) -> bool {
    let target = if jsr_long(i) {
        wadd(pre.registers.pc, off11_of(i))
    } else {
        pre.registers.reg(sr1_of(i) as int)
    };
    &&& post.memory@ == pre.memory@
    &&& post.registers == pre.registers.spec_set(7, pre.registers.pc).with_pc(target)
}

/// LD: `DR = Memory[PC + off9]`, flags updated.
pub open spec fn ld_effect(pre: VM, post: VM, i: u16) -> bool {
    let v = pre.memory@[wadd(pre.registers.pc, off9_of(i)) as int];
    &&& post.memory@ == pre.memory@
    &&& write_reg_effect(pre.registers, post.registers, dr_of(i) as int, v)
}

/// LDI: the cell at `PC + off9` holds a pointer; `DR` receives the cell that
/// pointer addresses, flags updated.
pub open spec fn ldi_effect(pre: VM, post: VM, i: u16) -> bool {
    let pointer = pre.memory@[wadd(pre.registers.pc, off9_of(i)) as int];
    let v = pre.memory@[pointer as int];
    &&& post.memory@ == pre.memory@
    &&& write_reg_effect(pre.registers, post.registers, dr_of(i) as int, v)
}

/// LDR: `DR = Memory[base + off6]`, flags updated.
pub open spec fn ldr_effect(pre: VM, post: VM, i: u16) -> bool {
    let v = pre.memory@[wadd(pre.registers.reg(sr1_of(i) as int), off6_of(i)) as int];
    &&& post.memory@ == pre.memory@
    &&& write_reg_effect(pre.registers, post.registers, dr_of(i) as int, v)
}

/// LEA: `DR = PC + off9` — the address itself, not its contents — flags
/// updated.
pub open spec fn lea_effect(pre: VM, post: VM, i: u16) -> bool {
    &&& post.memory@ == pre.memory@
    &&& write_reg_effect(
        pre.registers,
        post.registers,
        dr_of(i) as int,
        wadd(pre.registers.pc, off9_of(i)),
    )
}

/// ST: `Memory[PC + off9] = SR` (the register in bits 11-9); registers
/// untouched.
pub open spec fn st_effect(pre: VM, post: VM, i: u16) -> bool {
    let a = wadd(pre.registers.pc, off9_of(i));
    &&& post.memory@ == pre.memory@.update(a as int, pre.registers.reg(dr_of(i) as int))
    &&& post.registers == pre.registers
}

/// STI: the cell at `PC + off9` holds a pointer; the source register is
/// stored at the cell that pointer addresses.
pub open spec fn sti_effect(pre: VM, post: VM, i: u16) -> bool {
    let pointer = pre.memory@[wadd(pre.registers.pc, off9_of(i)) as int];
    &&& post.memory@ == pre.memory@.update(pointer as int, pre.registers.reg(dr_of(i) as int))
    &&& post.registers == pre.registers
}

/// STR: `Memory[base + off6] = SR`; registers untouched.
pub open spec fn str_effect(pre: VM, post: VM, i: u16) -> bool {
    let a = wadd(pre.registers.reg(sr1_of(i) as int), off6_of(i));
    &&& post.memory@ == pre.memory@.update(a as int, pre.registers.reg(dr_of(i) as int))
    &&& post.registers == pre.registers
}

/// The address `k` cells past `start`, with 16-bit wraparound, as an index
/// into the memory sequence.
pub open spec fn addr_at(start: u16, k: int) -> int {
    (start + k) % 0x10000
}

/// The low byte of a cell.
pub open spec fn low8(c: u16) -> u8 {
    (c & 0xFF) as u8
}

/// The high byte of a cell.
pub open spec fn high8(c: u16) -> u8 {
    (c >> 8) as u8
}

/// The low bytes of the `k` cells starting at `start`, in address order:
/// what PUTS emits for a string of `k` characters.
pub open spec fn puts_bytes(mem: Seq<u16>, start: u16, k: int) -> Seq<u8> {
    Seq::new(k as nat, |j: int| low8(mem[addr_at(start, j)]))
}

/// The PUTS routine's effect on the output: the low bytes of consecutive
/// cells from `start` up to (and excluding) the first zero cell are appended.
/// A scan that walks the whole wrapped address space without meeting a zero
/// cell has emitted every cell once and stops, having nothing new to visit.
pub open spec fn puts_effect(mem: Seq<u16>, start: u16, pre: Seq<u8>, post: Seq<u8>) -> bool {
    exists|k: int|
        0 <= k <= 0x10000 && (forall|j: int| 0 <= j < k ==> mem[addr_at(start, j)] != 0) && (k
            < 0x10000 ==> mem[addr_at(start, k)] == 0) && post == pre + #[trigger] puts_bytes(
            mem,
            start,
            k,
        )
}

/// The byte pairs of the `k` cells starting at `start`: low byte first, then
/// the high byte, cell after cell — what PUTSP emits for `k` full cells.
pub open spec fn putsp_bytes(mem: Seq<u16>, start: u16, k: int) -> Seq<u8> {
    Seq::new(
        (2 * k) as nat,
        |j: int|
            if j % 2 == 0 {
                low8(mem[addr_at(start, j / 2)])
            } else {
                high8(mem[addr_at(start, j / 2)])
            },
    )
}

/// The PUTSP routine's effect on the output: cells unpack into two
/// characters, low byte first; the scan stops at the first zero byte in
/// either position, which is not emitted. A terminating cell with a nonzero
/// low byte and a zero high byte still contributes its low byte.
pub open spec fn putsp_effect(mem: Seq<u16>, start: u16, pre: Seq<u8>, post: Seq<u8>) -> bool {
    exists|k: int|
        0 <= k <= 0x10000 && (forall|j: int|
            0 <= j < k ==> low8(mem[addr_at(start, j)]) != 0 && high8(mem[addr_at(start, j)])
                != 0) && (if k == 0x10000 {
            post == pre + #[trigger] putsp_bytes(mem, start, k)
        } else {
            let c = mem[addr_at(start, k)];
            ||| (low8(c) == 0 && post == pre + putsp_bytes(mem, start, k))
            ||| (low8(c) != 0 && high8(c) == 0 && post == pre + putsp_bytes(mem, start, k)
                + seq![low8(c)])
        })
}

/// The bytes the IN trap writes as its prompt before reading a character.
pub open spec fn input_prompt() -> Seq<u8> {
    seq![0x3Eu8, 0x20u8]
}

/// The bytes the HALT trap writes as its halt notice: `"HALT detected\n"`.
pub open spec fn halt_message() -> Seq<u8> {
    seq![
        0x48u8,
        0x41u8,
        0x4Cu8,
        0x54u8,
        0x20u8,
        0x64u8,
        0x65u8,
        0x74u8,
        0x65u8,
        0x63u8,
        0x74u8,
        0x65u8,
        0x64u8,
        0x0Au8,
    ]
}

/// The trap dispatcher's contract, by vector. Every routine first saves the
/// return address: `R7 = PC`, flags untouched. Beyond that, side effects are
/// confined to the output buffer and the returned event; `R0` is only read.
pub open spec fn trap_effect(
    pre: VM,
    post: VM,
    i: u16,
    pre_out: Seq<u8>,
    post_out: Seq<u8>,
    r: Event,
) -> bool {
    let v = trap_vector_of(i);
    let saved = pre.registers.spec_set(7, pre.registers.pc);
    &&& post.memory@ == pre.memory@
    &&& post.registers == saved
    &&& (v == 0x20 ==> post_out == pre_out && r == Event::AwaitInput(false))
    &&& (v == 0x21 ==> post_out == pre_out + seq![low8(pre.registers.r0)] && r
        == Event::Continue)
    &&& (v == 0x22 ==> puts_effect(pre.memory@, pre.registers.r0, pre_out, post_out) && r
        == Event::Continue)
    &&& (v == 0x23 ==> post_out == pre_out + input_prompt() && r == Event::AwaitInput(true))
    &&& (v == 0x24 ==> putsp_effect(pre.memory@, pre.registers.r0, pre_out, post_out) && r
        == Event::Continue)
    &&& (v == 0x25 ==> post_out == pre_out + halt_message() && r == Event::Halted)
    &&& (decode_trap(v) is None ==> post_out == pre_out && r == Event::UnknownTrap(v))
}

/// Stepping one cell onward: the wrapped index after `k + 1` steps is the
/// successor of the wrapped index after `k`, folding back to `0` from the
/// top of the address space.
proof fn lemma_addr_at_step(start: u16, k: int)
    requires
        0 <= k,
    ensures
        addr_at(start, k + 1) == if addr_at(start, k) == 0xFFFF {
            0int
        } else {
            addr_at(start, k) + 1
        },
{
    let m = 0x10000int;
    let a = start + k;
    vstd::arithmetic::div_mod::lemma_mod_bound(a, m);
    vstd::arithmetic::div_mod::lemma_add_mod_noop(a, 1, m);
    vstd::arithmetic::div_mod::lemma_small_mod(1nat, m as nat);
    if a % m == m - 1 {
        vstd::arithmetic::div_mod::lemma_mod_self_0(m);
    } else {
        vstd::arithmetic::div_mod::lemma_small_mod((a % m + 1) as nat, m as nat);
    }
}

/// TRAP handler: save the return address in `R7`, then dispatch on the low
/// 8 bits of the instruction.
pub fn trap(vm: &mut VM, instr: u16, out: &mut Vec<u8>) -> (r: Event)
    requires
        old(vm).wf(),
    ensures
        final(vm).wf(),
        trap_effect(*old(vm), *final(vm), instr, old(out)@, final(out)@, r),
{
    let return_address = vm.registers.pc;
    vm.registers.update(7, return_address);
    let vect = instr & 0xFF;
    match get_trap_code(vect) {
        Some(TrapCode::GETC) => Event::AwaitInput(false),
        Some(TrapCode::OUT) => {
            out.push((vm.registers.r0 & 0xFF) as u8);
            proof {
                assert(out@ =~= old(out)@ + seq![low8(old(vm).registers.r0)]);
            }
            Event::Continue
        },
        Some(TrapCode::PUTS) => {
            puts_loop(vm, out);
            Event::Continue
        },
        Some(TrapCode::IN) => {
            out.push(0x3E);
            out.push(0x20);
            proof {
                assert(out@ =~= old(out)@ + input_prompt());
            }
            Event::AwaitInput(true)
        },
        Some(TrapCode::PUTSP) => {
            putsp_loop(vm, out);
            Event::Continue
        },
        Some(TrapCode::HALT) => {
            out.push(0x48);
            out.push(0x41);
            out.push(0x4C);
            out.push(0x54);
            out.push(0x20);
            out.push(0x64);
            out.push(0x65);
            out.push(0x74);
            out.push(0x65);
            out.push(0x63);
            out.push(0x74);
            out.push(0x65);
            out.push(0x64);
            out.push(0x0A);
            proof {
                assert(out@ =~= old(out)@ + halt_message());
            }
            Event::Halted
        },
        None => Event::UnknownTrap(vect),
    }
}

/// The scan of the PUTS routine: append the low byte of every cell from
/// `R0` up to the first zero cell.
fn puts_loop(vm: &VM, out: &mut Vec<u8>)
    requires
        vm.wf(),
    ensures
        puts_effect(vm.memory@, vm.registers.r0, old(out)@, final(out)@),
{
    let start = vm.registers.r0;
    let ghost out0 = out@;
    let mut index: u16 = start;
    let mut count: usize = 0;
    proof {
        vstd::arithmetic::div_mod::lemma_small_mod(start as nat, 0x10000 as nat);
        assert(out0 + puts_bytes(vm.memory@, start, 0) =~= out0);
    }
    while count < 0x10000
        invariant_except_break
            vm.wf(),
            count <= 0x10000,
            index as int == addr_at(start, count as int),
            forall|j: int| 0 <= j < count ==> vm.memory@[addr_at(start, j)] != 0,
            out@ == out0 + puts_bytes(vm.memory@, start, count as int),
        ensures
            puts_effect(vm.memory@, start, out0, out@),
        decreases 0x10000 - count,
    {
        let c = vm.read_memory(index);
        if c == 0 {
            proof {
                assert(out@ == out0 + puts_bytes(vm.memory@, start, count as int));
            }
            break ;
        }
        out.push((c & 0xFF) as u8);
        proof {
            assert(out@ =~= out0 + puts_bytes(vm.memory@, start, count + 1));
            lemma_addr_at_step(start, count as int);
        }
        index = index.wrapping_add(1);
        count = count + 1;
    }
}

/// The scan of the PUTSP routine: unpack each cell into its low byte and
/// high byte, stopping at the first zero byte in either position.
fn putsp_loop(vm: &VM, out: &mut Vec<u8>)
    requires
        vm.wf(),
    ensures
        putsp_effect(vm.memory@, vm.registers.r0, old(out)@, final(out)@),
{
    let start = vm.registers.r0;
    let ghost out0 = out@;
    let mut index: u16 = start;
    let mut count: usize = 0;
    proof {
        vstd::arithmetic::div_mod::lemma_small_mod(start as nat, 0x10000 as nat);
        assert(out0 + putsp_bytes(vm.memory@, start, 0) =~= out0);
    }
    while count < 0x10000
        invariant_except_break
            vm.wf(),
            count <= 0x10000,
            index as int == addr_at(start, count as int),
            forall|j: int|
                0 <= j < count ==> low8(vm.memory@[addr_at(start, j)]) != 0 && high8(
                    vm.memory@[addr_at(start, j)],
                ) != 0,
            out@ == out0 + putsp_bytes(vm.memory@, start, count as int),
        ensures
            putsp_effect(vm.memory@, start, out0, out@),
        decreases 0x10000 - count,
    {
        let c = vm.read_memory(index);
        let lo = (c & 0xFF) as u8;
        let hi = (c >> 8) as u8;
        if lo == 0 {
            break ;
        }
        out.push(lo);
        if hi == 0 {
            proof {
                assert(out@ =~= out0 + putsp_bytes(vm.memory@, start, count as int)
                    + seq![low8(vm.memory@[addr_at(start, count as int)])]);
            }
            break ;
        }
        out.push(hi);
        proof {
            assert(out@ =~= out0 + putsp_bytes(vm.memory@, start, count + 1));
            lemma_addr_at_step(start, count as int);
        }
        index = index.wrapping_add(1);
        count = count + 1;
    }
}

/// ADD handler.
pub fn add(vm: &mut VM, instr: u16)
    requires
        old(vm).wf(),
    ensures
        final(vm).wf(),
        add_effect(*old(vm), *final(vm), instr),
{
    let dr = dr_field(instr);
    let a = vm.registers.get(sr1_field(instr));
    let b = if (instr >> 5) & 1 == 1 {
        imm5_field(instr)
    } else {
        vm.registers.get(sr2_field(instr))
    };
    let v = a.wrapping_add(b);
    vm.registers.update(dr, v);
    vm.registers.update_r_cond_register(dr);
}

/// AND handler.
pub fn and(vm: &mut VM, instr: u16)
    requires
        old(vm).wf(),
    ensures
        final(vm).wf(),
        and_effect(*old(vm), *final(vm), instr),
{
    let dr = dr_field(instr);
    let a = vm.registers.get(sr1_field(instr));
    let b = if (instr >> 5) & 1 == 1 {
        imm5_field(instr)
    } else {
        vm.registers.get(sr2_field(instr))
    };
    let v = a & b;
    vm.registers.update(dr, v);
    vm.registers.update_r_cond_register(dr);
}

/// NOT handler.
pub fn not(vm: &mut VM, instr: u16)
    requires
        old(vm).wf(),
    ensures
        final(vm).wf(),
        not_effect(*old(vm), *final(vm), instr),
{
    let dr = dr_field(instr);
    let v = !vm.registers.get(sr1_field(instr));
    vm.registers.update(dr, v);
    vm.registers.update_r_cond_register(dr);
}

/// BR handler.
pub fn br(vm: &mut VM, instr: u16)
    requires
        old(vm).wf(),
    ensures
        final(vm).wf(),
        br_effect(*old(vm), *final(vm), instr),
{
    let taken = match vm.registers.cond {
        Cond::Negative => (instr >> 11) & 1 == 1,
        Cond::Zero => (instr >> 10) & 1 == 1,
        Cond::Positive => (instr >> 9) & 1 == 1,
    };
    if taken {
        let offset = off9_field(instr);
        vm.registers.pc = vm.registers.pc.wrapping_add(offset);
    }
}

/// JMP handler.
pub fn jmp(vm: &mut VM, instr: u16)
    requires
        old(vm).wf(),
    ensures
        final(vm).wf(),
        jmp_effect(*old(vm), *final(vm), instr),
{
    let base = sr1_field(instr);
    vm.registers.pc = vm.registers.get(base);
}

/// JSR/JSRR handler.
pub fn jsr(vm: &mut VM, instr: u16)
    requires
        old(vm).wf(),
    ensures
        final(vm).wf(),
        jsr_effect(*old(vm), *final(vm), instr),
{
    let return_address = vm.registers.pc;
    let target = if (instr >> 11) & 1 == 1 {
        vm.registers.pc.wrapping_add(off11_field(instr))
    } else {
        vm.registers.get(sr1_field(instr))
    };
    vm.registers.update(7, return_address);
    vm.registers.pc = target;
}

/// LD handler.
pub fn ld(vm: &mut VM, instr: u16)
    requires
        old(vm).wf(),
    ensures
        final(vm).wf(),
        ld_effect(*old(vm), *final(vm), instr),
{
    let dr = dr_field(instr);
    let a = vm.registers.pc.wrapping_add(off9_field(instr));
    let v = vm.read_memory(a);
    vm.registers.update(dr, v);
    vm.registers.update_r_cond_register(dr);
}

/// LDI handler.
pub fn ldi(vm: &mut VM, instr: u16)
    requires
        old(vm).wf(),
    ensures
        final(vm).wf(),
        ldi_effect(*old(vm), *final(vm), instr),
{
    let dr = dr_field(instr);
    let a = vm.registers.pc.wrapping_add(off9_field(instr));
    let pointer = vm.read_memory(a);
    let v = vm.read_memory(pointer);
    vm.registers.update(dr, v);
    vm.registers.update_r_cond_register(dr);
}

/// LDR handler.
pub fn ldr(vm: &mut VM, instr: u16)
    requires
        old(vm).wf(),
    ensures
        final(vm).wf(),
        ldr_effect(*old(vm), *final(vm), instr),
{
    let dr = dr_field(instr);
    let base = vm.registers.get(sr1_field(instr));
    let a = base.wrapping_add(off6_field(instr));
    let v = vm.read_memory(a);
    vm.registers.update(dr, v);
    vm.registers.update_r_cond_register(dr);
}

/// LEA handler.
pub fn lea(vm: &mut VM, instr: u16)
    requires
        old(vm).wf(),
    ensures
        final(vm).wf(),
        lea_effect(*old(vm), *final(vm), instr),
{
    let dr = dr_field(instr);
    let val = vm.registers.pc.wrapping_add(off9_field(instr));
    vm.registers.update(dr, val);
    vm.registers.update_r_cond_register(dr);
}

/// ST handler.
pub fn st(vm: &mut VM, instr: u16)
    requires
        old(vm).wf(),
    ensures
        final(vm).wf(),
        st_effect(*old(vm), *final(vm), instr),
{
    let a = vm.registers.pc.wrapping_add(off9_field(instr));
    let v = vm.registers.get(dr_field(instr));
    vm.write_memory(a as usize, v);
}

/// STI handler.
pub fn sti(vm: &mut VM, instr: u16)
    requires
        old(vm).wf(),
    ensures
        final(vm).wf(),
        sti_effect(*old(vm), *final(vm), instr),
{
    let a = vm.registers.pc.wrapping_add(off9_field(instr));
    let pointer = vm.read_memory(a);
    let v = vm.registers.get(dr_field(instr));
    vm.write_memory(pointer as usize, v);
}

/// STR handler.
pub fn str(vm: &mut VM, instr: u16)
    requires
        old(vm).wf(),
    ensures
        final(vm).wf(),
        str_effect(*old(vm), *final(vm), instr),
{
    let base = vm.registers.get(sr1_field(instr));
    let a = base.wrapping_add(off6_field(instr));
    let v = vm.registers.get(dr_field(instr));
    vm.write_memory(a as usize, v);
}

/// What executing one already-fetched instruction does to the machine, the
/// output, and the run loop, keyed on the decoded opcode. `pre` is the state
/// after the fetch increment, so PC-relative modes read the post-increment
/// program counter.
pub open spec fn instr_effect(
    pre: VM,
    post: VM,
    i: u16,
    pre_out: Seq<u8>,
    post_out: Seq<u8>,
    r: Event,
) -> bool {
    let op = decode_op(i);
    &&& (op == OpCode::BR ==> br_effect(pre, post, i) && post_out == pre_out && r
        == Event::Continue)
    &&& (op == OpCode::ADD ==> add_effect(pre, post, i) && post_out == pre_out && r
        == Event::Continue)
    &&& (op == OpCode::LD ==> ld_effect(pre, post, i) && post_out == pre_out && r
        == Event::Continue)
    &&& (op == OpCode::ST ==> st_effect(pre, post, i) && post_out == pre_out && r
        == Event::Continue)
    &&& (op == OpCode::JSR ==> jsr_effect(pre, post, i) && post_out == pre_out && r
        == Event::Continue)
    &&& (op == OpCode::AND ==> and_effect(pre, post, i) && post_out == pre_out && r
        == Event::Continue)
    &&& (op == OpCode::LDR ==> ldr_effect(pre, post, i) && post_out == pre_out && r
        == Event::Continue)
    &&& (op == OpCode::STR ==> str_effect(pre, post, i) && post_out == pre_out && r
        == Event::Continue)
    &&& (op == OpCode::RTI ==> post.memory@ == pre.memory@ && post.registers == pre.registers
        && post_out == pre_out && r == Event::Reserved(OpCode::RTI))
    &&& (op == OpCode::NOT ==> not_effect(pre, post, i) && post_out == pre_out && r
        == Event::Continue)
    &&& (op == OpCode::LDI ==> ldi_effect(pre, post, i) && post_out == pre_out && r
        == Event::Continue)
    &&& (op == OpCode::STI ==> sti_effect(pre, post, i) && post_out == pre_out && r
        == Event::Continue)
    &&& (op == OpCode::JMP ==> jmp_effect(pre, post, i) && post_out == pre_out && r
        == Event::Continue)
    &&& (op == OpCode::RES ==> post.memory@ == pre.memory@ && post.registers == pre.registers
        && post_out == pre_out && r == Event::Reserved(OpCode::RES))
    &&& (op == OpCode::LEA ==> lea_effect(pre, post, i) && post_out == pre_out && r
        == Event::Continue)
    &&& (op == OpCode::TRAP ==> trap_effect(pre, post, i, pre_out, post_out, r))
}

/// Decode `instr` and execute it against the machine state, appending any
/// characters it emits to `out`. The returned event tells the run loop
/// whether to go on, wait for input, or stop.
pub fn execute_instruction(vm: &mut VM, instr: u16, out: &mut Vec<u8>) -> (r: Event)
    requires
        old(vm).wf(),
    ensures
        final(vm).wf(),
        instr_effect(*old(vm), *final(vm), instr, old(out)@, final(out)@, r),
{
    let op_code = get_op_code(&instr);
    match op_code {
        Some(OpCode::BR) => {
            br(vm, instr);
            Event::Continue
        },
        Some(OpCode::ADD) => {
            crate::instruction::add(vm, instr);
            Event::Continue
        },
        Some(OpCode::LD) => {
            ld(vm, instr);
            Event::Continue
        },
        Some(OpCode::ST) => {
            st(vm, instr);
            Event::Continue
        },
        Some(OpCode::JSR) => {
            jsr(vm, instr);
            Event::Continue
        },
        Some(OpCode::AND) => {
            and(vm, instr);
            Event::Continue
        },
        Some(OpCode::LDR) => {
            ldr(vm, instr);
            Event::Continue
        },
        Some(OpCode::STR) => {
            str(vm, instr);
            Event::Continue
        },
        Some(OpCode::RTI) => Event::Reserved(OpCode::RTI),
        Some(OpCode::NOT) => {
            not(vm, instr);
            Event::Continue
        },
        Some(OpCode::LDI) => {
            ldi(vm, instr);
            Event::Continue
        },
        Some(OpCode::STI) => {
            sti(vm, instr);
            Event::Continue
        },
        Some(OpCode::JMP) => {
            jmp(vm, instr);
            Event::Continue
        },
        Some(OpCode::RES) => Event::Reserved(OpCode::RES),
        Some(OpCode::LEA) => {
            lea(vm, instr);
            Event::Continue
        },
        Some(OpCode::TRAP) => trap(vm, instr, out),
        // decoding never fails: every 4-bit slot is a defined opcode
        None => Event::Continue,
    }
}

/// A sequence is a prefix of itself extended by anything.
pub proof fn lemma_prefix_append(a: Seq<u8>, b: Seq<u8>)
    ensures
        a.is_prefix_of(a + b),
{
    assert(a =~= (a + b).subrange(0, a.len() as int));
}

/// Prefixes compose: a prefix of a prefix is a prefix.
pub proof fn lemma_prefix_trans(a: Seq<u8>, b: Seq<u8>, c: Seq<u8>)
    requires
        a.is_prefix_of(b),
        b.is_prefix_of(c),
    ensures
        a.is_prefix_of(c),
{
    assert(a =~= c.subrange(0, a.len() as int));
}

/// After any register-writing opcode (ADD, AND, NOT, LD, LDI, LDR, LEA) the
/// condition flags reflect exactly the sign of the value written to the
/// destination register — and, the flags being one state of three, exactly
/// one of Negative, Zero, Positive holds.
pub proof fn lemma_write_ops_set_cond(
    pre: VM,
    post: VM,
    i: u16,
    pre_out: Seq<u8>,
    post_out: Seq<u8>,
    r: Event,
)
    requires
        instr_effect(pre, post, i, pre_out, post_out, r),
        decode_op(i) == OpCode::ADD || decode_op(i) == OpCode::AND || decode_op(i) == OpCode::NOT
            || decode_op(i) == OpCode::LD || decode_op(i) == OpCode::LDI || decode_op(i)
            == OpCode::LDR || decode_op(i) == OpCode::LEA,
    ensures
        post.registers.cond == cond_of(post.registers.reg(dr_of(i) as int)),
{
    assert((i >> 9) & 0x7 < 8) by (bit_vector);
}

/// The branch rule: when the instruction's condition bits intersect the
/// current flags, the program counter advances by the signed 9-bit offset
/// from its post-increment value; otherwise every register — the program
/// counter included — is left exactly as it was.
pub proof fn lemma_br_pc(pre: VM, post: VM, i: u16)
    requires
        br_effect(pre, post, i),
    ensures
        cond_matches(i, pre.registers.cond) ==> post.registers.pc == wadd(
            pre.registers.pc,
            off9_of(i),
        ),
        !cond_matches(i, pre.registers.cond) ==> post.registers == pre.registers,
        post.memory@ == pre.memory@,
{
}

/// The indirect round trip: a value stored through STI is read back by an
/// LDI executed from the same program counter with the same 9-bit offset,
/// provided the pointer cell is not itself the target cell (storing through
/// a pointer that points at the pointer cell would overwrite the pointer).
pub proof fn lemma_sti_ldi_round_trip(pre: VM, mid: VM, post: VM, sti_instr: u16, ldi_instr: u16)
    requires
        pre.wf(),
        sti_effect(pre, mid, sti_instr),
        ldi_effect(mid, post, ldi_instr),
        off9_of(sti_instr) == off9_of(ldi_instr),
        ({
            let pointer_cell = wadd(pre.registers.pc, off9_of(sti_instr));
            pre.memory@[pointer_cell as int] != pointer_cell
        }),
    ensures
        post.registers.reg(dr_of(ldi_instr) as int) == pre.registers.reg(dr_of(sti_instr) as int),
{
    let pointer_cell = wadd(pre.registers.pc, off9_of(sti_instr));
    let target = pre.memory@[pointer_cell as int];
    let v = pre.registers.reg(dr_of(sti_instr) as int);
    assert(mid.memory@ == pre.memory@.update(target as int, v));
    assert(mid.memory@[pointer_cell as int] == target);
    assert(mid.memory@[target as int] == v);
    assert((ldi_instr >> 9) & 0x7 < 8) by (bit_vector);
}

/// Executing an instruction never removes output already emitted: the prior
/// output is a prefix of the new output.
pub proof fn lemma_instr_effect_extends_out(
    pre: VM,
    post: VM,
    i: u16,
    pre_out: Seq<u8>,
    post_out: Seq<u8>,
    r: Event,
)
    requires
        instr_effect(pre, post, i, pre_out, post_out, r),
    ensures
        pre_out.is_prefix_of(post_out),
{
    if post_out == pre_out {
        assert(pre_out =~= post_out.subrange(0, pre_out.len() as int));
    }
    if decode_op(i) == OpCode::TRAP {
        let v = trap_vector_of(i);
        if v == 0x21 {
            lemma_prefix_append(pre_out, seq![low8(pre.registers.r0)]);
        } else if v == 0x23 {
            lemma_prefix_append(pre_out, input_prompt());
        } else if v == 0x25 {
            lemma_prefix_append(pre_out, halt_message());
        } else if v == 0x22 {
            let k = choose|k: int|
                0 <= k <= 0x10000 && (forall|j: int|
                    0 <= j < k ==> pre.memory@[addr_at(pre.registers.r0, j)] != 0) && (k
                    < 0x10000 ==> pre.memory@[addr_at(pre.registers.r0, k)] == 0) && post_out
                    == pre_out + #[trigger] puts_bytes(pre.memory@, pre.registers.r0, k);
            lemma_prefix_append(pre_out, puts_bytes(pre.memory@, pre.registers.r0, k));
        } else if v == 0x24 {
            let mem = pre.memory@;
            let start = pre.registers.r0;
            let k = choose|k: int|
                0 <= k <= 0x10000 && (forall|j: int|
                    0 <= j < k ==> low8(mem[addr_at(start, j)]) != 0 && high8(
                        mem[addr_at(start, j)],
                    ) != 0) && (if k == 0x10000 {
                    post_out == pre_out + #[trigger] putsp_bytes(mem, start, k)
                } else {
                    let c = mem[addr_at(start, k)];
                    ||| (low8(c) == 0 && post_out == pre_out + putsp_bytes(mem, start, k))
                    ||| (low8(c) != 0 && high8(c) == 0 && post_out == pre_out + putsp_bytes(
                        mem,
                        start,
                        k,
                    ) + seq![low8(c)])
                });
            if k == 0x10000 {
                lemma_prefix_append(pre_out, putsp_bytes(mem, start, k));
            } else {
                let c = mem[addr_at(start, k)];
                lemma_prefix_append(pre_out, putsp_bytes(mem, start, k));
                lemma_prefix_append(pre_out, putsp_bytes(mem, start, k) + seq![low8(c)]);
                assert(pre_out + (putsp_bytes(mem, start, k) + seq![low8(c)]) =~= pre_out
                    + putsp_bytes(mem, start, k) + seq![low8(c)]);
            }
        }
    }
}

} // verus!
