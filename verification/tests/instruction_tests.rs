use lc3_vm::instruction::{
    execute_instruction, get_op_code, get_trap_code, sign_extend, Event, OpCode, TrapCode,
};
use lc3_vm::registers::Cond;
use lc3_vm::vm::VM;

fn fresh_vm(pc: u16) -> VM {
    let mut vm = VM::new();
    vm.registers.pc = pc;
    vm
}

#[test]
fn opcodes_decode_by_top_four_bits() {
    let table = [
        OpCode::BR,
        OpCode::ADD,
        OpCode::LD,
        OpCode::ST,
        OpCode::JSR,
        OpCode::AND,
        OpCode::LDR,
        OpCode::STR,
        OpCode::RTI,
        OpCode::NOT,
        OpCode::LDI,
        OpCode::STI,
        OpCode::JMP,
        OpCode::RES,
        OpCode::LEA,
        OpCode::TRAP,
    ];
    for (slot, expected) in table.iter().enumerate() {
        let word = (slot as u16) << 12 | 0x0123;
        assert_eq!(get_op_code(&word), Some(*expected));
    }
}

#[test]
fn trap_codes_decode_by_vector() {
    assert_eq!(get_trap_code(0x20), Some(TrapCode::GETC));
    assert_eq!(get_trap_code(0x21), Some(TrapCode::OUT));
    assert_eq!(get_trap_code(0x22), Some(TrapCode::PUTS));
    assert_eq!(get_trap_code(0x23), Some(TrapCode::IN));
    assert_eq!(get_trap_code(0x24), Some(TrapCode::PUTSP));
    assert_eq!(get_trap_code(0x25), Some(TrapCode::HALT));
    assert_eq!(get_trap_code(0x99), None);
    assert_eq!(get_trap_code(0x00), None);
}

#[test]
fn sign_extension_matches_twos_complement() {
    // top bit clear: value unchanged
    assert_eq!(sign_extend(0x0F, 5), 0x000F);
    // top bit set: field - 2^n (mod 65536)
    assert_eq!(sign_extend(0x1F, 5), 0xFFFF); // -1 in 5 bits
    assert_eq!(sign_extend(0x10, 5), 0xFFF0); // -16 in 5 bits
    assert_eq!(sign_extend(0x20, 6), 0xFFE0); // -32 in 6 bits
    assert_eq!(sign_extend(0x1F0, 9), 0xFFF0); // -16 in 9 bits
    assert_eq!(sign_extend(0x7FF, 11), 0xFFFF); // -1 in 11 bits
    assert_eq!(sign_extend(0x100, 9), 0xFF00); // -256 in 9 bits
}

#[test]
fn add_register_mode_sets_positive_flag() {
    let mut vm = fresh_vm(0x3000);
    let mut out = Vec::new();
    vm.registers.r1 = 5;
    vm.registers.r2 = 7;
    // ADD R0, R1, R2
    let r = execute_instruction(&mut vm, 0x1042, &mut out);
    assert_eq!(r, Event::Continue);
    assert_eq!(vm.registers.r0, 12);
    assert_eq!(vm.registers.cond, Cond::Positive);
    assert!(out.is_empty());
}

#[test]
fn add_immediate_mode_sign_extends_and_sets_negative_flag() {
    let mut vm = fresh_vm(0x3000);
    let mut out = Vec::new();
    vm.registers.r1 = 0;
    // ADD R0, R1, #-1
    let r = execute_instruction(&mut vm, 0x107F, &mut out);
    assert_eq!(r, Event::Continue);
    assert_eq!(vm.registers.r0, 0xFFFF);
    assert_eq!(vm.registers.cond, Cond::Negative);
}

#[test]
fn add_wraps_at_sixteen_bits_and_sets_zero_flag() {
    let mut vm = fresh_vm(0x3000);
    let mut out = Vec::new();
    vm.registers.r1 = 0xFFFF;
    // ADD R0, R1, #1
    let r = execute_instruction(&mut vm, 0x1061, &mut out);
    assert_eq!(r, Event::Continue);
    assert_eq!(vm.registers.r0, 0);
    assert_eq!(vm.registers.cond, Cond::Zero);
}

#[test]
fn and_masks_registers() {
    let mut vm = fresh_vm(0x3000);
    let mut out = Vec::new();
    vm.registers.r1 = 0xF0F0;
    vm.registers.r2 = 0xFF00;
    // AND R0, R1, R2
    let r = execute_instruction(&mut vm, 0x5042, &mut out);
    assert_eq!(r, Event::Continue);
    assert_eq!(vm.registers.r0, 0xF000);
    assert_eq!(vm.registers.cond, Cond::Negative);
}

#[test]
fn and_immediate_zero_clears_register() {
    let mut vm = fresh_vm(0x3000);
    let mut out = Vec::new();
    vm.registers.r3 = 0xABCD;
    // AND R3, R3, #0
    let r = execute_instruction(&mut vm, 0x56E0, &mut out);
    assert_eq!(r, Event::Continue);
    assert_eq!(vm.registers.r3, 0);
    assert_eq!(vm.registers.cond, Cond::Zero);
}

#[test]
fn not_complements_register() {
    let mut vm = fresh_vm(0x3000);
    let mut out = Vec::new();
    vm.registers.r1 = 0x00FF;
    // NOT R0, R1
    let r = execute_instruction(&mut vm, 0x907F, &mut out);
    assert_eq!(r, Event::Continue);
    assert_eq!(vm.registers.r0, 0xFF00);
    assert_eq!(vm.registers.cond, Cond::Negative);
}

#[test]
fn br_taken_when_condition_bits_match() {
    let mut vm = fresh_vm(0x3001);
    let mut out = Vec::new();
    vm.registers.cond = Cond::Zero;
    // BRz #0x10
    let r = execute_instruction(&mut vm, 0x0410, &mut out);
    assert_eq!(r, Event::Continue);
    assert_eq!(vm.registers.pc, 0x3011);
}

#[test]
fn br_not_taken_when_condition_bits_do_not_match() {
    let mut vm = fresh_vm(0x3001);
    let mut out = Vec::new();
    vm.registers.cond = Cond::Positive;
    // BRn #0x10: negative-only branch with positive flags
    let r = execute_instruction(&mut vm, 0x0810, &mut out);
    assert_eq!(r, Event::Continue);
    assert_eq!(vm.registers.pc, 0x3001);
}

#[test]
fn br_with_negative_offset_moves_back() {
    let mut vm = fresh_vm(0x3001);
    let mut out = Vec::new();
    vm.registers.cond = Cond::Negative;
    // BRnzp #-2 (offset 0x1FE)
    let r = execute_instruction(&mut vm, 0x0FFE, &mut out);
    assert_eq!(r, Event::Continue);
    assert_eq!(vm.registers.pc, 0x2FFF);
}

#[test]
fn jmp_loads_pc_from_base_register() {
    let mut vm = fresh_vm(0x3000);
    let mut out = Vec::new();
    vm.registers.r2 = 0x1234;
    // JMP R2
    let r = execute_instruction(&mut vm, 0xC080, &mut out);
    assert_eq!(r, Event::Continue);
    assert_eq!(vm.registers.pc, 0x1234);
}

#[test]
fn jsr_saves_return_address_and_jumps_by_offset() {
    // From PC = 0x3000 the fetch increment leaves 0x3001; JSR #0x0F lands on
    // 0x3010 with R7 holding the return address 0x3001.
    let mut vm = fresh_vm(0x3001);
    let mut out = Vec::new();
    let r = execute_instruction(&mut vm, 0x480F, &mut out);
    assert_eq!(r, Event::Continue);
    assert_eq!(vm.registers.r7, 0x3001);
    assert_eq!(vm.registers.pc, 0x3010);
}

#[test]
fn jsrr_jumps_to_base_register_value() {
    let mut vm = fresh_vm(0x3001);
    let mut out = Vec::new();
    vm.registers.r4 = 0x5000;
    // JSRR R4
    let r = execute_instruction(&mut vm, 0x4100, &mut out);
    assert_eq!(r, Event::Continue);
    assert_eq!(vm.registers.r7, 0x3001);
    assert_eq!(vm.registers.pc, 0x5000);
}

#[test]
fn ld_reads_pc_relative_and_sets_flags() {
    let mut vm = fresh_vm(0x3001);
    let mut out = Vec::new();
    vm.write_memory(0x3011, 0x8000);
    // LD R0, #0x10
    let r = execute_instruction(&mut vm, 0x2010, &mut out);
    assert_eq!(r, Event::Continue);
    assert_eq!(vm.registers.r0, 0x8000);
    assert_eq!(vm.registers.cond, Cond::Negative);
}

#[test]
fn ldr_reads_base_plus_offset() {
    let mut vm = fresh_vm(0x3000);
    let mut out = Vec::new();
    vm.registers.r1 = 0x4000;
    vm.write_memory(0x3FFF, 0x0042);
    // LDR R0, R1, #-1
    let r = execute_instruction(&mut vm, 0x607F, &mut out);
    assert_eq!(r, Event::Continue);
    assert_eq!(vm.registers.r0, 0x0042);
    assert_eq!(vm.registers.cond, Cond::Positive);
}

#[test]
fn lea_computes_address_without_dereference() {
    let mut vm = fresh_vm(0x3001);
    let mut out = Vec::new();
    vm.write_memory(0x3011, 0xBEEF); // must not be read
    // LEA R0, #0x10
    let r = execute_instruction(&mut vm, 0xE010, &mut out);
    assert_eq!(r, Event::Continue);
    assert_eq!(vm.registers.r0, 0x3011);
    assert_eq!(vm.registers.cond, Cond::Positive);
}

#[test]
fn st_writes_pc_relative() {
    let mut vm = fresh_vm(0x3001);
    let mut out = Vec::new();
    vm.registers.r5 = 0xCAFE;
    // ST R5, #0x10
    let r = execute_instruction(&mut vm, 0x3A10, &mut out);
    assert_eq!(r, Event::Continue);
    assert_eq!(vm.read_memory(0x3011), 0xCAFE);
}

#[test]
fn str_writes_base_plus_offset() {
    let mut vm = fresh_vm(0x3000);
    let mut out = Vec::new();
    vm.registers.r1 = 0x4000;
    vm.registers.r2 = 0x1234;
    // STR R2, R1, #1
    let r = execute_instruction(&mut vm, 0x7441, &mut out);
    assert_eq!(r, Event::Continue);
    assert_eq!(vm.read_memory(0x4001), 0x1234);
}

#[test]
fn sti_then_ldi_round_trip() {
    // STI stores through a pointer cell; LDI with the same offset reads the
    // value back, the pointer cell not aliasing the target.
    let mut vm = fresh_vm(0x3001);
    let mut out = Vec::new();
    vm.write_memory(0x3011, 0x4000); // pointer cell
    vm.registers.r5 = 0x5A5A;
    // STI R5, #0x10
    let r = execute_instruction(&mut vm, 0xBA10, &mut out);
    assert_eq!(r, Event::Continue);
    assert_eq!(vm.read_memory(0x4000), 0x5A5A);
    // LDI R0, #0x10
    let r = execute_instruction(&mut vm, 0xA010, &mut out);
    assert_eq!(r, Event::Continue);
    assert_eq!(vm.registers.r0, 0x5A5A);
    assert_eq!(vm.registers.cond, Cond::Positive);
}

#[test]
fn reserved_opcodes_are_fatal() {
    let mut vm = fresh_vm(0x3000);
    let mut out = Vec::new();
    let r = execute_instruction(&mut vm, 0x8000, &mut out);
    assert_eq!(r, Event::Reserved(OpCode::RTI));
    let r = execute_instruction(&mut vm, 0xD000, &mut out);
    assert_eq!(r, Event::Reserved(OpCode::RES));
    // nothing moved
    assert_eq!(vm.registers.pc, 0x3000);
    assert_eq!(vm.registers.r0, 0);
    assert!(out.is_empty());
}
