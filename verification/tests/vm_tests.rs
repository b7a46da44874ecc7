use lc3_vm::instruction::{execute_instruction, Event};
use lc3_vm::vm::{execute_program, load_image, provide_input, VM};
use lc3_vm::registers::Cond;

#[test]
fn new_vm_is_zeroed() {
    let vm = VM::new();
    assert_eq!(vm.memory.len(), 0x10000);
    assert_eq!(vm.read_memory(0), 0);
    assert_eq!(vm.read_memory(0xFFFF), 0);
    assert_eq!(vm.registers.r0, 0);
    assert_eq!(vm.registers.r7, 0);
    assert_eq!(vm.registers.pc, 0);
    assert_eq!(vm.registers.cond, Cond::Zero);
}

#[test]
fn memory_round_trip() {
    let mut vm = VM::new();
    vm.write_memory(0x1234, 0xABCD);
    assert_eq!(vm.read_memory(0x1234), 0xABCD);
    assert_eq!(vm.read_memory(0x1233), 0);
    assert_eq!(vm.read_memory(0x1235), 0);
}

#[test]
fn load_image_fills_memory_and_sets_pc() {
    let mut vm = VM::new();
    let words = vec![0x1042, 0xF025, 0x0042];
    load_image(&mut vm, 0x3000, &words);
    assert_eq!(vm.registers.pc, 0x3000);
    assert_eq!(vm.read_memory(0x3000), 0x1042);
    assert_eq!(vm.read_memory(0x3001), 0xF025);
    assert_eq!(vm.read_memory(0x3002), 0x0042);
    assert_eq!(vm.read_memory(0x2FFF), 0);
    assert_eq!(vm.read_memory(0x3003), 0);
}

#[test]
fn puts_writes_string_up_to_terminator() {
    // Place the codes for "HI" and a zero cell at 0x4000; TRAP 0x22 emits
    // exactly 'H', 'I' and nothing past the terminator.
    let mut vm = VM::new();
    vm.registers.pc = 0x3001;
    vm.write_memory(0x4000, 0x48);
    vm.write_memory(0x4001, 0x49);
    vm.write_memory(0x4002, 0x0000);
    vm.write_memory(0x4003, 0x21); // past the terminator; must not appear
    vm.registers.r0 = 0x4000;
    let mut out = Vec::new();
    let r = execute_instruction(&mut vm, 0xF022, &mut out);
    assert_eq!(r, Event::Continue);
    assert_eq!(out, b"HI".to_vec());
    assert_eq!(vm.registers.r7, 0x3001);
}

#[test]
fn puts_on_immediate_terminator_writes_nothing() {
    let mut vm = VM::new();
    vm.registers.pc = 0x3001;
    vm.registers.r0 = 0x4000; // fresh memory: the cell is already zero
    let mut out = Vec::new();
    let r = execute_instruction(&mut vm, 0xF022, &mut out);
    assert_eq!(r, Event::Continue);
    assert!(out.is_empty());
}

#[test]
fn putsp_unpacks_two_characters_per_cell() {
    let mut vm = VM::new();
    vm.registers.pc = 0x3001;
    // "HI": 'H' in the low byte, 'I' in the high byte, then a zero cell.
    vm.write_memory(0x4000, 0x4948);
    vm.write_memory(0x4001, 0x0000);
    vm.registers.r0 = 0x4000;
    let mut out = Vec::new();
    let r = execute_instruction(&mut vm, 0xF024, &mut out);
    assert_eq!(r, Event::Continue);
    assert_eq!(out, b"HI".to_vec());
}

#[test]
fn putsp_stops_at_zero_high_byte_after_emitting_low() {
    let mut vm = VM::new();
    vm.registers.pc = 0x3001;
    // 'A' in the low byte, zero in the high byte: emit 'A', then stop.
    vm.write_memory(0x4000, 0x0041);
    vm.write_memory(0x4001, 0x4242); // must not appear
    vm.registers.r0 = 0x4000;
    let mut out = Vec::new();
    let r = execute_instruction(&mut vm, 0xF024, &mut out);
    assert_eq!(r, Event::Continue);
    assert_eq!(out, b"A".to_vec());
}

#[test]
fn out_trap_writes_low_byte_of_r0() {
    let mut vm = VM::new();
    vm.registers.pc = 0x3001;
    vm.registers.r0 = 0x1758; // low byte 0x58 = 'X'
    let mut out = Vec::new();
    let r = execute_instruction(&mut vm, 0xF021, &mut out);
    assert_eq!(r, Event::Continue);
    assert_eq!(out, b"X".to_vec());
}

#[test]
fn getc_asks_for_input_without_echo() {
    let mut vm = VM::new();
    vm.registers.pc = 0x3001;
    let mut out = Vec::new();
    let r = execute_instruction(&mut vm, 0xF020, &mut out);
    assert_eq!(r, Event::AwaitInput(false));
    assert!(out.is_empty());
    provide_input(&mut vm, b'q', false, &mut out);
    assert_eq!(vm.registers.r0, b'q' as u16);
    assert!(out.is_empty());
}

#[test]
fn in_trap_prompts_and_echoes() {
    let mut vm = VM::new();
    vm.registers.pc = 0x3001;
    let mut out = Vec::new();
    let r = execute_instruction(&mut vm, 0xF023, &mut out);
    assert_eq!(r, Event::AwaitInput(true));
    assert_eq!(out, b"> ".to_vec());
    provide_input(&mut vm, b'z', true, &mut out);
    assert_eq!(vm.registers.r0, b'z' as u16);
    assert_eq!(out, b"> z".to_vec());
}

#[test]
fn halt_trap_stops_the_run_loop() {
    // TRAP 0x25 halts; the following cell must never be fetched.
    let mut vm = VM::new();
    let words = vec![0xF025, 0x1061];
    load_image(&mut vm, 0x3000, &words);
    let mut out = Vec::new();
    let r = execute_program(&mut vm, &mut out, 1000);
    assert_eq!(r, Event::Halted);
    assert_eq!(vm.registers.pc, 0x3001);
    assert_eq!(vm.registers.r0, 0); // the ADD after HALT never ran
    assert_eq!(out, b"HALT detected\n".to_vec());
}

#[test]
fn unknown_trap_vector_is_fatal_and_reported() {
    let mut vm = VM::new();
    let words = vec![0xF099];
    load_image(&mut vm, 0x3000, &words);
    let mut out = Vec::new();
    let r = execute_program(&mut vm, &mut out, 1000);
    assert_eq!(r, Event::UnknownTrap(0x99));
    // no register or memory mutation beyond R7 (the return address)
    assert_eq!(vm.registers.r7, 0x3001);
    assert_eq!(vm.registers.r0, 0);
    assert_eq!(vm.registers.cond, Cond::Zero);
    assert_eq!(vm.read_memory(0x3000), 0xF099);
    assert!(out.is_empty());
}

#[test]
fn run_loop_executes_straight_line_program() {
    // ADD R0, R0, #5; ADD R1, R0, R0; TRAP 0x25
    let mut vm = VM::new();
    let words = vec![0x1025, 0x1200, 0xF025];
    load_image(&mut vm, 0x3000, &words);
    let mut out = Vec::new();
    let r = execute_program(&mut vm, &mut out, 1000);
    assert_eq!(r, Event::Halted);
    assert_eq!(vm.registers.r0, 5);
    assert_eq!(vm.registers.r1, 10);
    assert_eq!(vm.registers.cond, Cond::Positive);
}

#[test]
fn run_loop_stops_at_top_of_address_space() {
    let mut vm = VM::new();
    vm.registers.pc = 0xFFFF;
    let mut out = Vec::new();
    let r = execute_program(&mut vm, &mut out, 1000);
    assert_eq!(r, Event::OutOfBounds);
    assert_eq!(vm.registers.pc, 0xFFFF);
}

#[test]
fn run_loop_reports_continue_when_budget_runs_out() {
    // BRnzp #-1: a tight loop that never ends on its own.
    let mut vm = VM::new();
    let words = vec![0x0FFF];
    load_image(&mut vm, 0x3000, &words);
    let mut out = Vec::new();
    let r = execute_program(&mut vm, &mut out, 10);
    assert_eq!(r, Event::Continue);
}

#[test]
fn run_loop_resumes_after_input() {
    // TRAP 0x20 (GETC); ADD R1, R0, #0; TRAP 0x25
    let mut vm = VM::new();
    let words = vec![0xF020, 0x1220, 0xF025];
    load_image(&mut vm, 0x3000, &words);
    let mut out = Vec::new();
    let r = execute_program(&mut vm, &mut out, 1000);
    assert_eq!(r, Event::AwaitInput(false));
    provide_input(&mut vm, b'A', false, &mut out);
    let r = execute_program(&mut vm, &mut out, 1000);
    assert_eq!(r, Event::Halted);
    assert_eq!(vm.registers.r1, 0x41);
    assert_eq!(out, b"HALT detected\n".to_vec());
}

#[test]
fn reserved_opcode_stops_the_run_loop() {
    let mut vm = VM::new();
    let words = vec![0x8000];
    load_image(&mut vm, 0x3000, &words);
    let mut out = Vec::new();
    let r = execute_program(&mut vm, &mut out, 1000);
    assert!(matches!(r, Event::Reserved(_)));
    assert_eq!(vm.registers.pc, 0x3001);
}
