//! Tests of the virtual machine: arithmetic and condition codes, loads and
//! stores, control flow, and the memory-mapped keyboard and display
//! registers.

use lc3_asm_vm::virtual_machine::{ConditionCode, IORegister, Registers, VirtualMachine, OP};

fn step(vm: &mut VirtualMachine) {
    vm.fetch();
    vm.decode();
    vm.execute();
}

#[test]
fn registers_start_zeroed() {
    let mut regs = Registers::new();
    assert_eq!(regs.read(5), 0);
    regs.set(5, 44);
    assert_eq!(regs.read(5), 44);
    let text = regs.display();
    assert_eq!(text, "R0: 0 R1: 0 R2: 0 R3: 0 R4: 0 R5: 44 R6: 0 R7: 0 ");
}

#[test]
fn add_updates_register_and_condition() {
    let mut vm = VirtualMachine::new();
    vm.set_reg(2, 5);
    // ADD R1, R2, #3 at the origin.
    vm.write_memory(0x3000, 0x12A3);
    vm.set_program_origin(0x3000);
    step(&mut vm);
    assert_eq!(vm.read_reg(1), 8);
    assert!(matches!(vm.registers.condition, ConditionCode::POSITIVE));

    // ADD R1, R1, #-16 leaves a negative result.
    vm.write_memory(0x3001, 0x1000 | (1 << 9) | (1 << 6) | 0x20 | 0b10000);
    step(&mut vm);
    assert_eq!(vm.read_reg(1) as i16, -8);
    assert!(matches!(vm.registers.condition, ConditionCode::NEGATIVE));
}

#[test]
fn and_not_and_zero_condition() {
    let mut vm = VirtualMachine::new();
    vm.set_reg(0, 0xF0F0);
    // AND R0, R0, #0 clears the register.
    vm.write_memory(0x3000, 0x5020);
    vm.set_program_origin(0x3000);
    step(&mut vm);
    assert_eq!(vm.read_reg(0), 0);
    assert!(matches!(vm.registers.condition, ConditionCode::ZERO));

    // NOT R1, R0 gives all ones.
    vm.write_memory(0x3001, 0x9000 | (1 << 9) | 0x3F);
    step(&mut vm);
    assert_eq!(vm.read_reg(1), 0xFFFF);
    assert!(matches!(vm.registers.condition, ConditionCode::NEGATIVE));
}

#[test]
fn branch_taken_and_not_taken() {
    let mut vm = VirtualMachine::new();
    vm.set_reg(0, 1);
    // ADD R0, R0, #0 sets the positive flag; BRp +2 skips two words.
    vm.write_memory(0x3000, 0x1020);
    vm.write_memory(0x3001, 0x0200 | 2);
    vm.set_program_origin(0x3000);
    step(&mut vm);
    step(&mut vm);
    assert_eq!(vm.program_counter, 0x3004);

    // BRn +1 is not taken while the flag is positive.
    vm.write_memory(0x3004, 0x0800 | 1);
    step(&mut vm);
    assert_eq!(vm.program_counter, 0x3005);
}

#[test]
fn loads_and_stores() {
    let mut vm = VirtualMachine::new();
    vm.write_memory(0x3010, 0xBEEF);
    vm.set_reg(3, 0xBEAD);
    vm.set_program_origin(0x3000);
    // LD R1, +0x0F: loads memory at 0x3001 + 0x0F.
    vm.write_memory(0x3000, 0x2000 | (1 << 9) | 0x0F);
    step(&mut vm);
    assert_eq!(vm.read_reg(1), 0xBEEF);

    // ST R3, +0x10: stores at 0x3002 + 0x10.
    vm.write_memory(0x3001, 0x3000 | (3 << 9) | 0x10);
    step(&mut vm);
    assert_eq!(vm.read_memory(0x3012), 0xBEAD);

    // LDR R2, R3-based is driven through a base register.
    vm.set_reg(4, 0x3010);
    vm.write_memory(0x3002, 0x6000 | (2 << 9) | (4 << 6) | 0);
    step(&mut vm);
    assert_eq!(vm.read_reg(2), 0xBEEF);

    // LEA R5 takes the incremented program counter plus the offset.
    vm.write_memory(0x3003, 0xE000 | (5 << 9) | 4);
    step(&mut vm);
    assert_eq!(vm.read_reg(5), 0x3008);
}

#[test]
fn jumps_and_traps() {
    let mut vm = VirtualMachine::new();
    vm.set_program_origin(0x3000);
    // JSR +3 saves the return address in R7.
    vm.write_memory(0x3000, 0x4800 | 3);
    step(&mut vm);
    assert_eq!(vm.read_reg(7), 0x3001);
    assert_eq!(vm.program_counter, 0x3004);

    // JMP R6 jumps through the base register.
    vm.set_reg(6, 0x3050);
    vm.write_memory(0x3004, 0xC000 | (6 << 6));
    step(&mut vm);
    assert_eq!(vm.program_counter, 0x3050);

    // TRAP x25 jumps through the vector table and saves R7.
    vm.write_memory(0x0025, 0x1234);
    vm.write_memory(0x3050, 0xF025);
    step(&mut vm);
    assert_eq!(vm.read_reg(7), 0x3051);
    assert_eq!(vm.program_counter, 0x1234);
}

#[test]
fn reserved_opcode_halts() {
    let mut vm = VirtualMachine::new();
    vm.set_program_origin(0x3000);
    vm.write_memory(0x3000, 0xD000);
    assert!(vm.run);
    step(&mut vm);
    assert!(!vm.run);
}

#[test]
fn machine_control_register_starts_running() {
    let mut vm = VirtualMachine::new();
    let mcr = vm.mcr_address;
    let v = vm.read_memory(mcr);
    assert_eq!(v & 0x8000, 0x8000);
}

#[test]
fn display_echo_and_keyboard_delivery() {
    let mut vm = VirtualMachine::new();
    // The display starts ready: the CPU sees the DSR ready bit.
    let dsr = vm.dsr_address;
    let ddr = vm.ddr_address;
    assert_eq!(vm.read_memory(dsr) & 0x8000, 0x8000);

    // The CPU writes 'A' to the DDR; that clears the display ready bit.
    vm.write_memory(ddr, 0x41);
    assert_eq!(vm.display_reg.data, 0x41);
    assert_eq!(vm.read_memory(dsr) & 0x8000, 0);

    // The display agent emits the character and restores the ready bit.
    let emitted = vm.display_reg.data;
    assert_eq!(emitted, 'A' as u16);
    vm.display_reg = IORegister {
        signal: 0x8000,
        data: emitted,
    };
    assert_eq!(vm.read_memory(dsr) & 0x8000, 0x8000);

    // The keyboard agent delivers 'B'; the ready bit rises with the data.
    let kbsr = vm.kbsr_address;
    let kbdr = vm.kbdr_address;
    assert_eq!(vm.read_memory(kbsr) & 0x8000, 0);
    vm.update_kbdr('B' as u16);
    assert_eq!(vm.read_memory(kbsr) & 0x8000, 0x8000);
    assert_eq!(vm.read_kbdr_wout_update(), 'B' as u16);

    // While the ready bit stands, another character is dropped.
    vm.update_kbdr('C' as u16);
    assert_eq!(vm.read_kbdr_wout_update(), 'B' as u16);

    // Reading the KBDR consumes the character: the ready bit clears.
    assert_eq!(vm.read_memory(kbdr), 'B' as u16);
    assert_eq!(vm.read_memory(kbsr) & 0x8000, 0);

    // And the dropped character never arrives.
    vm.update_kbdr('D' as u16);
    assert_eq!(vm.read_memory(kbdr), 'D' as u16);
}

#[test]
fn echo_program_through_the_device_registers() {
    // The runtime echo scenario, with the agents' half played by hand:
    // a program stores 'A' to the DDR once the DSR is ready, then loops
    // reading the KBSR until the keyboard delivers a character.
    let mut vm = VirtualMachine::new();
    let ddr = vm.ddr_address;
    let kbsr = vm.kbsr_address;
    let kbdr = vm.kbdr_address;
    vm.set_program_origin(0x3000);
    // LD R1, DSR-poll is elided: the display starts ready.  ST R0 -> DDR
    // via STI through a pointer word.
    vm.set_reg(0, 0x41);
    vm.write_memory(0x3100, ddr);
    vm.write_memory(0x3000, 0xB000 | 0x0FF); // STI R0, pointer at 0x3100
    step(&mut vm);
    assert_eq!(vm.display_reg.data, 0x41);
    assert_eq!(vm.display_reg.signal & 0x8000, 0);

    // The keyboard delivers 'B'; the program reads KBSR then KBDR.
    vm.update_kbdr(0x42);
    vm.write_memory(0x3101, kbsr);
    vm.write_memory(0x3102, kbdr);
    vm.write_memory(0x3001, 0xA000 | (2 << 9) | 0xFF); // LDI R2, KBSR pointer
    step(&mut vm);
    assert_eq!(vm.read_reg(2) & 0x8000, 0x8000);
    vm.write_memory(0x3002, 0xA000 | (3 << 9) | 0xFF); // LDI R3, KBDR pointer
    step(&mut vm);
    assert_eq!(vm.read_reg(3), 0x42);
    // Reading the data register cleared the keyboard ready bit.
    assert_eq!(vm.keyboard_reg.signal & 0x8000, 0);
}

#[test]
fn fetch_at_last_address_halts() {
    let mut vm = VirtualMachine::new();
    vm.set_program_counter(0xFFFF);
    vm.fetch();
    assert!(!vm.run);
}

#[test]
fn opcode_codes_cover_the_nibble() {
    assert_eq!(OP::BR.code(), 0);
    assert_eq!(OP::ADD.code(), 1);
    assert_eq!(OP::TRAP.code(), 15);
}
