//! The 16-bit virtual machine: a 65536-word memory, eight registers, a
//! condition code, and a fetch/decode/execute loop with memory-mapped
//! keyboard and display registers.  The machine's behaviour is specified by
//! the pure step function `spec_execute` over `VmState`.

use vstd::prelude::*;
use crate::binary_utils::{
    MAX_MEMORY,
    MAX_MEMORY_SIZE,
    add_2s_complement,
    bit_set,
    field_spec,
    get_register_at,
    get_sign_ext_value,
    flag_is_set,
    sext_spec,
    low_mask,
    truncate_to,
    wrap_add,
};

verus! {

/// The condition code: exactly one of negative, zero, positive.
#[derive(Clone, Copy, Debug, PartialEq, Eq, Structural)]
pub enum ConditionCode {
    POSITIVE,
    NEGATIVE,
    ZERO,
}

/// The operation a word's opcode nibble selects.
#[derive(Clone, Copy, Debug, PartialEq, Eq, Structural)]
pub enum OP {
    BR,
    ADD,
    LD,
    ST,
    JSR,
    AND,
    LDR,
    STR,
    RTI,
    NOT,
    LDI,
    STI,
    JMP,
    RES,
    LEA,
    TRAP,
}

/// The opcode nibble of each operation.
pub open spec fn spec_op_code(op: OP) -> u16 {
    match op {
        OP::BR => 0,
        OP::ADD => 1,
        OP::LD => 2,
        OP::ST => 3,
        OP::JSR => 4,
        OP::AND => 5,
        OP::LDR => 6,
        OP::STR => 7,
        OP::RTI => 8,
        OP::NOT => 9,
        OP::LDI => 10,
        OP::STI => 11,
        OP::JMP => 12,
        OP::RES => 13,
        OP::LEA => 14,
        OP::TRAP => 15,
    }
}

/// The operation a nibble denotes.
pub open spec fn spec_opcode_of(c: u16) -> OP {
    if c == 0 {
        OP::BR
    } else if c == 1 {
        OP::ADD
    } else if c == 2 {
        OP::LD
    } else if c == 3 {
        OP::ST
    } else if c == 4 {
        OP::JSR
    } else if c == 5 {
        OP::AND
    } else if c == 6 {
        OP::LDR
    } else if c == 7 {
        OP::STR
    } else if c == 8 {
        OP::RTI
    } else if c == 9 {
        OP::NOT
    } else if c == 10 {
        OP::LDI
    } else if c == 11 {
        OP::STI
    } else if c == 12 {
        OP::JMP
    } else if c == 13 {
        OP::RES
    } else if c == 14 {
        OP::LEA
    } else {
        OP::TRAP
    }
}

impl OP {
    /// The opcode nibble of this operation.
    pub fn code(&self) -> (r: u16)
        ensures
            r == spec_op_code(*self),
            r < 16,
    {
        match self {
            OP::BR => 0,
            OP::ADD => 1,
            OP::LD => 2,
            OP::ST => 3,
            OP::JSR => 4,
            OP::AND => 5,
            OP::LDR => 6,
            OP::STR => 7,
            OP::RTI => 8,
            OP::NOT => 9,
            OP::LDI => 10,
            OP::STI => 11,
            OP::JMP => 12,
            OP::RES => 13,
            OP::LEA => 14,
            OP::TRAP => 15,
        }
    }
}

/// One memory-mapped device register: a signal word whose bit 15 is the
/// ready bit, and a data word.
#[derive(Clone, Copy, Debug, PartialEq, Eq, Structural)]
pub struct IORegister {
    pub signal: u16,
    pub data: u16,
}

/// The register file: eight general registers and the condition code.
#[derive(Clone, Debug)]
pub struct Registers {
    pub r: Vec<u16>,
    pub condition: ConditionCode,
}

/// A well-formed register file holds exactly eight registers.
pub open spec fn registers_wf(rs: Registers) -> bool {
    rs.r@.len() == 8
}

impl Registers {
    /// A fresh register file: all zero, condition positive.
    pub fn new() -> (r: Self)
        ensures
            registers_wf(r),
            forall|k: int| 0 <= k < 8 ==> r.r@[k] == 0,
            r.condition == ConditionCode::POSITIVE,
    {
        let mut v: Vec<u16> = Vec::new();
        let mut k: usize = 0;
        while k < 8
            invariant
                k <= 8,
                v@.len() == k,
                forall|j: int| 0 <= j < k ==> v@[j] == 0,
            decreases 8 - k,
        {
            v.push(0);
            k += 1;
        }
        Registers { r: v, condition: ConditionCode::POSITIVE }
    }

    /// Writes one register.
    pub fn set(&mut self, n: u16, value: u16)
        requires
            registers_wf(*old(self)),
            n <= 7,
        ensures
            registers_wf(*final(self)),
            final(self).r@ == old(self).r@.update(n as int, value),
            final(self).condition == old(self).condition,
    {
        let old_val = self.r.remove(n as usize);
        self.r.insert(n as usize, value);
        proof {
            assert(final(self).r@ =~= old(self).r@.update(n as int, value));
        }
    }

    /// Reads one register.
    pub fn read(&mut self, n: u16) -> (r: u16)
        requires
            registers_wf(*old(self)),
            n <= 7,
        ensures
            r == old(self).r@[n as int],
            *final(self) == *old(self),
    {
        self.r[n as usize]
    }
}

/// One fetched instruction: its word and the operation its opcode selects.
#[derive(Clone, Copy, Debug)]
pub struct Instruction {
    pub opcode: OP,
    pub word: u16,
}

/// The machine.
#[derive(Debug)]
pub struct VirtualMachine {
    pub memory: Vec<u16>,
    pub registers: Registers,
    pub kbsr_address: u16,
    pub kbdr_address: u16,
    pub dsr_address: u16,
    pub ddr_address: u16,
    pub mcr_address: u16,
    pub keyboard_reg: IORegister,
    pub display_reg: IORegister,
    pub run: bool,
    pub debug_enabled: bool,
    pub program_counter: u16,
    pub origin: u16,
    pub current_instruction: Instruction,
    pub instruction_count: i32,
}

/// A well-formed machine has the full 65536-word memory and eight
/// registers.
pub open spec fn vm_wf(vm: VirtualMachine) -> bool {
    vm.memory@.len() == MAX_MEMORY_SIZE && registers_wf(vm.registers)
}

// ---------------------------------------------------------------------------
// The mathematical machine
// ---------------------------------------------------------------------------

/// The observable machine state the step function speaks of.
pub struct VmState {
    pub regs: Seq<u16>,
    pub cond: ConditionCode,
    pub pc: u16,
    pub mem: Seq<u16>,
    pub keyboard: IORegister,
    pub display: IORegister,
    pub run: bool,
}

/// The observable state of a machine.
pub open spec fn vm_state(vm: VirtualMachine) -> VmState {
    VmState {
        regs: vm.registers.r@,
        cond: vm.registers.condition,
        pc: vm.program_counter,
        mem: vm.memory@,
        keyboard: vm.keyboard_reg,
        display: vm.display_reg,
        run: vm.run,
    }
}

/// The device-register addresses of a machine.
pub struct IOMap {
    pub kbsr: u16,
    pub kbdr: u16,
    pub dsr: u16,
    pub ddr: u16,
}

/// The device-register addresses of a machine.
pub open spec fn io_map(vm: VirtualMachine) -> IOMap {
    IOMap {
        kbsr: vm.kbsr_address,
        kbdr: vm.kbdr_address,
        dsr: vm.dsr_address,
        ddr: vm.ddr_address,
    }
}

/// The condition code a result produces: zero gives Z, a set bit 15 gives
/// N, anything else gives P.
pub open spec fn cond_of(result: u16) -> ConditionCode {
    if result == 0 {
        ConditionCode::ZERO
    } else if bit_set(result, 15) {
        ConditionCode::NEGATIVE
    } else {
        ConditionCode::POSITIVE
    }
}

/// A memory read with device interposition: reading `KBSR` or `DSR`
/// mirrors the device signal into memory; reading `KBDR` delivers the
/// keyboard data and clears the keyboard ready bit; reading `DDR` mirrors
/// the display data.  Every other address reads the memory word.
pub open spec fn spec_read_mem(s: VmState, io: IOMap, addr: u16) -> (VmState, u16) {
    if addr == io.kbsr {
        (VmState { mem: s.mem.update(addr as int, s.keyboard.signal), ..s }, s.keyboard.signal)
    } else if addr == io.kbdr {
        (
            VmState {
                mem: s.mem.update(addr as int, s.keyboard.data),
                keyboard: IORegister { signal: 0, ..s.keyboard },
                ..s
            },
            s.keyboard.data,
        )
    } else if addr == io.dsr {
        (VmState { mem: s.mem.update(addr as int, s.display.signal), ..s }, s.display.signal)
    } else if addr == io.ddr {
        (VmState { mem: s.mem.update(addr as int, s.display.data), ..s }, s.display.data)
    } else {
        (s, s.mem[addr as int])
    }
}

/// A memory write with device interposition: writing `KBSR` sets the
/// keyboard signal; writing `DDR` hands the display its data and clears
/// the display ready bit.  The memory word is written in every case.
pub open spec fn spec_write_mem(s: VmState, io: IOMap, addr: u16, value: u16) -> VmState {
    let s2 = if addr == io.kbsr {
        VmState { keyboard: IORegister { signal: value, ..s.keyboard }, ..s }
    } else if addr == io.ddr {
        VmState { display: IORegister { signal: 0, data: value }, ..s }
    } else {
        s
    };
    VmState { mem: s2.mem.update(addr as int, value), ..s2 }
}

/// Writes a register and updates the condition code from the result.
pub open spec fn set_reg_cc(s: VmState, r: u16, value: u16) -> VmState {
    VmState { regs: s.regs.update(r as int, value), cond: cond_of(value), ..s }
}

/// One instruction executed over the mathematical machine state, with the
/// program counter already incremented past the instruction.
pub open spec fn spec_execute(s: VmState, io: IOMap, instr: u16) -> VmState {
    let op = spec_opcode_of(instr >> 12);
    let dr = field_spec(instr, 9, 11);
    let sr1 = field_spec(instr, 6, 8);
    let off9 = sext_spec(field_spec(instr, 0, 8), 8);
    let off6 = sext_spec(field_spec(instr, 0, 5), 5);
    match op {
        OP::ADD => {
            let b = if bit_set(instr, 5) {
                sext_spec(field_spec(instr, 0, 4), 4)
            } else {
                s.regs[field_spec(instr, 0, 2) as int]
            };
            set_reg_cc(s, dr, wrap_add(s.regs[sr1 as int], b))
        },
        OP::AND => {
            let b = if bit_set(instr, 5) {
                sext_spec(field_spec(instr, 0, 4), 4)
            } else {
                s.regs[field_spec(instr, 0, 2) as int]
            };
            set_reg_cc(s, dr, s.regs[sr1 as int] & b)
        },
        OP::NOT => set_reg_cc(s, dr, !s.regs[sr1 as int]),
        OP::BR => {
            let n = bit_set(instr, 11);
            let z = bit_set(instr, 10);
            let p = bit_set(instr, 9);
            if (s.cond == ConditionCode::NEGATIVE && n) || (s.cond == ConditionCode::ZERO && z) || (
            s.cond == ConditionCode::POSITIVE && p) {
                VmState { pc: wrap_add(s.pc, off9), ..s }
            } else {
                s
            }
        },
        OP::JMP => VmState { pc: s.regs[sr1 as int], ..s },
        OP::JSR => {
            let target = if bit_set(instr, 11) {
                wrap_add(s.pc, sext_spec(field_spec(instr, 0, 10), 10))
            } else {
                s.regs[sr1 as int]
            };
            VmState { regs: s.regs.update(7, s.pc), pc: target, ..s }
        },
        OP::LD => {
            let rd = spec_read_mem(s, io, wrap_add(s.pc, off9));
            set_reg_cc(rd.0, dr, rd.1)
        },
        OP::LDI => {
            let rd1 = spec_read_mem(s, io, wrap_add(s.pc, off9));
            let rd2 = spec_read_mem(rd1.0, io, rd1.1);
            set_reg_cc(rd2.0, dr, rd2.1)
        },
        OP::LDR => {
            let rd = spec_read_mem(s, io, wrap_add(s.regs[sr1 as int], off6));
            set_reg_cc(rd.0, dr, rd.1)
        },
        OP::LEA => set_reg_cc(s, dr, wrap_add(s.pc, off9)),
        OP::ST => spec_write_mem(s, io, wrap_add(s.pc, off9), s.regs[dr as int]),
        OP::STI => {
            let ptr = s.mem[wrap_add(s.pc, off9) as int];
            spec_write_mem(s, io, ptr, s.regs[dr as int])
        },
        OP::STR => spec_write_mem(s, io, wrap_add(s.regs[sr1 as int], off6), s.regs[dr as int]),
        OP::TRAP => {
            let vector = instr & low_mask(8);
            let rd = spec_read_mem(s, io, vector);
            VmState { regs: rd.0.regs.update(7, rd.0.pc), pc: rd.1, ..rd.0 }
        },
        OP::RTI => VmState { run: false, ..s },
        OP::RES => VmState { run: false, ..s },
    }
}

// ---------------------------------------------------------------------------
// The executable machine
// ---------------------------------------------------------------------------

impl VirtualMachine {
    /// A fresh machine: zeroed memory and registers, the conventional
    /// device addresses in the high pages, the display ready, and the
    /// machine-control register's run bit set.
    pub fn new() -> (r: Self)
        ensures
            vm_wf(r),
            r.kbsr_address == 0xfe00,
            r.kbdr_address == 0xfe02,
            r.dsr_address == 0xfe04,
            r.ddr_address == 0xfe06,
            r.mcr_address == 0xfffe,
            r.keyboard_reg == (IORegister { signal: 0, data: 0 }),
            r.display_reg == (IORegister { signal: 0x8000, data: 0 }),
            r.run,
            r.program_counter == 0,
            r.origin == 0,
            forall|k: int| 0 <= k < MAX_MEMORY_SIZE && k != 0xfffe ==> r.memory@[k] == 0,
            r.memory@[0xfffe] == 0x8000,
            forall|k: int| 0 <= k < 8 ==> r.registers.r@[k] == 0,
            r.registers.condition == ConditionCode::POSITIVE,
    {
        let mut memory: Vec<u16> = Vec::new();
        let mut k: usize = 0;
        while k < MAX_MEMORY_SIZE
            invariant
                k <= MAX_MEMORY_SIZE,
                memory@.len() == k,
                forall|j: int| 0 <= j < k ==> memory@[j] == 0,
            decreases MAX_MEMORY_SIZE - k,
        {
            memory.push(0);
            k += 1;
        }
        let mut vm = VirtualMachine {
            memory,
            registers: Registers::new(),
            kbsr_address: 0xfe00,
            kbdr_address: 0xfe02,
            dsr_address: 0xfe04,
            ddr_address: 0xfe06,
            mcr_address: 0xfffe,
            keyboard_reg: IORegister { signal: 0, data: 0 },
            display_reg: IORegister { signal: 0x8000, data: 0 },
            run: true,
            debug_enabled: false,
            program_counter: 0,
            origin: 0,
            current_instruction: Instruction { opcode: OP::RES, word: 0 },
            instruction_count: 0,
        };
        let old_val = vm.memory.remove(0xfffe);
        vm.memory.insert(0xfffe, 0x8000);
        proof {
            assert(vm.memory@ =~= Seq::new(MAX_MEMORY_SIZE as nat, |j: int| 0u16).update(
                0xfffe,
                0x8000,
            ));
        }
        vm
    }

    /// Points the program counter, and the recorded origin, at the start
    /// of the loaded image.
    pub fn set_program_origin(&mut self, pc: u16)
        ensures
            *final(self) == (VirtualMachine { program_counter: pc, origin: pc, ..*old(self) }),
    {
        self.program_counter = pc;
        self.origin = pc;
    }

    /// Points the program counter at the given address.
    pub fn set_program_counter(&mut self, pc: u16)
        ensures
            *final(self) == (VirtualMachine { program_counter: pc, ..*old(self) }),
    {
        self.program_counter = pc;
    }

    /// Hands the machine one keyboard character, exactly as the keyboard
    /// agent does: only when the ready bit is clear does the data register
    /// take the character and the ready bit rise; otherwise the character
    /// is dropped.
    pub fn update_kbdr(&mut self, value: u16)
        ensures
            !bit_set(old(self).keyboard_reg.signal, 15) ==> *final(self) == (VirtualMachine {
                keyboard_reg: IORegister { signal: 0x8000, data: value },
                ..*old(self)
            }),
            bit_set(old(self).keyboard_reg.signal, 15) ==> *final(self) == *old(self),
    {
        if !flag_is_set(self.keyboard_reg.signal, 15) {
            self.keyboard_reg = IORegister { signal: 0x8000, data: value };
        }
    }

    /// Raises the keyboard ready bit.
    pub fn set_kbsr_to_1(&mut self)
        ensures
            *final(self) == (VirtualMachine {
                keyboard_reg: IORegister { signal: 0x8000, data: old(self).keyboard_reg.data },
                ..*old(self)
            }),
    {
        self.keyboard_reg = IORegister { signal: 0x8000, data: self.keyboard_reg.data };
    }

    /// Raises the display ready bit, as the display agent does once it has
    /// emitted the pending character.
    pub fn set_display_ready(&mut self)
        ensures
            *final(self) == (VirtualMachine {
                display_reg: IORegister { signal: 0x8000, data: old(self).display_reg.data },
                ..*old(self)
            }),
    {
        self.display_reg = IORegister { signal: 0x8000, data: self.display_reg.data };
    }

    /// Reads the keyboard data register without consuming it: the ready
    /// bit stays as it is.
    pub fn read_kbdr_wout_update(&self) -> (r: u16)
        ensures
            r == self.keyboard_reg.data,
    {
        self.keyboard_reg.data
    }

    /// Reads one memory word with device interposition.
    pub fn read_memory(&mut self, address: u16) -> (r: u16)
        requires
            vm_wf(*old(self)),
        ensures
            vm_wf(*final(self)),
            ({
                let rd = spec_read_mem(vm_state(*old(self)), io_map(*old(self)), address);
                vm_state(*final(self)) == rd.0 && r == rd.1
            }),
            *final(self) == (VirtualMachine {
                memory: final(self).memory,
                keyboard_reg: final(self).keyboard_reg,
                ..*old(self)
            }),
    {
        if address == self.kbsr_address {
            let v = self.keyboard_reg.signal;
            self.store_word(address, v);
            v
        } else if address == self.kbdr_address {
            let v = self.keyboard_reg.data;
            self.store_word(address, v);
            self.keyboard_reg = IORegister { signal: 0, data: v };
            v
        } else if address == self.dsr_address {
            let v = self.display_reg.signal;
            self.store_word(address, v);
            v
        } else if address == self.ddr_address {
            let v = self.display_reg.data;
            self.store_word(address, v);
            v
        } else {
            self.memory[address as usize]
        }
    }

    /// Writes one memory word, without device interposition.
    fn store_word(&mut self, address: u16, value: u16)
        requires
            vm_wf(*old(self)),
        ensures
            vm_wf(*final(self)),
            final(self).memory@ == old(self).memory@.update(address as int, value),
            *final(self) == (VirtualMachine { memory: final(self).memory, ..*old(self) }),
    {
        let old_val = self.memory.remove(address as usize);
        self.memory.insert(address as usize, value);
        proof {
            assert(final(self).memory@ =~= old(self).memory@.update(address as int, value));
        }
    }

    /// Writes one memory word with device interposition.
    pub fn write_memory(&mut self, address: u16, value: u16)
        requires
            vm_wf(*old(self)),
        ensures
            vm_wf(*final(self)),
            vm_state(*final(self)) == spec_write_mem(
                vm_state(*old(self)),
                io_map(*old(self)),
                address,
                value,
            ),
            *final(self) == (VirtualMachine {
                memory: final(self).memory,
                keyboard_reg: final(self).keyboard_reg,
                display_reg: final(self).display_reg,
                ..*old(self)
            }),
    {
        if address == self.kbsr_address {
            self.keyboard_reg = IORegister { signal: value, data: self.keyboard_reg.data };
        } else if address == self.ddr_address {
            self.display_reg = IORegister { signal: 0, data: value };
        }
        self.store_word(address, value);
    }

    /// Fetches the next instruction word and advances the program counter.
    /// A program counter at the last address halts the machine instead, as
    /// a fatal runtime condition.
    pub fn fetch(&mut self)
        requires
            vm_wf(*old(self)),
        ensures
            vm_wf(*final(self)),
            old(self).program_counter < MAX_MEMORY ==> *final(self) == (VirtualMachine {
                current_instruction: Instruction {
                    opcode: old(self).current_instruction.opcode,
                    word: old(self).memory@[old(self).program_counter as int],
                },
                program_counter: (old(self).program_counter + 1) as u16,
                ..*old(self)
            }),
            old(self).program_counter >= MAX_MEMORY ==> *final(self) == (VirtualMachine {
                run: false,
                ..*old(self)
            }),
    {
        if self.program_counter >= MAX_MEMORY {
            self.run = false;
            return ;
        }
        self.current_instruction = Instruction {
            opcode: self.current_instruction.opcode,
            word: self.memory[self.program_counter as usize],
        };
        self.program_counter = self.program_counter + 1;
    }

    /// Decodes the fetched word's opcode nibble.
    pub fn decode(&mut self)
        ensures
            *final(self) == (VirtualMachine {
                current_instruction: Instruction {
                    opcode: spec_opcode_of(old(self).current_instruction.word >> 12),
                    word: old(self).current_instruction.word,
                },
                ..*old(self)
            }),
    {
        let c = crate::binary_utils::get_opcode_4bit(self.current_instruction.word);
        self.current_instruction = Instruction {
            opcode: Self::u16_to_opcode(c),
            word: self.current_instruction.word,
        };
    }

    /// The operation a nibble denotes.
    fn u16_to_opcode(opcode_4bit: u16) -> (r: OP)
        requires
            opcode_4bit < 16,
        ensures
            r == spec_opcode_of(opcode_4bit),
    {
        if opcode_4bit == 0 {
            OP::BR
        } else if opcode_4bit == 1 {
            OP::ADD
        } else if opcode_4bit == 2 {
            OP::LD
        } else if opcode_4bit == 3 {
            OP::ST
        } else if opcode_4bit == 4 {
            OP::JSR
        } else if opcode_4bit == 5 {
            OP::AND
        } else if opcode_4bit == 6 {
            OP::LDR
        } else if opcode_4bit == 7 {
            OP::STR
        } else if opcode_4bit == 8 {
            OP::RTI
        } else if opcode_4bit == 9 {
            OP::NOT
        } else if opcode_4bit == 10 {
            OP::LDI
        } else if opcode_4bit == 11 {
            OP::STI
        } else if opcode_4bit == 12 {
            OP::JMP
        } else if opcode_4bit == 13 {
            OP::RES
        } else if opcode_4bit == 14 {
            OP::LEA
        } else {
            OP::TRAP
        }
    }

    /// Writes one register.
    pub fn set_reg(&mut self, register: u16, value: u16)
        requires
            vm_wf(*old(self)),
            register <= 7,
        ensures
            vm_wf(*final(self)),
            *final(self) == (VirtualMachine { registers: final(self).registers, ..*old(self) }),
            final(self).registers.r@ == old(self).registers.r@.update(register as int, value),
            final(self).registers.condition == old(self).registers.condition,
    {
        self.registers.set(register, value);
    }

    /// Reads one register.
    pub fn read_reg(&mut self, register: u16) -> (r: u16)
        requires
            vm_wf(*old(self)),
            register <= 7,
        ensures
            *final(self) == *old(self),
            r == old(self).registers.r@[register as int],
    {
        self.registers.read(register)
    }

    /// Sets the condition code from a result: zero gives Z, a negative
    /// word gives N, anything else gives P.
    pub fn update_condition(&mut self, result: u16)
        ensures
            *final(self) == (VirtualMachine { registers: final(self).registers, ..*old(self) }),
            final(self).registers.r@ == old(self).registers.r@,
            final(self).registers.condition == cond_of(result),
    {
        if result == 0 {
            self.registers.condition = ConditionCode::ZERO;
        } else if crate::binary_utils::is_negative(result) {
            self.registers.condition = ConditionCode::NEGATIVE;
        } else {
            self.registers.condition = ConditionCode::POSITIVE;
        }
    }

    /// Places one word of a loaded image directly into memory.
    pub fn ld_instr_to_mem(&mut self, instr: u16, addr: usize)
        requires
            vm_wf(*old(self)),
            addr < MAX_MEMORY_SIZE,
        ensures
            vm_wf(*final(self)),
            final(self).memory@ == old(self).memory@.update(addr as int, instr),
            *final(self) == (VirtualMachine { memory: final(self).memory, ..*old(self) }),
    {
        self.store_word(addr as u16, instr);
        proof {
            assert(addr as u16 as int == addr as int);
        }
    }

    /// Loads an image's words into memory in order, beginning at the given
    /// address, with device interposition untouched.
    pub fn load_binary_into_memory(&mut self, binary: Vec<u16>, program_start_addr: u16)
        requires
            vm_wf(*old(self)),
            program_start_addr + binary@.len() <= MAX_MEMORY_SIZE,
        ensures
            vm_wf(*final(self)),
            final(self).memory@.len() == old(self).memory@.len(),
            forall|k: int|
                0 <= k < binary@.len() ==> final(self).memory@[program_start_addr + k]
                    == binary@[k],
            forall|k: int|
                0 <= k < MAX_MEMORY_SIZE && !(program_start_addr <= k < program_start_addr
                    + binary@.len()) ==> final(self).memory@[k] == old(self).memory@[k],
            *final(self) == (VirtualMachine { memory: final(self).memory, ..*old(self) }),
    {
        let mut offset: usize = 0;
        while offset < binary.len()
            invariant
                offset <= binary@.len(),
                vm_wf(*self),
                program_start_addr + binary@.len() <= MAX_MEMORY_SIZE,
                self.memory@.len() == old(self).memory@.len(),
                forall|k: int|
                    0 <= k < offset ==> self.memory@[program_start_addr + k] == binary@[k],
                forall|k: int|
                    0 <= k < MAX_MEMORY_SIZE && !(program_start_addr <= k < program_start_addr
                        + offset) ==> self.memory@[k] == old(self).memory@[k],
                *self == (VirtualMachine { memory: self.memory, ..*old(self) }),
            decreases binary@.len() - offset,
        {
            let w = binary[offset];
            self.store_word(program_start_addr + (offset as u16), w);
            offset += 1;
        }
    }

    /// Executes the decoded instruction: one step of the mathematical
    /// machine.
    pub fn execute(&mut self)
        requires
            vm_wf(*old(self)),
        ensures
            vm_wf(*final(self)),
            vm_state(*final(self)) == spec_execute(
                vm_state(*old(self)),
                io_map(*old(self)),
                old(self).current_instruction.word,
            ),
            *final(self) == (VirtualMachine {
                memory: final(self).memory,
                registers: final(self).registers,
                keyboard_reg: final(self).keyboard_reg,
                display_reg: final(self).display_reg,
                run: final(self).run,
                program_counter: final(self).program_counter,
                instruction_count: final(self).instruction_count,
                ..*old(self)
            }),
    {
        let instr = self.current_instruction.word;
        let op = Self::u16_to_opcode(crate::binary_utils::get_opcode_4bit(instr));
        match op {
            OP::ADD => self.execute_op_add(instr),
            OP::AND => self.execute_op_and(instr),
            OP::BR => self.execute_op_br(instr),
            OP::ST => self.execute_op_st(instr),
            OP::STI => self.execute_op_sti(instr),
            OP::LD => self.execute_op_ld(instr),
            OP::NOT => self.execute_op_not(instr),
            OP::LDI => self.execute_op_ldi(instr),
            OP::TRAP => self.execute_op_trap(instr),
            OP::JMP => self.execute_op_jmp(instr),
            OP::LEA => self.execute_op_lea(instr),
            OP::LDR => self.execute_op_ldr(instr),
            OP::STR => self.execute_op_str(instr),
            OP::JSR => self.execute_op_jsr(instr),
            OP::RTI => {
                self.run = false;
            },
            OP::RES => {
                self.run = false;
            },
        }
        if self.instruction_count < i32::MAX {
            self.instruction_count = self.instruction_count + 1;
        }
    }

    fn execute_op_add(&mut self, instr: u16)
        requires
            vm_wf(*old(self)),
            old(self).current_instruction.word == instr,
            spec_opcode_of(instr >> 12) == OP::ADD,
        ensures
            vm_wf(*final(self)),
            vm_state(*final(self)) == spec_execute(
                vm_state(*old(self)),
                io_map(*old(self)),
                instr,
            ),
            *final(self) == (VirtualMachine { registers: final(self).registers, ..*old(self) }),
    {
        let dest_r1 = get_register_at(instr, (9, 11));
        let src_r1 = get_register_at(instr, (6, 8));
        let result: u16;
        if !flag_is_set(instr, 5) {
            let src_r2 = get_register_at(instr, (0, 2));
            let a = self.read_reg(src_r1);
            let b = self.read_reg(src_r2);
            result = add_2s_complement(a, b);
        } else {
            let imm5_value = get_sign_ext_value(instr, 5);
            let a = self.read_reg(src_r1);
            result = add_2s_complement(a, imm5_value);
        }
        self.set_reg(dest_r1, result);
        self.update_condition(result);
    }

    fn execute_op_and(&mut self, instr: u16)
        requires
            vm_wf(*old(self)),
            old(self).current_instruction.word == instr,
            spec_opcode_of(instr >> 12) == OP::AND,
        ensures
            vm_wf(*final(self)),
            vm_state(*final(self)) == spec_execute(
                vm_state(*old(self)),
                io_map(*old(self)),
                instr,
            ),
            *final(self) == (VirtualMachine { registers: final(self).registers, ..*old(self) }),
    {
        let dest_r1 = get_register_at(instr, (9, 11));
        let src_r1 = get_register_at(instr, (6, 8));
        let result: u16;
        if !flag_is_set(instr, 5) {
            let src_r2 = get_register_at(instr, (0, 2));
            let a = self.read_reg(src_r1);
            let b = self.read_reg(src_r2);
            result = a & b;
        } else {
            let imm_val_5 = get_sign_ext_value(instr, 5);
            let a = self.read_reg(src_r1);
            result = a & imm_val_5;
        }
        self.update_condition(result);
        self.set_reg(dest_r1, result);
    }

    fn execute_op_not(&mut self, instr: u16)
        requires
            vm_wf(*old(self)),
            old(self).current_instruction.word == instr,
            spec_opcode_of(instr >> 12) == OP::NOT,
        ensures
            vm_wf(*final(self)),
            vm_state(*final(self)) == spec_execute(
                vm_state(*old(self)),
                io_map(*old(self)),
                instr,
            ),
            *final(self) == (VirtualMachine { registers: final(self).registers, ..*old(self) }),
    {
        let dest_reg = get_register_at(instr, (9, 11));
        let src_reg = get_register_at(instr, (6, 8));
        let v = self.read_reg(src_reg);
        let result = !v;
        self.update_condition(result);
        self.set_reg(dest_reg, result);
    }

    fn execute_op_br(&mut self, instr: u16)
        requires
            vm_wf(*old(self)),
            old(self).current_instruction.word == instr,
            spec_opcode_of(instr >> 12) == OP::BR,
        ensures
            vm_wf(*final(self)),
            vm_state(*final(self)) == spec_execute(
                vm_state(*old(self)),
                io_map(*old(self)),
                instr,
            ),
            *final(self) == (VirtualMachine {
                program_counter: final(self).program_counter,
                ..*old(self)
            }),
    {
        let n = flag_is_set(instr, 11);
        let z = flag_is_set(instr, 10);
        let p = flag_is_set(instr, 9);
        let pc_offset_9_ext = get_sign_ext_value(instr, 9);
        let take = match self.registers.condition {
            ConditionCode::NEGATIVE => n,
            ConditionCode::ZERO => z,
            ConditionCode::POSITIVE => p,
        };
        if take {
            self.program_counter = add_2s_complement(self.program_counter, pc_offset_9_ext);
        }
    }

    fn execute_op_st(&mut self, instr: u16)
        requires
            vm_wf(*old(self)),
            old(self).current_instruction.word == instr,
            spec_opcode_of(instr >> 12) == OP::ST,
        ensures
            vm_wf(*final(self)),
            vm_state(*final(self)) == spec_execute(
                vm_state(*old(self)),
                io_map(*old(self)),
                instr,
            ),
            *final(self) == (VirtualMachine {
                memory: final(self).memory,
                keyboard_reg: final(self).keyboard_reg,
                display_reg: final(self).display_reg,
                ..*old(self)
            }),
    {
        let src_r1 = get_register_at(instr, (9, 11));
        let source_reg_contents = self.read_reg(src_r1);
        let pc_offset_9_ext = get_sign_ext_value(instr, 9);
        let evaluated_address = add_2s_complement(self.program_counter, pc_offset_9_ext);
        self.write_memory(evaluated_address, source_reg_contents);
    }

    fn execute_op_sti(&mut self, instr: u16)
        requires
            vm_wf(*old(self)),
            old(self).current_instruction.word == instr,
            spec_opcode_of(instr >> 12) == OP::STI,
        ensures
            vm_wf(*final(self)),
            vm_state(*final(self)) == spec_execute(
                vm_state(*old(self)),
                io_map(*old(self)),
                instr,
            ),
            *final(self) == (VirtualMachine {
                memory: final(self).memory,
                keyboard_reg: final(self).keyboard_reg,
                display_reg: final(self).display_reg,
                ..*old(self)
            }),
    {
        let src_reg = get_register_at(instr, (9, 11));
        let src_reg_contents = self.read_reg(src_reg);
        let pc_offset_9_ext = get_sign_ext_value(instr, 9);
        let evaluated_ptr_address = add_2s_complement(self.program_counter, pc_offset_9_ext);
        let final_target_addr = self.memory[evaluated_ptr_address as usize];
        self.write_memory(final_target_addr, src_reg_contents);
    }

    fn execute_op_ld(&mut self, instr: u16)
        requires
            vm_wf(*old(self)),
            old(self).current_instruction.word == instr,
            spec_opcode_of(instr >> 12) == OP::LD,
        ensures
            vm_wf(*final(self)),
            vm_state(*final(self)) == spec_execute(
                vm_state(*old(self)),
                io_map(*old(self)),
                instr,
            ),
            *final(self) == (VirtualMachine {
                memory: final(self).memory,
                registers: final(self).registers,
                keyboard_reg: final(self).keyboard_reg,
                ..*old(self)
            }),
    {
        let dest_reg = get_register_at(instr, (9, 11));
        let pc_offset_9_ext = get_sign_ext_value(instr, 9);
        let address = add_2s_complement(self.program_counter, pc_offset_9_ext);
        let value = self.read_memory(address);
        self.set_reg(dest_reg, value);
        self.update_condition(value);
    }

    fn execute_op_ldr(&mut self, instr: u16)
        requires
            vm_wf(*old(self)),
            old(self).current_instruction.word == instr,
            spec_opcode_of(instr >> 12) == OP::LDR,
        ensures
            vm_wf(*final(self)),
            vm_state(*final(self)) == spec_execute(
                vm_state(*old(self)),
                io_map(*old(self)),
                instr,
            ),
            *final(self) == (VirtualMachine {
                memory: final(self).memory,
                registers: final(self).registers,
                keyboard_reg: final(self).keyboard_reg,
                ..*old(self)
            }),
    {
        let dest_reg = get_register_at(instr, (9, 11));
        let base_reg = get_register_at(instr, (6, 8));
        let offset_6_ext = get_sign_ext_value(instr, 6);
        let base = self.read_reg(base_reg);
        let address = add_2s_complement(base, offset_6_ext);
        let value = self.read_memory(address);
        self.update_condition(value);
        self.set_reg(dest_reg, value);
    }

    fn execute_op_str(&mut self, instr: u16)
        requires
            vm_wf(*old(self)),
            old(self).current_instruction.word == instr,
            spec_opcode_of(instr >> 12) == OP::STR,
        ensures
            vm_wf(*final(self)),
            vm_state(*final(self)) == spec_execute(
                vm_state(*old(self)),
                io_map(*old(self)),
                instr,
            ),
            *final(self) == (VirtualMachine {
                memory: final(self).memory,
                keyboard_reg: final(self).keyboard_reg,
                display_reg: final(self).display_reg,
                ..*old(self)
            }),
    {
        let src_reg = get_register_at(instr, (9, 11));
        let base_reg = get_register_at(instr, (6, 8));
        let offset_6_ext = get_sign_ext_value(instr, 6);
        let base = self.read_reg(base_reg);
        let address = add_2s_complement(base, offset_6_ext);
        let src_reg_value = self.read_reg(src_reg);
        self.write_memory(address, src_reg_value);
    }

    fn execute_op_lea(&mut self, instr: u16)
        requires
            vm_wf(*old(self)),
            old(self).current_instruction.word == instr,
            spec_opcode_of(instr >> 12) == OP::LEA,
        ensures
            vm_wf(*final(self)),
            vm_state(*final(self)) == spec_execute(
                vm_state(*old(self)),
                io_map(*old(self)),
                instr,
            ),
            *final(self) == (VirtualMachine { registers: final(self).registers, ..*old(self) }),
    {
        let dest_reg = get_register_at(instr, (9, 11));
        let pc_offset_9_ext = get_sign_ext_value(instr, 9);
        let address = add_2s_complement(self.program_counter, pc_offset_9_ext);
        self.update_condition(address);
        self.set_reg(dest_reg, address);
    }

    fn execute_op_ldi(&mut self, instr: u16)
        requires
            vm_wf(*old(self)),
            old(self).current_instruction.word == instr,
            spec_opcode_of(instr >> 12) == OP::LDI,
        ensures
            vm_wf(*final(self)),
            vm_state(*final(self)) == spec_execute(
                vm_state(*old(self)),
                io_map(*old(self)),
                instr,
            ),
            *final(self) == (VirtualMachine {
                memory: final(self).memory,
                registers: final(self).registers,
                keyboard_reg: final(self).keyboard_reg,
                ..*old(self)
            }),
    {
        let dest_reg = get_register_at(instr, (9, 11));
        let pc_offset_9_sext = get_sign_ext_value(instr, 9);
        let first = add_2s_complement(self.program_counter, pc_offset_9_sext);
        let address_to_load_from = self.read_memory(first);
        let value_at_address = self.read_memory(address_to_load_from);
        self.set_reg(dest_reg, value_at_address);
        self.update_condition(value_at_address);
    }

    fn execute_op_jmp(&mut self, instr: u16)
        requires
            vm_wf(*old(self)),
            old(self).current_instruction.word == instr,
            spec_opcode_of(instr >> 12) == OP::JMP,
        ensures
            vm_wf(*final(self)),
            vm_state(*final(self)) == spec_execute(
                vm_state(*old(self)),
                io_map(*old(self)),
                instr,
            ),
            *final(self) == (VirtualMachine {
                program_counter: final(self).program_counter,
                ..*old(self)
            }),
    {
        let base_reg = get_register_at(instr, (6, 8));
        let address_at_base_reg = self.read_reg(base_reg);
        self.program_counter = address_at_base_reg;
    }

    fn execute_op_trap(&mut self, instr: u16)
        requires
            vm_wf(*old(self)),
            old(self).current_instruction.word == instr,
            spec_opcode_of(instr >> 12) == OP::TRAP,
        ensures
            vm_wf(*final(self)),
            vm_state(*final(self)) == spec_execute(
                vm_state(*old(self)),
                io_map(*old(self)),
                instr,
            ),
            *final(self) == (VirtualMachine {
                memory: final(self).memory,
                registers: final(self).registers,
                keyboard_reg: final(self).keyboard_reg,
                program_counter: final(self).program_counter,
                ..*old(self)
            }),
    {
        let trap_vector = truncate_to(instr, 8);
        let address_of_subroutine = self.read_memory(trap_vector);
        let pc = self.program_counter;
        self.set_reg(7, pc);
        self.program_counter = address_of_subroutine;
    }

    fn execute_op_jsr(&mut self, instr: u16)
        requires
            vm_wf(*old(self)),
            old(self).current_instruction.word == instr,
            spec_opcode_of(instr >> 12) == OP::JSR,
        ensures
            vm_wf(*final(self)),
            vm_state(*final(self)) == spec_execute(
                vm_state(*old(self)),
                io_map(*old(self)),
                instr,
            ),
            *final(self) == (VirtualMachine {
                registers: final(self).registers,
                program_counter: final(self).program_counter,
                ..*old(self)
            }),
    {
        let subroutine_addr: u16;
        if flag_is_set(instr, 11) {
            let pcoffset11_sext = get_sign_ext_value(instr, 11);
            subroutine_addr = add_2s_complement(self.program_counter, pcoffset11_sext);
        } else {
            subroutine_addr = self.read_reg(get_register_at(instr, (6, 8)));
        }
        let pc = self.program_counter;
        self.set_reg(7, pc);
        self.program_counter = subroutine_addr;
    }

    /// A placeholder for interactive state dumps; the machine's state is
    /// public to callers that want to render it.
    pub fn dump_machine(&self) {
    }
}


/// The rendered register file from register `i` on: each register as
/// `R<n>: <value>`, space separated.
pub open spec fn spec_registers_display(regs: Seq<u16>, i: nat) -> Seq<char>
    decreases 8 - i,
{
    if i >= 8 {
        Seq::empty()
    } else {
        seq!['R'] + crate::tokenizer::digits_of(i, 10) + seq![':', ' ']
            + crate::tokenizer::digits_of(regs[i as int] as nat, 10) + seq![' ']
            + spec_registers_display(regs, i + 1)
    }
}

impl Registers {
    /// Renders the register file as one line of `R<n>: <value>` fields.
    pub fn display(&self) -> (r: String)
        requires
            registers_wf(*self),
        ensures
            r@ == spec_registers_display(self.r@, 0),
    {
        let mut out: Vec<char> = Vec::new();
        let mut i: usize = 0;
        while i < 8
            invariant
                i <= 8,
                registers_wf(*self),
                spec_registers_display(self.r@, 0) == out@ + spec_registers_display(
                    self.r@,
                    i as nat,
                ),
            decreases 8 - i,
        {
            let ghost pre = out@;
            out.push('R');
            let mut ds = crate::tokenizer::digits_string(i as u16, 10);
            out.append(&mut ds);
            out.push(':');
            out.push(' ');
            let mut vs = crate::tokenizer::digits_string(self.r[i], 10);
            out.append(&mut vs);
            out.push(' ');
            proof {
                assert(crate::tokenizer::digits_of(i as u16 as nat, 10) == crate::tokenizer::digits_of(
                    i as nat,
                    10,
                ));
                assert(out@ =~= pre + (seq!['R'] + crate::tokenizer::digits_of(i as nat, 10)
                    + seq![':', ' '] + crate::tokenizer::digits_of(self.r@[i as int] as nat, 10)
                    + seq![' ']));
                assert(pre + (seq!['R'] + crate::tokenizer::digits_of(i as nat, 10) + seq![':', ' ']
                    + crate::tokenizer::digits_of(self.r@[i as int] as nat, 10) + seq![' ']) + spec_registers_display(
                    self.r@,
                    i as nat + 1,
                ) =~= pre + ((seq!['R'] + crate::tokenizer::digits_of(i as nat, 10) + seq![':', ' ']
                    + crate::tokenizer::digits_of(self.r@[i as int] as nat, 10) + seq![' ']) + spec_registers_display(
                    self.r@,
                    i as nat + 1,
                )));
            }
            i += 1;
        }
        proof {
            assert(out@ + Seq::<char>::empty() =~= out@);
        }
        crate::tokenizer::chars_to_string(&out)
    }
}

} // verus!
