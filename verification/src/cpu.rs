//! The processor: register file, program counter, and the
//! fetch-decode-execute step.
//!
//! The model of a [`Cpu`] is a [`CpuState`]. [`step_spec`] is the transition
//! function of the machine: it maps a state and the memory contents to the
//! state and contents after one step, together with what the step reports.

use crate::instruction::{decode_spec, lemma_encoding_of_decoded, Instruction};
use crate::memory::{in_bounds, load_value, write_le, Memory, Signedness, Width};
use vstd::arithmetic::div_mod::lemma_fundamental_div_mod;
use vstd::arithmetic::div_mod::lemma_fundamental_div_mod_converse;
use vstd::arithmetic::div_mod::lemma_mod_bound;
use vstd::arithmetic::power2::lemma2_to64;
use vstd::arithmetic::power2::lemma_pow2_pos;
use vstd::arithmetic::power2::lemma_pow2_strictly_increases;
use vstd::arithmetic::power2::pow2;
use vstd::bits::lemma_u32_shr_is_div;
use vstd::bits::lemma_u64_shl_is_mul;
use vstd::prelude::*;

verus! {

/// Number of bytes of one instruction, and the alignment of `pc`.
pub const INSTRUCTION_BYTES: u32 = 4;

/// Why the processor stopped.
#[derive(Clone, Copy, Debug, PartialEq, Eq, Structural)]
pub enum FaultKind {
    /// A fetch, load or store reached outside the memory.
    OutOfBounds,
    /// The fetched word, or the instruction handed in, is no supported
    /// instruction.
    IllegalInstruction,
    /// `pc`, or the target of a taken branch or jump, is no multiple of four.
    MisalignedAccess,
}

/// What one step reports.
#[derive(Clone, Copy, Debug, PartialEq, Eq, Structural)]
pub enum StepResult {
    /// An instruction was executed.
    Executed,
    /// The processor is faulted; nothing was executed.
    Fault(FaultKind),
}

/// The processor. All of its state is open to the driver, for inspection and
/// for setting up a run.
#[derive(Clone, Copy, Debug, PartialEq, Eq)]
pub struct Cpu {
    /// The register file. Register 0 reads as zero whatever this array holds
    /// at index 0, and no instruction writes there.
    pub registers: [u32; 32],
    /// Address of the next instruction.
    pub pc: u32,
    /// `Some` once the processor has faulted, until it is reset.
    pub fault: Option<FaultKind>,
}

/// The mathematical model of a processor.
pub struct CpuState {
    /// The 32 registers.
    pub registers: Seq<u32>,
    /// Address of the next instruction.
    pub pc: u32,
    /// `Some` in the faulted state, `None` in the running state.
    pub fault: Option<FaultKind>,
}

impl View for Cpu {
    type V = CpuState;

    open spec fn view(&self) -> CpuState {
        CpuState { registers: self.registers@, pc: self.pc, fault: self.fault }
    }
}

/// The value of `value` modulo `2^32`.
pub open spec fn wrap32(value: int) -> u32 {
    (value % 0x1_0000_0000) as u32
}

/// The number that `value` spells in two's complement.
pub open spec fn signed(value: u32) -> int {
    if value < 0x8000_0000 {
        value as int
    } else {
        value - 0x1_0000_0000
    }
}

impl CpuState {
    /// The state after construction and after a reset: every register and
    /// `pc` are zero, and the processor is running.
    pub open spec fn initial() -> CpuState {
        CpuState { registers: Seq::new(32, |i: int| 0u32), pc: 0, fault: None }
    }

    /// The invariants of a register file: 32 registers, register 0 holds
    /// zero, and `pc` is a multiple of four.
    pub open spec fn wf(self) -> bool {
        &&& self.registers.len() == 32
        &&& self.registers[0] == 0
        &&& self.pc % 4 == 0
    }

    /// What reading register `index` gives. Register 0 always reads as zero.
    pub open spec fn reg(self, index: int) -> u32 {
        if index == 0 {
            0
        } else {
            self.registers[index]
        }
    }

    /// The state after `value` was written to register `rd`. A write to
    /// register 0 is discarded.
    pub open spec fn write(self, rd: int, value: u32) -> CpuState {
        if rd == 0 {
            self
        } else {
            CpuState { registers: self.registers.update(rd, value), ..self }
        }
    }

    /// The state with `pc` set to `target`.
    pub open spec fn goto(self, target: u32) -> CpuState {
        CpuState { pc: target, ..self }
    }

    /// The state after a reset: the initial state, whatever came before.
    pub open spec fn reset(self) -> CpuState {
        CpuState::initial()
    }

    /// The faulted state that keeps registers and `pc`.
    pub open spec fn faulted(self, kind: FaultKind) -> CpuState {
        CpuState { fault: Some(kind), ..self }
    }
}

/// Where the machine stands after one step: the processor, the memory
/// contents, and what the step reports.
pub struct Outcome {
    /// The processor after the step.
    pub state: CpuState,
    /// The memory contents after the step.
    pub memory: Seq<u8>,
    /// What the step reports.
    pub result: StepResult,
}

/// The bits of `value` in two's complement, as a register value.
pub open spec fn unsigned(value: i32) -> u32 {
    wrap32(value as int)
}

/// `value` shifted left by `amount` bits: `value * 2^amount` modulo `2^32`.
pub open spec fn shift_left(value: u32, amount: u32) -> u32 {
    wrap32(value * pow2(amount as nat))
}

/// `value` shifted right by `amount` bits, zeros filling the top: the
/// quotient of `value` by `2^amount`.
pub open spec fn shift_right(value: u32, amount: u32) -> u32 {
    (value as int / pow2(amount as nat) as int) as u32
}

/// `value` shifted right by `amount` bits, the sign bit filling the top: the
/// number that `value` spells in two's complement, divided by `2^amount` and
/// rounded down.
pub open spec fn arithmetic_shift_right(value: u32, amount: u32) -> u32 {
    wrap32(signed(value) / pow2(amount as nat) as int)
}

/// 1 if `condition` holds, else 0.
pub open spec fn flag(condition: bool) -> u32 {
    if condition {
        1
    } else {
        0
    }
}

/// The processor faults with `kind`: registers, `pc` and memory stay as they
/// are.
pub open spec fn faults(state: CpuState, memory: Seq<u8>, kind: FaultKind) -> Outcome {
    Outcome { state: state.faulted(kind), memory, result: StepResult::Fault(kind) }
}

/// `value` goes to register `rd`, and `pc` advances by one instruction.
pub open spec fn computes(state: CpuState, memory: Seq<u8>, rd: usize, value: u32) -> Outcome {
    Outcome {
        state: state.write(rd as int, value).goto(wrap32(state.pc + 4)),
        memory,
        result: StepResult::Executed,
    }
}

/// A load of `width` bytes at `address` into register `rd`. An access outside
/// the memory is a fault.
pub open spec fn loads(
    state: CpuState,
    memory: Seq<u8>,
    rd: usize,
    address: u32,
    width: Width,
    signedness: Signedness,
) -> Outcome {
    if in_bounds(memory.len(), address as int, width) {
        computes(state, memory, rd, load_value(memory, address as int, width, signedness))
    } else {
        faults(state, memory, FaultKind::OutOfBounds)
    }
}

/// A store of the low `width` bytes of `value` at `address`. An access
/// outside the memory is a fault.
pub open spec fn stores(
    state: CpuState,
    memory: Seq<u8>,
    address: u32,
    value: u32,
    width: Width,
) -> Outcome {
    if in_bounds(memory.len(), address as int, width) {
        Outcome {
            state: state.goto(wrap32(state.pc + 4)),
            memory: write_le(memory, address as int, value, width),
            result: StepResult::Executed,
        }
    } else {
        faults(state, memory, FaultKind::OutOfBounds)
    }
}

/// A conditional branch. Taken, it sets `pc` to `pc + offset`; a target that
/// is no multiple of four is a fault. Not taken, `pc` advances by one
/// instruction.
pub open spec fn branches(state: CpuState, memory: Seq<u8>, taken: bool, offset: i32) -> Outcome {
    let target = wrap32(state.pc + offset);
    if !taken {
        Outcome { state: state.goto(wrap32(state.pc + 4)), memory, result: StepResult::Executed }
    } else if target % 4 != 0 {
        faults(state, memory, FaultKind::MisalignedAccess)
    } else {
        Outcome { state: state.goto(target), memory, result: StepResult::Executed }
    }
}

/// A jump to `target` that leaves the address of the next instruction in
/// register `rd`. A target that is no multiple of four is a fault, and `rd`
/// is then not written.
pub open spec fn jumps(state: CpuState, memory: Seq<u8>, rd: usize, target: u32) -> Outcome {
    if target % 4 != 0 {
        faults(state, memory, FaultKind::MisalignedAccess)
    } else {
        Outcome {
            state: state.write(rd as int, wrap32(state.pc + 4)).goto(target),
            memory,
            result: StepResult::Executed,
        }
    }
}

/// The effect of a well-formed instruction on a running processor.
pub open spec fn apply_spec(state: CpuState, memory: Seq<u8>, inst: Instruction) -> Outcome {
    match inst {
        Instruction::Add(rd, rs1, rs2) => computes(
            state,
            memory,
            rd,
            wrap32(state.reg(rs1 as int) + state.reg(rs2 as int)),
        ),
        Instruction::Sub(rd, rs1, rs2) => computes(
            state,
            memory,
            rd,
            wrap32(state.reg(rs1 as int) - state.reg(rs2 as int)),
        ),
        Instruction::Sll(rd, rs1, rs2) => computes(
            state,
            memory,
            rd,
            shift_left(state.reg(rs1 as int), state.reg(rs2 as int) % 32),
        ),
        Instruction::Slt(rd, rs1, rs2) => computes(
            state,
            memory,
            rd,
            flag(signed(state.reg(rs1 as int)) < signed(state.reg(rs2 as int))),
        ),
        Instruction::Sltu(rd, rs1, rs2) => computes(
            state,
            memory,
            rd,
            flag(state.reg(rs1 as int) < state.reg(rs2 as int)),
        ),
        Instruction::Xor(rd, rs1, rs2) => computes(
            state,
            memory,
            rd,
            state.reg(rs1 as int) ^ state.reg(rs2 as int),
        ),
        Instruction::Srl(rd, rs1, rs2) => computes(
            state,
            memory,
            rd,
            shift_right(state.reg(rs1 as int), state.reg(rs2 as int) % 32),
        ),
        Instruction::Sra(rd, rs1, rs2) => computes(
            state,
            memory,
            rd,
            arithmetic_shift_right(state.reg(rs1 as int), state.reg(rs2 as int) % 32),
        ),
        Instruction::Or(rd, rs1, rs2) => computes(
            state,
            memory,
            rd,
            state.reg(rs1 as int) | state.reg(rs2 as int),
        ),
        Instruction::And(rd, rs1, rs2) => computes(
            state,
            memory,
            rd,
            state.reg(rs1 as int) & state.reg(rs2 as int),
        ),
        Instruction::Addi(rd, rs1, imm) => computes(
            state,
            memory,
            rd,
            wrap32(state.reg(rs1 as int) + imm),
        ),
        Instruction::Slti(rd, rs1, imm) => computes(
            state,
            memory,
            rd,
            flag(signed(state.reg(rs1 as int)) < imm),
        ),
        Instruction::Sltiu(rd, rs1, imm) => computes(
            state,
            memory,
            rd,
            flag(state.reg(rs1 as int) < unsigned(imm)),
        ),
        Instruction::Xori(rd, rs1, imm) => computes(
            state,
            memory,
            rd,
            state.reg(rs1 as int) ^ unsigned(imm),
        ),
        Instruction::Ori(rd, rs1, imm) => computes(
            state,
            memory,
            rd,
            state.reg(rs1 as int) | unsigned(imm),
        ),
        Instruction::Andi(rd, rs1, imm) => computes(
            state,
            memory,
            rd,
            state.reg(rs1 as int) & unsigned(imm),
        ),
        Instruction::Slli(rd, rs1, shamt) => computes(
            state,
            memory,
            rd,
            shift_left(state.reg(rs1 as int), shamt),
        ),
        Instruction::Srli(rd, rs1, shamt) => computes(
            state,
            memory,
            rd,
            shift_right(state.reg(rs1 as int), shamt),
        ),
        Instruction::Srai(rd, rs1, shamt) => computes(
            state,
            memory,
            rd,
            arithmetic_shift_right(state.reg(rs1 as int), shamt),
        ),
        Instruction::Lb(rd, rs1, imm) => loads(
            state,
            memory,
            rd,
            wrap32(state.reg(rs1 as int) + imm),
            Width::Byte,
            Signedness::Signed,
        ),
        Instruction::Lh(rd, rs1, imm) => loads(
            state,
            memory,
            rd,
            wrap32(state.reg(rs1 as int) + imm),
            Width::Half,
            Signedness::Signed,
        ),
        Instruction::Lw(rd, rs1, imm) => loads(
            state,
            memory,
            rd,
            wrap32(state.reg(rs1 as int) + imm),
            Width::Word,
            Signedness::Signed,
        ),
        Instruction::Lbu(rd, rs1, imm) => loads(
            state,
            memory,
            rd,
            wrap32(state.reg(rs1 as int) + imm),
            Width::Byte,
            Signedness::Unsigned,
        ),
        Instruction::Lhu(rd, rs1, imm) => loads(
            state,
            memory,
            rd,
            wrap32(state.reg(rs1 as int) + imm),
            Width::Half,
            Signedness::Unsigned,
        ),
        Instruction::Sb(rs1, rs2, imm) => stores(
            state,
            memory,
            wrap32(state.reg(rs1 as int) + imm),
            state.reg(rs2 as int),
            Width::Byte,
        ),
        Instruction::Sh(rs1, rs2, imm) => stores(
            state,
            memory,
            wrap32(state.reg(rs1 as int) + imm),
            state.reg(rs2 as int),
            Width::Half,
        ),
        Instruction::Sw(rs1, rs2, imm) => stores(
            state,
            memory,
            wrap32(state.reg(rs1 as int) + imm),
            state.reg(rs2 as int),
            Width::Word,
        ),
        Instruction::Beq(rs1, rs2, offset) => branches(
            state,
            memory,
            state.reg(rs1 as int) == state.reg(rs2 as int),
            offset,
        ),
        Instruction::Bne(rs1, rs2, offset) => branches(
            state,
            memory,
            state.reg(rs1 as int) != state.reg(rs2 as int),
            offset,
        ),
        Instruction::Blt(rs1, rs2, offset) => branches(
            state,
            memory,
            signed(state.reg(rs1 as int)) < signed(state.reg(rs2 as int)),
            offset,
        ),
        Instruction::Bge(rs1, rs2, offset) => branches(
            state,
            memory,
            signed(state.reg(rs1 as int)) >= signed(state.reg(rs2 as int)),
            offset,
        ),
        Instruction::Bltu(rs1, rs2, offset) => branches(
            state,
            memory,
            state.reg(rs1 as int) < state.reg(rs2 as int),
            offset,
        ),
        Instruction::Bgeu(rs1, rs2, offset) => branches(
            state,
            memory,
            state.reg(rs1 as int) >= state.reg(rs2 as int),
            offset,
        ),
        Instruction::Jal(rd, offset) => jumps(state, memory, rd, wrap32(state.pc + offset)),
        Instruction::Jalr(rd, rs1, imm) => {
            let sum = wrap32(state.reg(rs1 as int) + imm);
            jumps(state, memory, rd, (sum - sum % 2) as u32)
        },
        Instruction::Lui(rd, imm) => computes(state, memory, rd, imm),
        Instruction::Auipc(rd, imm) => computes(state, memory, rd, wrap32(state.pc + imm)),
    }
}

/// The effect of handing `inst` to the processor. A faulted processor does
/// nothing and reports its fault again; an instruction that is not well
/// formed is an illegal instruction.
pub open spec fn execute_spec(state: CpuState, memory: Seq<u8>, inst: Instruction) -> Outcome {
    if let Some(kind) = state.fault {
        Outcome { state, memory, result: StepResult::Fault(kind) }
    } else if !inst.wf() {
        faults(state, memory, FaultKind::IllegalInstruction)
    } else {
        apply_spec(state, memory, inst)
    }
}

/// The word that a fetch at `pc` reads.
pub open spec fn fetched_word(memory: Seq<u8>, pc: u32) -> u32 {
    load_value(memory, pc as int, Width::Word, Signedness::Unsigned)
}

/// The transition function of the machine: one fetch-decode-execute step.
///
/// * A faulted processor does nothing and reports its fault again.
/// * A `pc` that is no multiple of four is a misaligned access.
/// * A fetch outside the memory is an out-of-bounds fault.
/// * A word that decodes to nothing is an illegal instruction.
/// * Else the decoded instruction is applied.
pub open spec fn step_spec(state: CpuState, memory: Seq<u8>) -> Outcome {
    if let Some(kind) = state.fault {
        Outcome { state, memory, result: StepResult::Fault(kind) }
    } else if state.pc % 4 != 0 {
        faults(state, memory, FaultKind::MisalignedAccess)
    } else if !in_bounds(memory.len(), state.pc as int, Width::Word) {
        faults(state, memory, FaultKind::OutOfBounds)
    } else {
        match decode_spec(fetched_word(memory, state.pc)) {
            None => faults(state, memory, FaultKind::IllegalInstruction),
            Some(inst) => apply_spec(state, memory, inst),
        }
    }
}

impl Cpu {
    /// A processor with every register and `pc` zero, in the running state.
    pub fn new() -> (cpu: Cpu)
        ensures
            cpu@ == CpuState::initial(),
            forall|i: int| 0 <= i < 32 ==> cpu@.reg(i) == 0,
            cpu.pc == 0,
            cpu.fault is None,
    {
        let cpu = Cpu { registers: [0u32; 32], pc: 0, fault: None };
        assert(cpu@.registers =~= CpuState::initial().registers);
        cpu
    }

    /// Sets every register and `pc` back to zero and leaves the faulted
    /// state.
    pub fn reset(&mut self)
        ensures
            final(self)@ == old(self)@.reset(),
            forall|i: int| 0 <= i < 32 ==> final(self)@.reg(i) == 0,
            final(self).pc == 0,
            final(self).fault is None,
    {
        self.registers = [0u32; 32];
        self.pc = 0;
        self.fault = None;
        assert(self@.registers =~= CpuState::initial().registers);
    }

    /// Reads register `index`. Register 0 always reads as zero.
    pub fn register(&self, index: usize) -> (value: u32)
        requires
            index < 32,
        ensures
            value == self@.reg(index as int),
            index == 0 ==> value == 0,
    {
        if index == 0 {
            0
        } else {
            self.registers[index]
        }
    }

    /// The address of the next instruction.
    pub fn pc(&self) -> (pc: u32)
        ensures
            pc == self@.pc,
    {
        self.pc
    }

    /// Writes `value` to register `rd`; a write to register 0 is discarded.
    fn write_register(&mut self, rd: usize, value: u32)
        requires
            rd < 32,
        ensures
            final(self)@ == old(self)@.write(rd as int, value),
    {
        if rd != 0 {
            self.registers[rd] = value;
        }
    }

    /// Moves `pc` to the next instruction.
    fn advance(&mut self) -> (result: StepResult)
        ensures
            final(self)@ == old(self)@.goto(wrap32(old(self)@.pc + 4)),
            result == StepResult::Executed,
    {
        self.pc = sum_of(self.pc, INSTRUCTION_BYTES);
        StepResult::Executed
    }

    /// Enters the faulted state.
    fn fail(&mut self, kind: FaultKind) -> (result: StepResult)
        ensures
            final(self)@ == old(self)@.faulted(kind),
            result == StepResult::Fault(kind),
    {
        self.fault = Some(kind);
        StepResult::Fault(kind)
    }

    /// Writes `value` to `rd` and moves on to the next instruction.
    fn compute(&mut self, rd: usize, value: u32) -> (result: StepResult)
        requires
            rd < 32,
        ensures
            final(self)@ == old(self)@.write(rd as int, value).goto(wrap32(old(self)@.pc + 4)),
            result == StepResult::Executed,
    {
        self.write_register(rd, value);
        self.advance()
    }

    /// Loads from `memory` into `rd`.
    fn load_into(
        &mut self,
        memory: &Memory,
        rd: usize,
        address: u32,
        width: Width,
        signedness: Signedness,
    ) -> (result: StepResult)
        requires
            rd < 32,
        ensures
            (Outcome { state: final(self)@, memory: memory@, result }) == loads(
                old(self)@,
                memory@,
                rd,
                address,
                width,
                signedness,
            ),
    {
        match memory.load(address as usize, width, signedness) {
            Ok(value) => self.compute(rd, value),
            Err(_) => self.fail(FaultKind::OutOfBounds),
        }
    }

    /// Stores `value` to `memory`.
    fn store_from(&mut self, memory: &mut Memory, address: u32, value: u32, width: Width) -> (result:
        StepResult)
        ensures
            (Outcome { state: final(self)@, memory: final(memory)@, result }) == stores(
                old(self)@,
                old(memory)@,
                address,
                value,
                width,
            ),
    {
        match memory.store(address as usize, value, width) {
            Ok(()) => self.advance(),
            Err(_) => self.fail(FaultKind::OutOfBounds),
        }
    }

    /// Takes or passes a conditional branch.
    fn branch(&mut self, taken: bool, offset: i32) -> (result: StepResult)
        ensures
            final(self)@ == branches(old(self)@, Seq::empty(), taken, offset).state,
            result == branches(old(self)@, Seq::empty(), taken, offset).result,
    {
        if !taken {
            self.advance()
        } else {
            let target = offset_by(self.pc, offset);
            if target % 4 != 0 {
                self.fail(FaultKind::MisalignedAccess)
            } else {
                self.pc = target;
                StepResult::Executed
            }
        }
    }

    /// Jumps to `target`, leaving the return address in `rd`.
    fn jump(&mut self, rd: usize, target: u32) -> (result: StepResult)
        requires
            rd < 32,
        ensures
            final(self)@ == jumps(old(self)@, Seq::empty(), rd, target).state,
            result == jumps(old(self)@, Seq::empty(), rd, target).result,
    {
        if target % 4 != 0 {
            self.fail(FaultKind::MisalignedAccess)
        } else {
            let link = sum_of(self.pc, INSTRUCTION_BYTES);
            self.write_register(rd, link);
            self.pc = target;
            StepResult::Executed
        }
    }

    /// Applies a well-formed instruction.
    fn apply(&mut self, memory: &mut Memory, inst: Instruction) -> (result: StepResult)
        requires
            inst.wf(),
        ensures
            (Outcome { state: final(self)@, memory: final(memory)@, result }) == apply_spec(
                old(self)@,
                old(memory)@,
                inst,
            ),
    {
        match inst {
            Instruction::Add(rd, rs1, rs2) => {
                let value = sum_of(self.register(rs1), self.register(rs2));
                self.compute(rd, value)
            },
            Instruction::Sub(rd, rs1, rs2) => {
                let value = difference_of(self.register(rs1), self.register(rs2));
                self.compute(rd, value)
            },
            Instruction::Sll(rd, rs1, rs2) => {
                let value = shift_left_by(self.register(rs1), self.register(rs2) % 32);
                self.compute(rd, value)
            },
            Instruction::Slt(rd, rs1, rs2) => {
                let less = to_signed(self.register(rs1)) < to_signed(self.register(rs2));
                self.compute(rd, to_flag(less))
            },
            Instruction::Sltu(rd, rs1, rs2) => {
                let less = self.register(rs1) < self.register(rs2);
                self.compute(rd, to_flag(less))
            },
            Instruction::Xor(rd, rs1, rs2) => {
                let value = self.register(rs1) ^ self.register(rs2);
                self.compute(rd, value)
            },
            Instruction::Srl(rd, rs1, rs2) => {
                let value = shift_right_by(self.register(rs1), self.register(rs2) % 32);
                self.compute(rd, value)
            },
            Instruction::Sra(rd, rs1, rs2) => {
                let value = shift_right_signed(self.register(rs1), self.register(rs2) % 32);
                self.compute(rd, value)
            },
            Instruction::Or(rd, rs1, rs2) => {
                let value = self.register(rs1) | self.register(rs2);
                self.compute(rd, value)
            },
            Instruction::And(rd, rs1, rs2) => {
                let value = self.register(rs1) & self.register(rs2);
                self.compute(rd, value)
            },
            Instruction::Addi(rd, rs1, imm) => {
                let value = offset_by(self.register(rs1), imm);
                self.compute(rd, value)
            },
            Instruction::Slti(rd, rs1, imm) => {
                let less = to_signed(self.register(rs1)) < imm;
                self.compute(rd, to_flag(less))
            },
            Instruction::Sltiu(rd, rs1, imm) => {
                let less = self.register(rs1) < to_unsigned(imm);
                self.compute(rd, to_flag(less))
            },
            Instruction::Xori(rd, rs1, imm) => {
                let value = self.register(rs1) ^ to_unsigned(imm);
                self.compute(rd, value)
            },
            Instruction::Ori(rd, rs1, imm) => {
                let value = self.register(rs1) | to_unsigned(imm);
                self.compute(rd, value)
            },
            Instruction::Andi(rd, rs1, imm) => {
                let value = self.register(rs1) & to_unsigned(imm);
                self.compute(rd, value)
            },
            Instruction::Slli(rd, rs1, shamt) => {
                let value = shift_left_by(self.register(rs1), shamt);
                self.compute(rd, value)
            },
            Instruction::Srli(rd, rs1, shamt) => {
                let value = shift_right_by(self.register(rs1), shamt);
                self.compute(rd, value)
            },
            Instruction::Srai(rd, rs1, shamt) => {
                let value = shift_right_signed(self.register(rs1), shamt);
                self.compute(rd, value)
            },
            Instruction::Lb(rd, rs1, imm) => {
                let address = offset_by(self.register(rs1), imm);
                self.load_into(memory, rd, address, Width::Byte, Signedness::Signed)
            },
            Instruction::Lh(rd, rs1, imm) => {
                let address = offset_by(self.register(rs1), imm);
                self.load_into(memory, rd, address, Width::Half, Signedness::Signed)
            },
            Instruction::Lw(rd, rs1, imm) => {
                let address = offset_by(self.register(rs1), imm);
                self.load_into(memory, rd, address, Width::Word, Signedness::Signed)
            },
            Instruction::Lbu(rd, rs1, imm) => {
                let address = offset_by(self.register(rs1), imm);
                self.load_into(memory, rd, address, Width::Byte, Signedness::Unsigned)
            },
            Instruction::Lhu(rd, rs1, imm) => {
                let address = offset_by(self.register(rs1), imm);
                self.load_into(memory, rd, address, Width::Half, Signedness::Unsigned)
            },
            Instruction::Sb(rs1, rs2, imm) => {
                let address = offset_by(self.register(rs1), imm);
                self.store_from(memory, address, self.register(rs2), Width::Byte)
            },
            Instruction::Sh(rs1, rs2, imm) => {
                let address = offset_by(self.register(rs1), imm);
                self.store_from(memory, address, self.register(rs2), Width::Half)
            },
            Instruction::Sw(rs1, rs2, imm) => {
                let address = offset_by(self.register(rs1), imm);
                self.store_from(memory, address, self.register(rs2), Width::Word)
            },
            Instruction::Beq(rs1, rs2, offset) => {
                let taken = self.register(rs1) == self.register(rs2);
                self.branch(taken, offset)
            },
            Instruction::Bne(rs1, rs2, offset) => {
                let taken = self.register(rs1) != self.register(rs2);
                self.branch(taken, offset)
            },
            Instruction::Blt(rs1, rs2, offset) => {
                let taken = to_signed(self.register(rs1)) < to_signed(self.register(rs2));
                self.branch(taken, offset)
            },
            Instruction::Bge(rs1, rs2, offset) => {
                let taken = to_signed(self.register(rs1)) >= to_signed(self.register(rs2));
                self.branch(taken, offset)
            },
            Instruction::Bltu(rs1, rs2, offset) => {
                let taken = self.register(rs1) < self.register(rs2);
                self.branch(taken, offset)
            },
            Instruction::Bgeu(rs1, rs2, offset) => {
                let taken = self.register(rs1) >= self.register(rs2);
                self.branch(taken, offset)
            },
            Instruction::Jal(rd, offset) => {
                let target = offset_by(self.pc, offset);
                self.jump(rd, target)
            },
            Instruction::Jalr(rd, rs1, imm) => {
                let sum = offset_by(self.register(rs1), imm);
                self.jump(rd, sum - sum % 2)
            },
            Instruction::Lui(rd, imm) => self.compute(rd, imm),
            Instruction::Auipc(rd, imm) => {
                let value = sum_of(self.pc, imm);
                self.compute(rd, value)
            },
        }
    }

    /// Executes `inst` as if it had been fetched and decoded. A faulted
    /// processor does nothing and reports its fault again; an instruction
    /// that is not well formed faults as an illegal instruction.
    pub fn execute(&mut self, memory: &mut Memory, inst: Instruction) -> (result: StepResult)
        ensures
            (Outcome { state: final(self)@, memory: final(memory)@, result }) == execute_spec(
                old(self)@,
                old(memory)@,
                inst,
            ),
    {
        if let Some(kind) = self.fault {
            StepResult::Fault(kind)
        } else if !inst.is_well_formed() {
            self.fail(FaultKind::IllegalInstruction)
        } else {
            self.apply(memory, inst)
        }
    }

    /// One fetch-decode-execute step on `memory`: see [`step_spec`].
    pub fn step(&mut self, memory: &mut Memory) -> (result: StepResult)
        ensures
            (Outcome { state: final(self)@, memory: final(memory)@, result }) == step_spec(
                old(self)@,
                old(memory)@,
            ),
    {
        if let Some(kind) = self.fault {
            return StepResult::Fault(kind);
        }
        if self.pc % INSTRUCTION_BYTES != 0 {
            return self.fail(FaultKind::MisalignedAccess);
        }
        match memory.load(self.pc as usize, Width::Word, Signedness::Unsigned) {
            Err(_) => self.fail(FaultKind::OutOfBounds),
            Ok(word) => match Instruction::decode(word) {
                None => self.fail(FaultKind::IllegalInstruction),
                Some(inst) => {
                    proof {
                        lemma_encoding_of_decoded(word);
                    }
                    self.apply(memory, inst)
                },
            },
        }
    }
}

/// A cast between `u32` and `i32` keeps the bits: it adds or takes away
/// `2^32` where the number does not fit.
proof fn lemma_casts(value: u32, number: i32)
    by (bit_vector)
    ensures
        value < 0x8000_0000u32 ==> (value as i32) == value,
        value >= 0x8000_0000u32 ==> (value as i32) == value - 0x1_0000_0000,
        number >= 0i32 ==> (number as u32) == number,
        number < 0i32 ==> (number as u32) == number + 0x1_0000_0000,
{
}

/// `a + b` modulo `2^32`.
fn sum_of(a: u32, b: u32) -> (sum: u32)
    ensures
        sum == wrap32(a + b),
{
    a.wrapping_add(b)
}

/// `a - b` modulo `2^32`.
fn difference_of(a: u32, b: u32) -> (difference: u32)
    ensures
        difference == wrap32(a - b),
{
    a.wrapping_sub(b)
}

/// `base + offset` modulo `2^32`.
fn offset_by(base: u32, offset: i32) -> (sum: u32)
    ensures
        sum == wrap32(base + offset),
{
    base.wrapping_add_signed(offset)
}

/// Reads `value` in two's complement.
fn to_signed(value: u32) -> (number: i32)
    ensures
        number == signed(value),
{
    proof {
        lemma_casts(value, 0);
    }
    value as i32
}

/// The two's-complement bits of `number`.
fn to_unsigned(number: i32) -> (value: u32)
    ensures
        value == unsigned(number),
{
    proof {
        lemma_casts(0, number);
    }
    number as u32
}

/// 1 for `true`, 0 for `false`.
fn to_flag(condition: bool) -> (value: u32)
    ensures
        value == flag(condition),
{
    if condition {
        1
    } else {
        0
    }
}

/// A left shift in 32 bits is the low half of the same shift in 64 bits,
/// where nothing is lost.
proof fn lemma_shift_left_bits(value: u32, amount: u32)
    by (bit_vector)
    requires
        amount < 32,
    ensures
        (value << amount) as u64 == ((value as u64) << (amount as u64)) % 0x1_0000_0000u64,
{
}

/// An arithmetic right shift, written with logical shifts: a negative number
/// is complemented, shifted, and complemented again.
proof fn lemma_shift_right_signed_bits(value: u32, amount: u32)
    by (bit_vector)
    requires
        amount < 32,
    ensures
        value < 0x8000_0000u32 ==> (((value as i32) >> amount) as u32) == value >> amount,
        value >= 0x8000_0000u32 ==> (((value as i32) >> amount) as u32) == !((!value) >> amount),
        !value == 0xffff_ffffu32 - value,
        !((!value) >> amount) == 0xffff_ffffu32 - ((!value) >> amount),
{
}

/// Rounding down the quotient of a negative number, by way of the quotient
/// of a nonnegative one.
proof fn lemma_floor_of_negative(n: int, d: int)
    requires
        n < 0,
        d > 0,
    ensures
        n / d == -1 - (-n - 1) / d,
{
    let m = -n - 1;
    let q = m / d;
    let r = m % d;
    lemma_fundamental_div_mod(m, d);
    lemma_mod_bound(m, d);
    assert(n == d * (-1 - q) + (d - r - 1)) by (nonlinear_arith)
        requires
            m == d * q + r,
            n == -m - 1,
    ;
    lemma_fundamental_div_mod_converse(n, d, -1 - q, d - r - 1);
}

/// Left shift.
fn shift_left_by(value: u32, amount: u32) -> (shifted: u32)
    requires
        amount < 32,
    ensures
        shifted == shift_left(value, amount),
{
    proof {
        lemma2_to64();
        lemma_pow2_strictly_increases(amount as nat, 32);
        assert(value * pow2(amount as nat) <= u64::MAX) by (nonlinear_arith)
            requires
                value <= 0xffff_ffff,
                pow2(amount as nat) < 0x1_0000_0000,
        ;
        lemma_u64_shl_is_mul(value as u64, amount as u64);
        lemma_shift_left_bits(value, amount);
    }
    value << amount
}

/// Logical right shift.
fn shift_right_by(value: u32, amount: u32) -> (shifted: u32)
    requires
        amount < 32,
    ensures
        shifted == shift_right(value, amount),
{
    proof {
        lemma_u32_shr_is_div(value, amount);
    }
    value >> amount
}

/// Arithmetic right shift.
fn shift_right_signed(value: u32, amount: u32) -> (shifted: u32)
    requires
        amount < 32,
    ensures
        shifted == arithmetic_shift_right(value, amount),
{
    proof {
        lemma_pow2_pos(amount as nat);
        lemma_shift_right_signed_bits(value, amount);
        lemma_u32_shr_is_div(value, amount);
        if value >= 0x8000_0000u32 {
            lemma_u32_shr_is_div(!value, amount);
            lemma_floor_of_negative(signed(value), pow2(amount as nat) as int);
        }
    }
    ((value as i32) >> amount) as u32
}

// ---------------------------------------------------------------------------
// Laws of the machine
// ---------------------------------------------------------------------------
/// In the initial state every register reads as zero, `pc` is zero, the
/// processor is running, and the invariants of the register file hold.
pub proof fn lemma_initial_state(index: int)
    requires
        0 <= index < 32,
    ensures
        CpuState::initial().reg(index) == 0,
        CpuState::initial().pc == 0,
        CpuState::initial().fault is None,
        CpuState::initial().wf(),
{
}

/// Resetting twice leaves the state that resetting once leaves.
pub proof fn lemma_reset_idempotent(state: CpuState)
    ensures
        state.reset().reset() == state.reset(),
{
}

/// What every step keeps, written for the state `before` it, the memory
/// contents before it, and where the machine stands `after` it:
///
/// * the register file keeps its length, and the memory its size;
/// * register 0 holds what it held before;
/// * an aligned `pc` stays aligned;
/// * a fault leaves registers, `pc` and memory as they were, and is recorded;
/// * without a fault the fault state is as before.
pub open spec fn keeps_invariants(before: CpuState, memory: Seq<u8>, after: Outcome) -> bool {
    &&& after.state.registers.len() == before.registers.len()
    &&& after.state.registers[0] == before.registers[0]
    &&& after.memory.len() == memory.len()
    &&& before.pc % 4 == 0 ==> after.state.pc % 4 == 0
    &&& after.result matches StepResult::Fault(kind) ==> after == faults(before, memory, kind)
    &&& after.result == StepResult::Executed ==> after.state.fault == before.fault
}

/// Moving on to the next instruction keeps `pc` aligned.
proof fn lemma_next_is_aligned(pc: u32)
    requires
        pc % 4 == 0,
    ensures
        wrap32(pc + 4) % 4 == 0,
{
    assert(wrap32(pc + 4) == if pc + 4 < 0x1_0000_0000 {
        pc + 4
    } else {
        pc + 4 - 0x1_0000_0000
    });
}

/// A computation keeps the invariants, advances `pc` and leaves the memory
/// alone.
proof fn lemma_computes(state: CpuState, memory: Seq<u8>, rd: usize)
    requires
        state.registers.len() == 32,
        rd < 32,
    ensures
        forall|value: u32|
            {
                let after = #[trigger] computes(state, memory, rd, value);
                &&& keeps_invariants(state, memory, after)
                &&& after.state.pc == wrap32(state.pc + 4)
                &&& after.memory == memory
            },
{
    if state.pc % 4 == 0 {
        lemma_next_is_aligned(state.pc);
    }
}

/// A load keeps the invariants and leaves the memory alone; without a fault
/// it advances `pc`.
proof fn lemma_loads(state: CpuState, memory: Seq<u8>, rd: usize)
    requires
        state.registers.len() == 32,
        rd < 32,
    ensures
        forall|address: u32, width: Width, signedness: Signedness|
            {
                let after = #[trigger] loads(state, memory, rd, address, width, signedness);
                &&& keeps_invariants(state, memory, after)
                &&& after.memory == memory
                &&& after.result == StepResult::Executed ==> after.state.pc == wrap32(state.pc + 4)
            },
{
    lemma_computes(state, memory, rd);
}

/// A store keeps the invariants; without a fault it advances `pc`.
proof fn lemma_stores(state: CpuState, memory: Seq<u8>)
    requires
        state.registers.len() == 32,
    ensures
        forall|address: u32, value: u32, width: Width|
            {
                let after = #[trigger] stores(state, memory, address, value, width);
                &&& keeps_invariants(state, memory, after)
                &&& after.result == StepResult::Executed ==> after.state.pc == wrap32(state.pc + 4)
            },
{
    if state.pc % 4 == 0 {
        lemma_next_is_aligned(state.pc);
    }
}

/// A branch keeps the invariants and leaves the memory alone.
proof fn lemma_branches(state: CpuState, memory: Seq<u8>)
    requires
        state.registers.len() == 32,
    ensures
        forall|taken: bool, offset: i32|
            {
                let after = #[trigger] branches(state, memory, taken, offset);
                &&& keeps_invariants(state, memory, after)
                &&& after.memory == memory
            },
{
    if state.pc % 4 == 0 {
        lemma_next_is_aligned(state.pc);
    }
}

/// A jump keeps the invariants and leaves the memory alone.
proof fn lemma_jumps(state: CpuState, memory: Seq<u8>, rd: usize)
    requires
        state.registers.len() == 32,
        rd < 32,
    ensures
        forall|target: u32|
            {
                let after = #[trigger] jumps(state, memory, rd, target);
                &&& keeps_invariants(state, memory, after)
                &&& after.memory == memory
            },
{
}

/// What holds of the effect of every well-formed instruction:
///
/// * it keeps the invariants of [`keeps_invariants`];
/// * an instruction that is no control transfer, if it does not fault,
///   advances `pc` by one instruction;
/// * only a store changes the memory.
pub proof fn lemma_apply_properties(state: CpuState, memory: Seq<u8>, inst: Instruction)
    requires
        state.registers.len() == 32,
        inst.wf(),
    ensures
        keeps_invariants(state, memory, apply_spec(state, memory, inst)),
        apply_spec(state, memory, inst).result == StepResult::Executed
            && !inst.is_control_transfer() ==> apply_spec(state, memory, inst).state.pc == wrap32(
            state.pc + 4,
        ),
        !(inst is Sb || inst is Sh || inst is Sw) ==> apply_spec(state, memory, inst).memory
            == memory,
{
    match inst {
        Instruction::Add(rd, _, _)
        | Instruction::Sub(rd, _, _)
        | Instruction::Sll(rd, _, _)
        | Instruction::Slt(rd, _, _)
        | Instruction::Sltu(rd, _, _)
        | Instruction::Xor(rd, _, _)
        | Instruction::Srl(rd, _, _)
        | Instruction::Sra(rd, _, _)
        | Instruction::Or(rd, _, _)
        | Instruction::And(rd, _, _)
        | Instruction::Addi(rd, _, _)
        | Instruction::Slti(rd, _, _)
        | Instruction::Sltiu(rd, _, _)
        | Instruction::Xori(rd, _, _)
        | Instruction::Ori(rd, _, _)
        | Instruction::Andi(rd, _, _)
        | Instruction::Slli(rd, _, _)
        | Instruction::Srli(rd, _, _)
        | Instruction::Srai(rd, _, _)
        | Instruction::Lui(rd, _)
        | Instruction::Auipc(rd, _) => {
            lemma_computes(state, memory, rd);
        },
        Instruction::Lb(rd, _, _)
        | Instruction::Lh(rd, _, _)
        | Instruction::Lw(rd, _, _)
        | Instruction::Lbu(rd, _, _)
        | Instruction::Lhu(rd, _, _) => {
            lemma_loads(state, memory, rd);
        },
        Instruction::Sb(..) | Instruction::Sh(..) | Instruction::Sw(..) => {
            lemma_stores(state, memory);
        },
        Instruction::Beq(..)
        | Instruction::Bne(..)
        | Instruction::Blt(..)
        | Instruction::Bge(..)
        | Instruction::Bltu(..)
        | Instruction::Bgeu(..) => {
            lemma_branches(state, memory);
        },
        Instruction::Jal(rd, _) | Instruction::Jalr(rd, _, _) => {
            lemma_jumps(state, memory, rd);
        },
    }
}

/// Program counter advance: an instruction that is no control transfer and
/// does not fault increases `pc` by exactly four, as long as `pc + 4` is
/// still an address.
pub proof fn lemma_pc_advance(state: CpuState, memory: Seq<u8>, inst: Instruction)
    requires
        state.registers.len() == 32,
        inst.wf(),
        !inst.is_control_transfer(),
        apply_spec(state, memory, inst).result == StepResult::Executed,
        state.pc + 4 <= u32::MAX,
    ensures
        apply_spec(state, memory, inst).state.pc == state.pc + 4,
{
    lemma_apply_properties(state, memory, inst);
}

/// Program counter advance, for a whole step: a step that executes an
/// instruction has fetched and decoded one, and if that one is no control
/// transfer, `pc` has advanced by one instruction: by exactly four, as long
/// as `pc + 4` is still an address.
pub proof fn lemma_step_advances_pc(state: CpuState, memory: Seq<u8>)
    requires
        state.registers.len() == 32,
        step_spec(state, memory).result == StepResult::Executed,
    ensures
        decode_spec(fetched_word(memory, state.pc)) matches Some(inst) && (
        !inst.is_control_transfer() ==> {
            &&& step_spec(state, memory).state.pc == wrap32(state.pc + 4)
            &&& state.pc + 4 <= u32::MAX ==> step_spec(state, memory).state.pc == state.pc + 4
        }),
{
    let word = fetched_word(memory, state.pc);
    lemma_encoding_of_decoded(word);
    lemma_apply_properties(state, memory, decode_spec(word)->Some_0);
}

/// A branch that is taken and does not fault sets `pc` to `pc + offset`
/// modulo `2^32`; a branch that is not taken advances `pc` by one
/// instruction.
pub proof fn lemma_branch_target(state: CpuState, memory: Seq<u8>, taken: bool, offset: i32)
    ensures
        taken && branches(state, memory, taken, offset).result == StepResult::Executed ==> branches(
            state,
            memory,
            taken,
            offset,
        ).state.pc == wrap32(state.pc + offset),
        !taken ==> branches(state, memory, taken, offset).state.pc == wrap32(state.pc + 4),
        taken ==> (branches(state, memory, taken, offset).result == StepResult::Executed <==> wrap32(
            state.pc + offset,
        ) % 4 == 0),
{
}

/// A jump that does not fault sets `pc` to its target exactly and leaves the
/// address of the next instruction in `rd`.
pub proof fn lemma_jump_target(state: CpuState, memory: Seq<u8>, rd: usize, target: u32)
    requires
        state.registers.len() == 32,
        rd < 32,
    ensures
        jumps(state, memory, rd, target).result == StepResult::Executed <==> target % 4 == 0,
        target % 4 == 0 ==> jumps(state, memory, rd, target).state.pc == target,
        target % 4 == 0 && rd != 0 ==> jumps(state, memory, rd, target).state.reg(rd as int)
            == wrap32(state.pc + 4),
{
}

/// A faulted processor stays as it is until it is reset: a step changes
/// nothing and reports the same fault.
pub proof fn lemma_fault_is_terminal(state: CpuState, memory: Seq<u8>, kind: FaultKind)
    requires
        state.fault == Some(kind),
    ensures
        step_spec(state, memory) == (Outcome { state, memory, result: StepResult::Fault(kind) }),
        forall|inst: Instruction| #[trigger]
            execute_spec(state, memory, inst) == (Outcome {
                state,
                memory,
                result: StepResult::Fault(kind),
            }),
{
}

/// Illegal instruction: where a running processor fetches a word that
/// matches no supported instruction, the step reports an illegal instruction
/// and leaves registers, `pc` and memory as they were.
pub proof fn lemma_illegal_instruction(state: CpuState, memory: Seq<u8>)
    requires
        state.fault is None,
        state.pc % 4 == 0,
        in_bounds(memory.len(), state.pc as int, Width::Word),
        decode_spec(fetched_word(memory, state.pc)) is None,
    ensures
        step_spec(state, memory).result == StepResult::Fault(FaultKind::IllegalInstruction),
        step_spec(state, memory).state.registers == state.registers,
        step_spec(state, memory).state.pc == state.pc,
        step_spec(state, memory).state.fault == Some(FaultKind::IllegalInstruction),
        step_spec(state, memory).memory == memory,
{
}

/// What holds of every step, whatever the state and the memory:
///
/// * register 0 holds what it held before, and reads as zero;
/// * the memory keeps its size;
/// * the invariants of the register file are kept;
/// * the step reports a fault exactly when it leaves the processor faulted,
///   and then registers, `pc` and memory are as they were.
pub proof fn lemma_step_properties(state: CpuState, memory: Seq<u8>)
    requires
        state.registers.len() == 32,
    ensures
        ({
            let after = step_spec(state, memory);
            &&& after.state.registers.len() == 32
            &&& after.state.registers[0] == state.registers[0]
            &&& after.state.reg(0) == 0
            &&& after.memory.len() == memory.len()
            &&& state.wf() ==> after.state.wf()
            &&& after.result is Fault <==> after.state.fault is Some
            &&& after.result matches StepResult::Fault(kind) ==> after.state.fault == Some(kind)
                && after.state.registers == state.registers && after.state.pc == state.pc
                && after.memory == memory
            &&& after.result == StepResult::Executed ==> state.fault is None && state.pc % 4 == 0
        }),
{
    if state.fault is None && state.pc % 4 == 0 && in_bounds(
        memory.len(),
        state.pc as int,
        Width::Word,
    ) {
        let word = fetched_word(memory, state.pc);
        lemma_encoding_of_decoded(word);
        if let Some(inst) = decode_spec(word) {
            lemma_apply_properties(state, memory, inst);
        }
    }
}

/// What holds of every instruction handed to `execute`, well formed or not:
/// register 0 holds what it held before and reads as zero, the memory keeps
/// its size, and the invariants of the register file are kept.
pub proof fn lemma_execute_properties(state: CpuState, memory: Seq<u8>, inst: Instruction)
    requires
        state.registers.len() == 32,
    ensures
        ({
            let after = execute_spec(state, memory, inst);
            &&& after.state.registers.len() == 32
            &&& after.state.registers[0] == state.registers[0]
            &&& after.state.reg(0) == 0
            &&& after.memory.len() == memory.len()
            &&& state.wf() ==> after.state.wf()
            &&& after.result is Fault <==> after.state.fault is Some
        }),
{
    if state.fault is None && inst.wf() {
        lemma_apply_properties(state, memory, inst);
    }
}

} // verus!
