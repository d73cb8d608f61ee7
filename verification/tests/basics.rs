use riscv_sim::cpu::Cpu;
use riscv_sim::instruction::Instruction;
use riscv_sim::memory::{Memory, Signedness, Width};

#[test]
fn test_cpu_initialization() {
    // Test if the CPU is initialized correctly with all registers set to 0
    let cpu = Cpu::new();
    assert_eq!(cpu.registers[0], 0);
    assert_eq!(cpu.pc, 0);

    // Check that all other registers are zero-initialized
    for &reg in &cpu.registers {
        assert_eq!(reg, 0);
    }
}

#[test]
fn test_cpu_reset() {
    // Test the reset function of the CPU
    let mut cpu = Cpu::new();
    cpu.registers[1] = 10; // Modify a register
    cpu.pc = 5; // Modify the program counter

    cpu.reset();
    assert_eq!(cpu.registers[1], 0); // Check if register is reset
    assert_eq!(cpu.pc, 0); // Check if PC is reset
}

#[test]
fn test_memory_operations() {
    // Test memory load and store operations
    let mut memory = Memory::new(10).unwrap(); // Create a small memory block of size 10
    memory.store(0, 42, Width::Byte).unwrap(); // Store value 42 at address 0
    assert_eq!(memory.load(0, Width::Byte, Signedness::Unsigned), Ok(42)); // Check if the value is loaded correctly

    memory.store(5, 99, Width::Byte).unwrap(); // Store value 99 at address 5
    assert_eq!(memory.load(5, Width::Byte, Signedness::Unsigned), Ok(99)); // Check if the value is loaded correctly
}

#[test]
fn test_instruction_enum() {
    // Test if the Instruction enum can be created and used
    let add_inst = Instruction::Add(1, 2, 3); // ADD rd, rs1, rs2
    let sub_inst = Instruction::Sub(4, 5, 6); // SUB rd, rs1, rs2

    // Simple checks to ensure the enum variants are created correctly
    if let Instruction::Add(rd, rs1, rs2) = add_inst {
        assert_eq!(rd, 1);
        assert_eq!(rs1, 2);
        assert_eq!(rs2, 3);
    } else {
        panic!("Expected Instruction::Add variant");
    }

    if let Instruction::Sub(rd, rs1, rs2) = sub_inst {
        assert_eq!(rd, 4);
        assert_eq!(rs1, 5);
        assert_eq!(rs2, 6);
    } else {
        panic!("Expected Instruction::Sub variant");
    }
}
