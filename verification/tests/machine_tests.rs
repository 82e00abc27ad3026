use byteorder::{BigEndian, ReadBytesExt};
use mlem::{Address, Instruction, Machine, Outcome, Register};
use std::io::Cursor;

#[test]
fn test_get_set_memory() {
    let input: Vec<u8> = Vec::with_capacity(128);
    let output: Vec<u8> = Vec::with_capacity(128);
    let mut m = Machine::new(128, input, output);

    let memory = vec![0, 1, 2, 3, 4];
    let mem_copy = memory.clone();

    m.load_memory(memory);
    assert!(
        &mem_copy as &[u64] == m.get_memory(),
        "Machine's returned memory was not the same as the loaded memory."
    );

    m.write_addr(Address::MemAbs(0), 0xDEADBEEF);
    assert!(
        0xDEADBEEF == m.read_addr(Address::MemAbs(0)),
        "Read memory at MemAbs 0 was not the same as written!"
    );
}

#[test]
fn test_machine_test_get_set_memory() {
    let input: Vec<u8> = Vec::with_capacity(128);
    let output: Vec<u8> = Vec::with_capacity(128);
    let mut m = Machine::new(128, input, output);

    let memory = vec![0, 1, 2, 3, 4];
    let mem_copy = memory.clone();

    m.load_memory(memory);
    assert!(
        &mem_copy as &[u64] == m.get_memory(),
        "Machine's returned memory was not the same as the loaded memory."
    );

    m.write_addr(Address::MemAbs(0), 0xDEADBEEF);
    assert!(
        0xDEADBEEF == m.read_addr(Address::MemAbs(0)),
        "Read memory at MemAbs 0 was not the same as written!"
    );
}

#[test]
fn test_reg_instructions() {
    let mut m = Machine::new(128, Vec::new(), Vec::new());

    // The instruction: move 0xdeadbeef R0
    let instr = Instruction::Move(Address::Literal(0xDEADBEEF), Address::RegAbs(Register::R0));

    // Load a program with just the one instruction and a Halt to prevent Faulting
    m.load_program(vec![instr, Instruction::Halt]);

    // Run one instruction forward
    let o = m.execute_next();
    assert!(Outcome::Continue == o, "Move instruction caused {:?}.", o);
}

#[test]
fn test_machine_test_reg_instructions() {
    let mut m = Machine::new(128, Vec::new(), Vec::new());

    let instr = Instruction::Move(Address::Literal(0xDEADBEEF), Address::RegAbs(Register::R0));

    m.load_program(vec![instr, Instruction::Halt]);

    let o = m.execute_next();
    assert!(Outcome::Continue == o, "Move instruction caused {:?}.", o);
}

#[test]
fn test_io_instructions() {
    let mut m = Machine::new(128, Vec::new(), Vec::new());

    // Create the assembly instruction:
    //  output 0xDEADBEEF
    let instr = Instruction::Output(Address::Literal(0xDEADBEEF));

    // Load a program with just the one instruction and a Halt to prevent Faulting
    m.load_program(vec![instr, Instruction::Halt]);

    // Run one instruction.
    let outcome = m.execute_next();
    assert!(Outcome::Continue == outcome, "Move instruction caused {:?}.", outcome);

    let mut output = Cursor::new(m.get_output().to_vec());
    match output.read_u64::<BigEndian>() {
        Ok(v) => assert!(
            v == 0xDEADBEEF,
            "Ouput was not the expected {:?} but rather {:?}.",
            0xDEADBEEFu64,
            v
        ),
        Err(e) => panic!(
            "Failed to read from output buffer: {}. Buffer is: {:?}",
            e,
            output.get_ref()
        ),
    }
}

#[test]
fn test_machine_test_io_instructions() {
    let mut m = Machine::new(128, Vec::new(), Vec::new());

    let instr = Instruction::Output(Address::Literal(0xDEADBEEF));

    m.load_program(vec![instr, Instruction::Halt]);

    let outcome = m.execute_next();
    assert!(Outcome::Continue == outcome, "Move instruction caused {:?}.", outcome);

    let mut output = Cursor::new(m.get_output().to_vec());
    match output.read_u64::<BigEndian>() {
        Ok(v) => assert!(
            v == 0xDEADBEEF,
            "Ouput was not the expected {:?} but rather {:?}.",
            0xDEADBEEFu64,
            v
        ),
        Err(e) => panic!(
            "Failed to read from output buffer: {}. Buffer is: {:?}",
            e,
            output.get_ref()
        ),
    }
}

#[test]
fn test_run() {
    let input: Vec<u8> = Vec::with_capacity(128);
    let output: Vec<u8> = Vec::with_capacity(128);
    let mut m = Machine::new(128, input, output);

    // A 4-instruction program.
    let program = vec![
        Instruction::NoOp,
        Instruction::NoOp,
        Instruction::NoOp,
        Instruction::NoOp,
        Instruction::Halt,
    ];

    m.load_program(program);

    let (limited_outcome, instructions_executed) = m.run_for(3);
    assert!(
        limited_outcome == Outcome::Continue,
        "Program produced {:?} after {:?} NoOp instructions.",
        limited_outcome,
        instructions_executed
    );
    assert!(
        instructions_executed == 3,
        "Program reports executing {:?} instructions rather than the 3 expected.",
        instructions_executed
    );

    let final_outcome = m.run();
    assert!(
        final_outcome == Outcome::Halt,
        "Program produced {:?} rather than halting.",
        final_outcome
    );
}

#[test]
fn test_machine_test_run() {
    let mut m = Machine::new(128, Vec::new(), Vec::new());

    let program = vec![
        Instruction::NoOp,
        Instruction::NoOp,
        Instruction::NoOp,
        Instruction::NoOp,
        Instruction::Halt,
    ];

    m.load_program(program);

    let (limited_outcome, instructions_executed) = m.run_for(3);
    assert!(
        limited_outcome == Outcome::Continue,
        "Program produced {:?} after {:?} NoOp instructions.",
        limited_outcome,
        instructions_executed
    );
    assert!(
        instructions_executed == 3,
        "Program reports executing {:?} instructions rather than the 3 expected.",
        instructions_executed
    );

    let final_outcome = m.run();
    assert!(
        final_outcome == Outcome::Halt,
        "Program produced {:?} rather than halting.",
        final_outcome
    );
}

#[test]
fn test_output_bytes_exact() {
    let mut m = Machine::new(128, Vec::new(), Vec::new());
    m.load_program(vec![
        Instruction::Output(Address::Literal(0xDEADBEEF)),
        Instruction::Halt,
    ]);
    let o = m.execute_next();
    assert_eq!(o, Outcome::Continue);
    assert_eq!(m.get_output().to_vec(), vec![0, 0, 0, 0, 0xDE, 0xAD, 0xBE, 0xEF]);
}

#[test]
fn test_literal_write_fault() {
    let mut m = Machine::new(128, Vec::new(), Vec::new());
    let o = m.write_addr(Address::Literal(42), 7);
    assert!(matches!(o, Outcome::Fault(_)), "Literal write gave {:?}.", o);
    // Nothing was written anywhere.
    assert_eq!(m.get_memory().len(), 0);
}

#[test]
fn test_memory_bounds() {
    let mut m = Machine::new(128, Vec::new(), Vec::new());
    // Index equal to the cap is still writable...
    let o = m.write_addr(Address::MemAbs(128), 9);
    assert_eq!(o, Outcome::Continue);
    assert_eq!(m.read_addr(Address::MemAbs(128)), 9);
    assert_eq!(m.get_memory().len(), 129);
    // ...but one past it faults.
    let o2 = m.write_addr(Address::MemAbs(129), 9);
    assert!(matches!(o2, Outcome::Fault(_)), "Out-of-memory write gave {:?}.", o2);
}

#[test]
fn test_initial_program_illegal() {
    // A freshly constructed machine holds the single-instruction program
    // [Illegal]; executing it faults.
    let mut m = Machine::new(128, Vec::new(), Vec::new());
    let o = m.execute_next();
    assert!(matches!(o, Outcome::Fault(_)), "Fresh machine gave {:?}.", o);
}

#[test]
fn test_ip_overrun_fault() {
    let mut m = Machine::new(128, Vec::new(), Vec::new());
    m.load_program(vec![Instruction::NoOp]);
    let o = m.run();
    assert!(matches!(o, Outcome::Fault(_)), "IP overrun gave {:?}.", o);
}

#[test]
fn test_input_exhausted_fault() {
    let mut m = Machine::new(128, Vec::new(), Vec::new());
    m.load_program(vec![
        Instruction::Input(Address::RegAbs(Register::R0)),
        Instruction::Halt,
    ]);
    let o = m.execute_next();
    assert!(matches!(o, Outcome::Fault(_)), "Input on empty stream gave {:?}.", o);
}

#[test]
fn test_load_program_idempotent() {
    let mut m = Machine::new(128, Vec::new(), Vec::new());
    m.load_memory(vec![5, 6, 7]);
    let program = vec![
        Instruction::Output(Address::MemAbs(1)),
        Instruction::Halt,
    ];
    m.load_program(program.clone());
    m.load_program(program);
    // Memory survived both loads, and IP is back at 0: the run outputs
    // mem[1] and halts.
    assert_eq!(m.get_memory().to_vec(), vec![5, 6, 7]);
    let o = m.run();
    assert_eq!(o, Outcome::Halt);
    assert_eq!(m.get_output().to_vec(), vec![0, 0, 0, 0, 0, 0, 0, 6]);
}

#[test]
fn test_halt_charges_nothing() {
    let mut m = Machine::new(128, Vec::new(), Vec::new());
    m.load_program(vec![Instruction::Halt]);
    let (o, cycles) = m.run_for(5);
    assert_eq!(o, Outcome::Halt);
    assert_eq!(cycles, 0);
}

#[test]
fn test_next_instr_advance() {
    let mut m = Machine::new(128, Vec::new(), Vec::new());
    m.load_program(vec![Instruction::NoOp, Instruction::Halt]);
    // From IP 0 of a two-instruction program the advance continues...
    let o = m.next_instr();
    assert_eq!(o, Outcome::Continue);
    // ...and the next advance walks off the end and faults.
    let o2 = m.next_instr();
    assert!(matches!(o2, Outcome::Fault(_)), "Advance off the end gave {:?}.", o2);
}
