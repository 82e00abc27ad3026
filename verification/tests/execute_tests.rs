use mlem::{execute, Address, Instruction, Machine, Outcome, Register};
use mlem::wire::{be_bytes_to_words, words_to_be_bytes};

fn test_prog_io(program: Vec<Instruction>, input: Vec<u64>) -> (Outcome, Vec<u64>, u64) {
    // Create and fill a buffer of u8s with the values of the given u64s,
    // in big endian.
    let internal_input = words_to_be_bytes(&input);

    // Actually run the machine.
    let mut m = Machine::new(128, internal_input, Vec::new());
    m.load_program(program);
    let (o, cycles) = m.run_for(1024);

    // Compose output into u64 values.
    let output = be_bytes_to_words(m.get_output());

    (o, output, cycles)
}

#[test]
fn test_scalar_arith() {
    let input = vec![2, 2, 2, 2];
    let expected = vec![4, 0];
    let program = vec![
        // Get all input values
        Instruction::Input(Address::RegAbs(Register::R0)),
        Instruction::Input(Address::RegAbs(Register::R1)),
        Instruction::Input(Address::RegAbs(Register::R2)),
        Instruction::Input(Address::RegAbs(Register::R3)),
        // Perform arithmetic
        Instruction::Add(Address::RegAbs(Register::R0), Address::RegAbs(Register::R1)),
        Instruction::Sub(Address::RegAbs(Register::R2), Address::RegAbs(Register::R3)),
        // Output computed values
        Instruction::Output(Address::RegAbs(Register::R0)),
        Instruction::Output(Address::RegAbs(Register::R2)),
        // Halt
        Instruction::Halt,
    ];

    let (outcome, output, _) = test_prog_io(program, input);
    assert!(outcome == Outcome::Halt, "Program did not successfully halt! {:?}", outcome);
    assert!(
        output == expected,
        "Program did not produce {:?} as expected, but rather {:?}.",
        expected,
        output
    );
}

#[test]
fn test_machine_test_scalar_arith() {
    let input = vec![2, 2, 2, 2];
    let expected = vec![4, 0];
    let program = vec![
        Instruction::Input(Address::RegAbs(Register::R0)),
        Instruction::Input(Address::RegAbs(Register::R1)),
        Instruction::Input(Address::RegAbs(Register::R2)),
        Instruction::Input(Address::RegAbs(Register::R3)),
        Instruction::Add(Address::RegAbs(Register::R0), Address::RegAbs(Register::R1)),
        Instruction::Sub(Address::RegAbs(Register::R2), Address::RegAbs(Register::R3)),
        Instruction::Output(Address::RegAbs(Register::R0)),
        Instruction::Output(Address::RegAbs(Register::R2)),
        Instruction::Halt,
    ];

    let (outcome, _, output) = execute(program, input, Some(10));
    assert!(outcome == Outcome::Halt, "Program did not successfully halt! {:?}", outcome);
    assert!(
        output == expected,
        "Program did not produce {:?} as expected, but rather {:?}.",
        expected,
        output
    );
}

#[test]
fn test_jump() {
    let input = vec![1, 2, 3];
    let expected = vec![1, 3];
    // Explaination: Loads input into the first three GPRs, then outputs the same numbers again, but
    // uses a jump instruction to skip outputing the second number
    let program = vec![
        // Get all input values
        Instruction::Input(Address::RegAbs(Register::R0)), // 0
        Instruction::Input(Address::RegAbs(Register::R1)), // 1
        Instruction::Input(Address::RegAbs(Register::R2)), // 2
        // Output computed values
        Instruction::Output(Address::RegAbs(Register::R0)), // 3
        Instruction::Jump(Address::Literal(6)),             // 4
        Instruction::Output(Address::RegAbs(Register::R1)), // 5 GETS SKIPPED
        Instruction::Output(Address::RegAbs(Register::R2)), // 6
        // Halt
        Instruction::Halt,
    ];

    let (outcome, _, output) = execute(program, input, Some(10));
    assert!(outcome == Outcome::Halt, "Program did not successfully halt! {:?}", outcome);
    assert!(
        output == expected,
        "Program did not produce {:?} as expected, but rather {:?}.",
        expected,
        output
    );
}

#[test]
fn test_conditional_jump() {
    let input = vec![1, 2, 3];
    let expected = vec![1, 2, 3, 1, 2, 3];
    // Explaination: Loads input into the first three GPRs, then outputs the same numbers again, and uses
    // a jump instruction to print them again.
    let program = vec![
        // Set the counter
        Instruction::Move(Address::Literal(2), Address::RegAbs(Register::R7)), // 0
        // Get all input values
        Instruction::Input(Address::RegAbs(Register::R0)), // 1
        Instruction::Input(Address::RegAbs(Register::R1)), // 2
        Instruction::Input(Address::RegAbs(Register::R2)), // 3
        // Output computed values
        Instruction::Output(Address::RegAbs(Register::R0)), // 4
        Instruction::Output(Address::RegAbs(Register::R1)), // 5
        Instruction::Output(Address::RegAbs(Register::R2)), // 6
        // Loop
        Instruction::Sub(Address::RegAbs(Register::R7), Address::Literal(1)), // 7
        Instruction::JumpNotZero(Address::Literal(4), Address::RegAbs(Register::R7)), // 8
        // Halt
        Instruction::Halt, // 9
    ];

    let (outcome, _, output) = execute(program, input, Some(30));
    assert!(outcome == Outcome::Halt, "Program did not successfully halt! {:?}", outcome);
    assert!(
        output == expected,
        "Program did not produce {:?} as expected, but rather {:?}.",
        expected,
        output
    );
}

#[test]
fn test_stack() {
    let input = vec![1, 2, 3];
    let expected = vec![3, 2, 1, 0];
    // Explaination: Loads input into the stack, then pops it off and outputs it.
    let program = vec![
        // Set the counter
        Instruction::Move(Address::Literal(3), Address::RegAbs(Register::R7)), // 0
        // Get all input values
        Instruction::Input(Address::RegAbs(Register::R0)), // 1
        Instruction::Push(Address::RegAbs(Register::R0)), // 2
        // Loop
        Instruction::Sub(Address::RegAbs(Register::R7), Address::Literal(1)), // 3
        Instruction::JumpNotZero(Address::Literal(1), Address::RegAbs(Register::R7)), // 4
        // Set the counter
        Instruction::Move(Address::Literal(4), Address::RegAbs(Register::R7)), // 5
        // Output computed values
        Instruction::Pop(Address::RegAbs(Register::R0)), // 6
        Instruction::Output(Address::RegAbs(Register::R0)), // 7
        // Loop
        Instruction::Sub(Address::RegAbs(Register::R7), Address::Literal(1)), // 8
        Instruction::JumpNotZero(Address::Literal(6), Address::RegAbs(Register::R7)), // 9
        // Halt
        Instruction::Halt, // 10
    ];

    let (outcome, _, output) = execute(program, input, Some(40));
    assert!(outcome == Outcome::Halt, "Program did not successfully halt! {:?}", outcome);
    assert!(
        output == expected,
        "Program did not produce {:?} as expected, but rather {:?}.",
        expected,
        output
    );
}

#[test]
fn test_pointer_memory_access() {
    let input = vec![0];
    let expected = vec![0xff];
    let program = vec![
        // Set R0 = 0xf
        Instruction::Move(Address::Literal(0xf), Address::RegAbs(Register::R0)),
        // Set mem[0xf] = 0xff
        Instruction::Move(Address::Literal(0xff), Address::MemReg(Register::R0)),
        // Read mem[0xf] and output
        Instruction::Output(Address::MemReg(Register::R0)),
        // Halt
        Instruction::Halt,
    ];
    let (outcome, _, output) = execute(program, input, Some(5));
    assert!(outcome == Outcome::Halt, "Program did not successfully halt! {:?}", outcome);
    assert!(
        output == expected,
        "Program did not produce {:?} as expected, but rather {:?}.",
        expected,
        output
    );
}

#[test]
fn test_cycle_cap() {
    // Five NoOps and a Halt: a capped run charges exactly the cap, and
    // the machine stays resumable; finishing the run halts.
    let program = vec![
        Instruction::NoOp,
        Instruction::NoOp,
        Instruction::NoOp,
        Instruction::NoOp,
        Instruction::NoOp,
        Instruction::Halt,
    ];
    let mut m = Machine::new(128, Vec::new(), Vec::new());
    m.load_program(program);
    let (o, cycles) = m.run_for(3);
    assert_eq!((o, cycles), (Outcome::Continue, 3));
    let o2 = m.run();
    assert_eq!(o2, Outcome::Halt);
}

#[test]
fn test_push_budget() {
    // From SP = MAX_WORDS - 1 = 127, pushes succeed MAX_WORDS - 2 = 126
    // times; the next one faults.
    let mut program = Vec::new();
    for _ in 0..127 {
        program.push(Instruction::Push(Address::Literal(1)));
    }
    program.push(Instruction::Halt);
    let mut m = Machine::new(128, Vec::new(), Vec::new());
    m.load_program(program);
    let (o, cycles) = m.run_for(200);
    assert!(matches!(o, Outcome::Fault(_)), "Push past the guard gave {:?}.", o);
    assert_eq!(cycles, 126);
}

#[test]
fn test_pop_empty_stack() {
    // A pop from an empty stack writes 0 and does not fault.
    let input = vec![];
    let expected = vec![0];
    let program = vec![
        Instruction::Move(Address::Literal(7), Address::RegAbs(Register::R0)),
        Instruction::Pop(Address::RegAbs(Register::R0)),
        Instruction::Output(Address::RegAbs(Register::R0)),
        Instruction::Halt,
    ];
    let (outcome, _, output) = execute(program, input, Some(10));
    assert_eq!(outcome, Outcome::Halt);
    assert_eq!(output, expected);
}

#[test]
fn test_wrapping_add() {
    let input = vec![u64::MAX, 1];
    let expected = vec![0];
    let program = vec![
        Instruction::Input(Address::RegAbs(Register::R0)),
        Instruction::Input(Address::RegAbs(Register::R1)),
        Instruction::Add(Address::RegAbs(Register::R0), Address::RegAbs(Register::R1)),
        Instruction::Output(Address::RegAbs(Register::R0)),
        Instruction::Halt,
    ];
    let (outcome, _, output) = execute(program, input, Some(10));
    assert_eq!(outcome, Outcome::Halt);
    assert_eq!(output, expected);
}

#[test]
fn test_wrapping_sub() {
    let input = vec![0, 1];
    let expected = vec![u64::MAX];
    let program = vec![
        Instruction::Input(Address::RegAbs(Register::R0)),
        Instruction::Input(Address::RegAbs(Register::R1)),
        Instruction::Sub(Address::RegAbs(Register::R0), Address::RegAbs(Register::R1)),
        Instruction::Output(Address::RegAbs(Register::R0)),
        Instruction::Halt,
    ];
    let (outcome, _, output) = execute(program, input, Some(10));
    assert_eq!(outcome, Outcome::Halt);
    assert_eq!(output, expected);
}

#[test]
fn test_jump_overrun_fault() {
    // A jump whose target equals the program's length faults.
    let program = vec![Instruction::Jump(Address::Literal(2)), Instruction::Halt];
    let (outcome, cycles, output) = execute(program, vec![], Some(10));
    assert!(matches!(outcome, Outcome::Fault(_)), "Jump overrun gave {:?}.", outcome);
    assert_eq!(cycles, 0);
    assert!(output.is_empty());
}
