//! The machine: registers, memory, stack, bound I/O byte streams, and the
//! fetch-decode-execute engine.
//!
//! Every observable effect of the machine is pinned down by the spec-level
//! interpreter in this module: [`State`] is the mathematical model of a
//! machine, [`step`] maps a state to the state after one instruction
//! together with the [`StepKind`] of that instruction's outcome, and each
//! executable method is proved equal to its spec counterpart.

use vstd::prelude::*;

verus! {

use crate::instructions::{Address, Instruction, Register};
use crate::wire;
use crate::Word;

/// Represents the outcome of a program run: a halt (graceful termination),
/// a fault (hardware error), or a state of continuation, in which the
/// machine can keep running.
#[derive(PartialEq, Debug, Clone)]
pub enum Outcome {
    /// The program halted successfully.
    Halt,
    /// The program caused a problem and broke the machine.  The message is
    /// a human-readable explanation; it is not part of the semantics.
    Fault(String),
    /// The program can continue running.
    Continue,
}

/// The three kinds of outcome, with the fault message abstracted away.
/// Contracts are stated over kinds: fault messages are not semantic.
pub enum StepKind {
    /// The machine can keep running.
    Running,
    /// The machine halted gracefully.
    Halted,
    /// The machine broke.
    Faulted,
}

/// The kind of an outcome.
pub open spec fn kind_of(o: Outcome) -> StepKind {
    match o {
        Outcome::Halt => StepKind::Halted,
        Outcome::Fault(_) => StepKind::Faulted,
        Outcome::Continue => StepKind::Running,
    }
}

/// The mathematical model of a machine: what [`Machine`] looks like to a
/// contract.
#[verifier::ext_equal]
pub struct State {
    /// The largest usable memory index.
    pub max_words: int,
    /// The eight general purpose registers.
    pub regs: Seq<u64>,
    /// The stack pointer.
    pub sp: u64,
    /// The stack base pointer.
    pub bp: u64,
    /// The instruction pointer: an index into `prog`, not into `mem`.
    pub ip: int,
    /// Data memory.
    pub mem: Seq<u64>,
    /// The loaded program.
    pub prog: Seq<Instruction>,
    /// The bytes of the bound input stream.
    pub input: Seq<u8>,
    /// How many input bytes have been consumed.
    pub in_pos: int,
    /// The bytes written to the bound output stream so far.
    pub output: Seq<u8>,
}

impl State {
    /// Well-formedness: the register file has its eight slots, the memory
    /// cap leaves room for one more word, and the input read position is
    /// inside the input.
    pub open spec fn wf(self) -> bool {
        &&& self.regs.len() == 8
        &&& 0 < self.max_words < usize::MAX
        &&& 0 <= self.ip
        &&& 0 <= self.in_pos <= self.input.len()
    }
}

/// The state of a freshly constructed machine: registers zero, SP and BP
/// at the top of memory, empty memory, and the single-instruction program
/// `[Illegal]`.
pub open spec fn init_state(max_words: int, input: Seq<u8>, output: Seq<u8>) -> State {
    State {
        max_words,
        regs: Seq::new(8, |i: int| 0u64),
        sp: (max_words - 1) as u64,
        bp: (max_words - 1) as u64,
        ip: 0,
        mem: Seq::empty(),
        prog: seq![Instruction::Illegal],
        input,
        in_pos: 0,
        output,
    }
}

/// The contents of register `r`.
pub open spec fn reg_val(s: State, r: Register) -> u64 {
    match r {
        Register::R0 => s.regs[0],
        Register::R1 => s.regs[1],
        Register::R2 => s.regs[2],
        Register::R3 => s.regs[3],
        Register::R4 => s.regs[4],
        Register::R5 => s.regs[5],
        Register::R6 => s.regs[6],
        Register::R7 => s.regs[7],
        Register::SP => s.sp,
        Register::BP => s.bp,
    }
}

/// The state after storing `v` in register `r`.
pub open spec fn with_reg(s: State, r: Register, v: u64) -> State {
    match r {
        Register::R0 => State { regs: s.regs.update(0, v), ..s },
        Register::R1 => State { regs: s.regs.update(1, v), ..s },
        Register::R2 => State { regs: s.regs.update(2, v), ..s },
        Register::R3 => State { regs: s.regs.update(3, v), ..s },
        Register::R4 => State { regs: s.regs.update(4, v), ..s },
        Register::R5 => State { regs: s.regs.update(5, v), ..s },
        Register::R6 => State { regs: s.regs.update(6, v), ..s },
        Register::R7 => State { regs: s.regs.update(7, v), ..s },
        Register::SP => State { sp: v, ..s },
        Register::BP => State { bp: v, ..s },
    }
}

/// The word at memory index `l`: reads beyond the cap, and reads at or
/// beyond the current physical size, yield 0.
pub open spec fn mem_val(s: State, l: u64) -> u64 {
    if l as int > s.max_words {
        0
    } else if l as int >= s.mem.len() {
        0
    } else {
        s.mem[l as int]
    }
}

/// Memory grown (zero-filled) just far enough to hold index `l`.
pub open spec fn mem_grown(m: Seq<u64>, l: int) -> Seq<u64> {
    if l < m.len() {
        m
    } else {
        m + Seq::new((l + 1 - m.len()) as nat, |i: int| 0u64)
    }
}

/// The state after writing `v` at memory index `l`, and the kind of that
/// write: a write beyond the cap faults and changes nothing; any other
/// write grows memory as needed and stores.
pub open spec fn with_mem(s: State, l: u64, v: u64) -> (State, StepKind) {
    if l as int > s.max_words {
        (s, StepKind::Faulted)
    } else {
        (State { mem: mem_grown(s.mem, l as int).update(l as int, v), ..s }, StepKind::Running)
    }
}

/// The value an address denotes.
pub open spec fn addr_val(s: State, a: Address) -> u64 {
    match a {
        Address::RegAbs(r) => reg_val(s, r),
        Address::MemAbs(l) => mem_val(s, l),
        Address::MemReg(r) => mem_val(s, reg_val(s, r)),
        Address::Literal(v) => v,
    }
}

/// The state after writing `v` through address `a`, and the kind of that
/// write: a literal destination faults; so does a memory write beyond the
/// cap.
pub open spec fn write_addr_s(s: State, a: Address, v: u64) -> (State, StepKind) {
    match a {
        Address::Literal(_) => (s, StepKind::Faulted),
        Address::RegAbs(r) => (with_reg(s, r, v), StepKind::Running),
        Address::MemAbs(l) => with_mem(s, l, v),
        Address::MemReg(r) => with_mem(s, reg_val(s, r), v),
    }
}

/// Advance to the next instruction: IP moves one forward, and the step
/// faults if IP thereby leaves the program.
pub open spec fn advance(s: State) -> (State, StepKind) {
    (
        State { ip: s.ip + 1, ..s },
        if s.ip + 1 >= s.prog.len() {
            StepKind::Faulted
        } else {
            StepKind::Running
        },
    )
}

/// Compose a write with the advance: the advance happens only if the
/// write went through; a faulted write is returned as is.
pub open spec fn then_advance(p: (State, StepKind)) -> (State, StepKind) {
    if p.1 == StepKind::Running {
        advance(p.0)
    } else {
        p
    }
}

/// The two-operand scalar operations: both are wrapping 64-bit unsigned.
pub enum ScalarOp {
    /// Wrapping addition.
    AddWrap,
    /// Wrapping subtraction.
    SubWrap,
}

/// Apply a scalar operation to two words.
pub open spec fn scalar_val(op: ScalarOp, x: u64, y: u64) -> u64 {
    match op {
        ScalarOp::AddWrap => x.wrapping_add(y),
        ScalarOp::SubWrap => x.wrapping_sub(y),
    }
}

/// The predicates a conditional jump can test its condition value with.
pub enum JumpCond {
    /// Jump when the condition value is zero.
    WhenZero,
    /// Jump when the condition value is not zero.
    WhenNotZero,
}

/// Whether a conditional jump with predicate `c` takes the jump on
/// condition value `v`.
pub open spec fn cond_holds(c: JumpCond, v: u64) -> bool {
    match c {
        JumpCond::WhenZero => v == 0,
        JumpCond::WhenNotZero => v != 0,
    }
}

/// An absolute jump: IP moves to `t` if `t` is inside the program, and
/// the step faults (leaving IP alone) otherwise.
pub open spec fn jump_to(s: State, t: u64) -> (State, StepKind) {
    if (t as int) < s.prog.len() {
        (State { ip: t as int, ..s }, StepKind::Running)
    } else {
        (s, StepKind::Faulted)
    }
}

/// One `Zero` instruction: write 0 through `a`, then advance.
pub open spec fn step_zero(s: State, a: Address) -> (State, StepKind) {
    then_advance(write_addr_s(s, a, 0))
}

/// One `Move` instruction: write the value of `a` through `b`, then
/// advance.
pub open spec fn step_move(s: State, a: Address, b: Address) -> (State, StepKind) {
    then_advance(write_addr_s(s, b, addr_val(s, a)))
}

/// One `Output` instruction: append the eight big-endian bytes of the
/// value of `a` to the output stream, then advance.
pub open spec fn step_output(s: State, a: Address) -> (State, StepKind) {
    advance(State { output: s.output + wire::be64(addr_val(s, a)), ..s })
}

/// One `Input` instruction: consume the next eight input bytes as one
/// big-endian word and write it through `a`, then advance; fault, with
/// nothing consumed, if fewer than eight bytes remain.
pub open spec fn step_input(s: State, a: Address) -> (State, StepKind) {
    if s.in_pos + 8 <= s.input.len() {
        let v = wire::be_word(s.input.subrange(s.in_pos, s.in_pos + 8));
        then_advance(write_addr_s(State { in_pos: s.in_pos + 8, ..s }, a, v))
    } else {
        (s, StepKind::Faulted)
    }
}

/// One two-operand scalar instruction: combine the values of `a` and `b`
/// and write the result through `a`, then advance.
pub open spec fn step_scalar(s: State, a: Address, b: Address, op: ScalarOp) -> (State, StepKind) {
    then_advance(write_addr_s(s, a, scalar_val(op, addr_val(s, a), addr_val(s, b))))
}

/// One conditional jump: jump to the value of `a` when the predicate
/// holds of the value of `b`, advance by one otherwise.
pub open spec fn step_cond_jump(s: State, a: Address, b: Address, c: JumpCond) -> (
    State,
    StepKind,
) {
    if cond_holds(c, addr_val(s, b)) {
        jump_to(s, addr_val(s, a))
    } else {
        advance(s)
    }
}

/// One `Push` instruction: SP moves one down and the pushed value lands
/// at the new SP.  The step faults when SP reaches the low end of memory
/// (or would wrap below it), with SP left at 0.  A push whose SP lies
/// beyond the memory cap stores nothing but still advances.
pub open spec fn step_push(s: State, a: Address) -> (State, StepKind) {
    let v = addr_val(s, a);
    if s.sp <= 1 {
        (State { sp: 0, ..s }, StepKind::Faulted)
    } else {
        let s2 = State { sp: (s.sp - 1) as u64, ..s };
        advance(with_mem(s2, s2.sp, v).0)
    }
}

/// One `Pop` instruction.  On an empty stack (SP at or above BP), SP is
/// pinned back to BP and 0 is written through `a`; otherwise the word at
/// SP is read, SP moves one up, and the word is written through `a`.
/// Either way the machine then advances, unless the write faulted.
pub open spec fn step_pop(s: State, a: Address) -> (State, StepKind) {
    if s.sp >= s.bp {
        then_advance(write_addr_s(State { sp: s.bp, ..s }, a, 0))
    } else {
        let v = mem_val(s, s.sp);
        then_advance(write_addr_s(State { sp: (s.sp + 1) as u64, ..s }, a, v))
    }
}

/// One step of the fetch-decode-execute loop: the state after executing
/// `prog[ip]`, and the kind of that step's outcome.  Fetching from
/// outside the program faults.
pub open spec fn step(s: State) -> (State, StepKind) {
    if !(0 <= s.ip < s.prog.len()) {
        (s, StepKind::Faulted)
    } else {
        match s.prog[s.ip] {
            Instruction::NoOp => advance(s),
            Instruction::Zero(a) => step_zero(s, a),
            Instruction::Move(a, b) => step_move(s, a, b),
            Instruction::Output(a) => step_output(s, a),
            Instruction::Input(a) => step_input(s, a),
            Instruction::Add(a, b) => step_scalar(s, a, b, ScalarOp::AddWrap),
            Instruction::Sub(a, b) => step_scalar(s, a, b, ScalarOp::SubWrap),
            Instruction::Jump(a) => jump_to(s, addr_val(s, a)),
            Instruction::JumpIfZero(a, b) => step_cond_jump(s, a, b, JumpCond::WhenZero),
            Instruction::JumpNotZero(a, b) => step_cond_jump(s, a, b, JumpCond::WhenNotZero),
            Instruction::Push(a) => step_push(s, a),
            Instruction::Pop(a) => step_pop(s, a),
            Instruction::Halt => (s, StepKind::Halted),
            Instruction::Illegal => (s, StepKind::Faulted),
        }
    }
}

/// Represents the state of a machine, including its registers, its
/// memory, its bound input and output byte streams, and its program.
pub struct Machine {
    /// The amount of memory the machine can use, at maximum.
    max_words: usize,
    /// The eight general purpose registers, used for program operation.
    registers: Vec<u64>,
    /// The stack pointer.
    sp: u64,
    /// The base pointer.
    bp: u64,
    /// The instruction pointer.  Note that this is a pointer into the
    /// program vector, not the machine's data memory!  It indexes a
    /// vector and does NOT advance by bytes or words.
    ip: usize,
    /// Memory used by the machine.
    memory: Vec<u64>,
    /// Program code for the machine.
    program: Vec<Instruction>,
    /// The input byte stream bound to the machine.
    input: Vec<u8>,
    /// How many input bytes have been consumed.
    in_pos: usize,
    /// The output byte stream bound to the machine.
    output: Vec<u8>,
}

impl View for Machine {
    type V = State;

    closed spec fn view(&self) -> State {
        State {
            max_words: self.max_words as int,
            regs: self.registers@,
            sp: self.sp,
            bp: self.bp,
            ip: self.ip as int,
            mem: self.memory@,
            prog: self.program@,
            input: self.input@,
            in_pos: self.in_pos as int,
            output: self.output@,
        }
    }
}

impl Machine {
    /// Well-formedness of the machine, as seen through its model.
    pub open spec fn wf(&self) -> bool {
        self@.wf()
    }

    /// Create a new machine bound to the given input and output byte
    /// streams, with the given memory cap.
    pub fn new(max_words: usize, input: Vec<u8>, output: Vec<u8>) -> (m: Machine)
        requires
            1 <= max_words < usize::MAX,
        ensures
            m@ == init_state(max_words as int, input@, output@),
            m.wf(),
    {
        let mut registers: Vec<u64> = Vec::new();
        let mut k: usize = 0;
        while k < 8
            invariant
                k <= 8,
                registers@ == Seq::new(k as nat, |i: int| 0u64),
            decreases 8 - k,
        {
            registers.push(0);
            proof {
                assert(registers@ =~= Seq::new((k + 1) as nat, |i: int| 0u64));
            }
            k = k + 1;
        }
        let m = Machine {
            max_words,
            registers,
            // Both SP and BP start at the top of memory; the stack grows
            // downwards.
            sp: (max_words - 1) as u64,
            bp: (max_words - 1) as u64,
            ip: 0,
            memory: Vec::new(),
            program: vec![Instruction::Illegal],
            input,
            in_pos: 0,
            output,
        };
        proof {
            assert(m@ =~= init_state(max_words as int, m.input@, m.output@));
        }
        m
    }

    /// Load a program into the machine.  This resets the instruction
    /// pointer; registers, memory, SP, BP, and the streams are untouched.
    pub fn load_program(&mut self, new: Vec<Instruction>)
        requires
            old(self).wf(),
        ensures
            final(self)@ == (State { prog: new@, ip: 0, ..old(self)@ }),
            final(self).wf(),
    {
        self.program = new;
        self.ip = 0;
    }

    /// Replace the machine's memory with the given vector.
    pub fn load_memory(&mut self, new: Vec<Word>)
        requires
            old(self).wf(),
        ensures
            final(self)@ == (State { mem: new@, ..old(self)@ }),
            final(self).wf(),
    {
        self.memory = new;
    }

    /// Borrow out the machine's internal memory for examination.
    pub fn get_memory(&self) -> (r: &[Word])
        ensures
            r@ == self@.mem,
    {
        self.memory.as_slice()
    }

    /// Borrow out the bytes written to the output stream so far.
    pub fn get_output(&self) -> (r: &[u8])
        ensures
            r@ == self@.output,
    {
        self.output.as_slice()
    }

    /// Advance to the next instruction (i.e., increment IP).  This can
    /// cause a Fault, if IP ends up off the end.
    pub fn next_instr(&mut self) -> (r: Outcome)
        requires
            old(self).wf(),
            old(self)@.ip < usize::MAX,
        ensures
            final(self).wf(),
            final(self)@ == advance(old(self)@).0,
            kind_of(r) == advance(old(self)@).1,
    {
        let n = self.program.len();
        self.ip = self.ip + 1;
        if self.ip >= n {
            Outcome::Fault("IP beyond program length.".to_owned())
        } else {
            Outcome::Continue
        }
    }

    /// Read a value from a register.
    fn read_register(&self, r: Register) -> (v: Word)
        requires
            self.wf(),
        ensures
            v == reg_val(self@, r),
    {
        match r {
            Register::R0 => self.registers[0],
            Register::R1 => self.registers[1],
            Register::R2 => self.registers[2],
            Register::R3 => self.registers[3],
            Register::R4 => self.registers[4],
            Register::R5 => self.registers[5],
            Register::R6 => self.registers[6],
            Register::R7 => self.registers[7],
            Register::SP => self.sp,
            Register::BP => self.bp,
        }
    }

    /// Write a value into a register.
    fn write_register(&mut self, r: Register, v: Word)
        requires
            old(self).wf(),
        ensures
            final(self).wf(),
            final(self)@ == with_reg(old(self)@, r, v),
    {
        match r {
            Register::R0 => {
                self.registers[0] = v;
            },
            Register::R1 => {
                self.registers[1] = v;
            },
            Register::R2 => {
                self.registers[2] = v;
            },
            Register::R3 => {
                self.registers[3] = v;
            },
            Register::R4 => {
                self.registers[4] = v;
            },
            Register::R5 => {
                self.registers[5] = v;
            },
            Register::R6 => {
                self.registers[6] = v;
            },
            Register::R7 => {
                self.registers[7] = v;
            },
            Register::SP => {
                self.sp = v;
            },
            Register::BP => {
                self.bp = v;
            },
        }
    }

    /// Write the provided value into the provided memory address.  If
    /// this is off the end of the available memory, fault; otherwise grow
    /// memory as needed (zero-filled) and store.
    fn write_memory(&mut self, l: Word, v: Word) -> (r: Outcome)
        requires
            old(self).wf(),
        ensures
            final(self).wf(),
            final(self)@ == with_mem(old(self)@, l, v).0,
            kind_of(r) == with_mem(old(self)@, l, v).1,
    {
        if l > self.max_words as u64 {
            return Outcome::Fault("Tried to write out of available memory.".to_owned());
        }
        let lu = l as usize;
        proof {
            assert(self@.mem =~= old(self)@.mem + Seq::new(0, |i: int| 0u64));
        }
        // Memory must be at least the right length; grow it zero-filled.
        while self.memory.len() <= lu
            invariant
                lu < usize::MAX,
                old(self)@.mem.len() <= self@.mem.len(),
                self@.mem.len() <= lu + 1 || self@.mem.len() <= old(self)@.mem.len(),
                self@.mem == old(self)@.mem + Seq::new(
                    (self@.mem.len() - old(self)@.mem.len()) as nat,
                    |i: int| 0u64,
                ),
                self@ == (State { mem: self@.mem, ..old(self)@ }),
            decreases lu + 1 - self.memory.len(),
        {
            self.memory.push(0);
            proof {
                assert(self@.mem =~= old(self)@.mem + Seq::new(
                    (self@.mem.len() - old(self)@.mem.len()) as nat,
                    |i: int| 0u64,
                ));
            }
        }
        proof {
            assert(self@.mem =~= mem_grown(old(self)@.mem, lu as int));
        }
        self.memory[lu] = v;
        proof {
            assert(self@ =~= with_mem(old(self)@, l, v).0);
        }
        Outcome::Continue
    }

    /// Read a word from the provided memory address.  If this address is
    /// outside the available memory, this returns 0.
    fn read_memory(&self, l: Word) -> (v: Word)
        requires
            self.wf(),
        ensures
            v == mem_val(self@, l),
    {
        if l > self.max_words as u64 {
            0
        } else {
            let lu = l as usize;
            if lu >= self.memory.len() {
                0
            } else {
                self.memory[lu]
            }
        }
    }

    /// Write the given word value to the given address.  If it is a
    /// Literal, this will emit a Fault; otherwise it is a Continue.
    pub fn write_addr(&mut self, a: Address, v: Word) -> (r: Outcome)
        requires
            old(self).wf(),
        ensures
            final(self).wf(),
            final(self)@ == write_addr_s(old(self)@, a, v).0,
            kind_of(r) == write_addr_s(old(self)@, a, v).1,
    {
        match a {
            Address::Literal(_) => Outcome::Fault("Tried to write to a literal.".to_owned()),
            Address::RegAbs(r) => {
                self.write_register(r, v);
                Outcome::Continue
            },
            Address::MemAbs(l) => self.write_memory(l, v),
            Address::MemReg(r) => {
                let location = self.read_register(r);
                self.write_memory(location, v)
            },
        }
    }

    /// Read a word from the given address.
    pub fn read_addr(&self, a: Address) -> (v: Word)
        requires
            self.wf(),
        ensures
            v == addr_val(self@, a),
    {
        match a {
            Address::Literal(v) => v,
            Address::RegAbs(r) => self.read_register(r),
            Address::MemAbs(l) => self.read_memory(l),
            Address::MemReg(r) => self.read_memory(self.read_register(r)),
        }
    }

    /// Execute a jump to the absolute program index `l`.
    fn absolute_jump(&mut self, l: Word) -> (r: Outcome)
        requires
            old(self).wf(),
        ensures
            final(self).wf(),
            final(self)@ == jump_to(old(self)@, l).0,
            kind_of(r) == jump_to(old(self)@, l).1,
    {
        if l < self.program.len() as u64 {
            self.ip = l as usize;
            Outcome::Continue
        } else {
            Outcome::Fault("Attempt to jump beyond the end of the program.".to_owned())
        }
    }

    /// Execute a NoOp instruction.
    fn ins_no_op(&mut self) -> (r: Outcome)
        requires
            old(self).wf(),
            old(self)@.ip < old(self)@.prog.len(),
        ensures
            final(self).wf(),
            final(self)@ == advance(old(self)@).0,
            kind_of(r) == advance(old(self)@).1,
    {
        proof {
            vstd::std_specs::vec::axiom_spec_len(&self.program);
        }
        self.next_instr()
    }

    /// Execute a Halt instruction.
    fn ins_halt(&mut self) -> (r: Outcome)
        requires
            old(self).wf(),
        ensures
            final(self).wf(),
            final(self)@ == old(self)@,
            kind_of(r) == StepKind::Halted,
    {
        Outcome::Halt
    }

    /// Execute a Move instruction.
    fn ins_move(&mut self, a: Address, b: Address) -> (r: Outcome)
        requires
            old(self).wf(),
            old(self)@.ip < old(self)@.prog.len(),
        ensures
            final(self).wf(),
            final(self)@ == step_move(old(self)@, a, b).0,
            kind_of(r) == step_move(old(self)@, a, b).1,
    {
        proof {
            vstd::std_specs::vec::axiom_spec_len(&self.program);
        }
        let v = self.read_addr(a);
        match self.write_addr(b, v) {
            Outcome::Continue => self.next_instr(),
            o => o,
        }
    }

    /// Execute a Zero instruction.
    fn ins_zero(&mut self, a: Address) -> (r: Outcome)
        requires
            old(self).wf(),
            old(self)@.ip < old(self)@.prog.len(),
        ensures
            final(self).wf(),
            final(self)@ == step_zero(old(self)@, a).0,
            kind_of(r) == step_zero(old(self)@, a).1,
    {
        proof {
            vstd::std_specs::vec::axiom_spec_len(&self.program);
        }
        match self.write_addr(a, 0) {
            Outcome::Continue => self.next_instr(),
            o => o,
        }
    }

    /// Execute an Output instruction.
    fn ins_output(&mut self, a: Address) -> (r: Outcome)
        requires
            old(self).wf(),
            old(self)@.ip < old(self)@.prog.len(),
        ensures
            final(self).wf(),
            final(self)@ == step_output(old(self)@, a).0,
            kind_of(r) == step_output(old(self)@, a).1,
    {
        proof {
            vstd::std_specs::vec::axiom_spec_len(&self.program);
        }
        let v = self.read_addr(a);
        let mut chunk = wire::be_u64_bytes(v);
        self.output.append(&mut chunk);
        self.next_instr()
    }

    /// Execute an Input instruction.
    fn ins_input(&mut self, a: Address) -> (r: Outcome)
        requires
            old(self).wf(),
            old(self)@.ip < old(self)@.prog.len(),
        ensures
            final(self).wf(),
            final(self)@ == step_input(old(self)@, a).0,
            kind_of(r) == step_input(old(self)@, a).1,
    {
        proof {
            vstd::std_specs::vec::axiom_spec_len(&self.program);
        }
        if self.input.len() - self.in_pos >= 8 {
            let v = wire::be_u64_at(self.input.as_slice(), self.in_pos);
            self.in_pos = self.in_pos + 8;
            match self.write_addr(a, v) {
                Outcome::Continue => self.next_instr(),
                o => o,
            }
        } else {
            Outcome::Fault("Failed to read on input instruction.".to_owned())
        }
    }

    /// Execute any two-operand scalar instruction.
    fn ins_generic_scalar(&mut self, a: Address, b: Address, op: ScalarOp) -> (r: Outcome)
        requires
            old(self).wf(),
            old(self)@.ip < old(self)@.prog.len(),
        ensures
            final(self).wf(),
            final(self)@ == step_scalar(old(self)@, a, b, op).0,
            kind_of(r) == step_scalar(old(self)@, a, b, op).1,
    {
        proof {
            vstd::std_specs::vec::axiom_spec_len(&self.program);
        }
        let value_a = self.read_addr(a);
        let value_b = self.read_addr(b);
        let combined = match op {
            ScalarOp::AddWrap => value_a.wrapping_add(value_b),
            ScalarOp::SubWrap => value_a.wrapping_sub(value_b),
        };
        match self.write_addr(a, combined) {
            Outcome::Continue => self.next_instr(),
            other => other,
        }
    }

    /// Execute an unconditional jump.
    fn ins_jump(&mut self, a: Address) -> (r: Outcome)
        requires
            old(self).wf(),
        ensures
            final(self).wf(),
            final(self)@ == jump_to(old(self)@, addr_val(old(self)@, a)).0,
            kind_of(r) == jump_to(old(self)@, addr_val(old(self)@, a)).1,
    {
        let addr = self.read_addr(a);
        self.absolute_jump(addr)
    }

    /// Execute any one-condition jump.
    fn ins_generic_jump_single(&mut self, a: Address, b: Address, c: JumpCond) -> (r: Outcome)
        requires
            old(self).wf(),
            old(self)@.ip < old(self)@.prog.len(),
        ensures
            final(self).wf(),
            final(self)@ == step_cond_jump(old(self)@, a, b, c).0,
            kind_of(r) == step_cond_jump(old(self)@, a, b, c).1,
    {
        proof {
            vstd::std_specs::vec::axiom_spec_len(&self.program);
        }
        let value_a = self.read_addr(a);
        let value_b = self.read_addr(b);
        let taken = match c {
            JumpCond::WhenZero => value_b == 0,
            JumpCond::WhenNotZero => value_b != 0,
        };
        if taken {
            self.absolute_jump(value_a)
        } else {
            self.next_instr()
        }
    }

    /// Execute a Push instruction.  Causes a fault if the stack has
    /// overrun the available memory.
    fn ins_push(&mut self, a: Address) -> (r: Outcome)
        requires
            old(self).wf(),
            old(self)@.ip < old(self)@.prog.len(),
        ensures
            final(self).wf(),
            final(self)@ == step_push(old(self)@, a).0,
            kind_of(r) == step_push(old(self)@, a).1,
    {
        proof {
            vstd::std_specs::vec::axiom_spec_len(&self.program);
        }
        let val = self.read_addr(a);
        if self.sp <= 1 {
            self.sp = 0;
            Outcome::Fault("Stack has overrun available memory!".to_owned())
        } else {
            self.sp = self.sp - 1;
            let location = self.sp;
            let _ = self.write_memory(location, val);
            self.next_instr()
        }
    }

    /// Execute a Pop instruction.  If the stack is empty, this does not
    /// fault, but pins SP back to BP and writes zero to the target.
    fn ins_pop(&mut self, a: Address) -> (r: Outcome)
        requires
            old(self).wf(),
            old(self)@.ip < old(self)@.prog.len(),
        ensures
            final(self).wf(),
            final(self)@ == step_pop(old(self)@, a).0,
            kind_of(r) == step_pop(old(self)@, a).1,
    {
        proof {
            vstd::std_specs::vec::axiom_spec_len(&self.program);
        }
        if self.sp >= self.bp {
            self.sp = self.bp;
            match self.write_addr(a, 0) {
                Outcome::Continue => self.next_instr(),
                other => other,
            }
        } else {
            let val = self.read_memory(self.sp);
            self.sp = self.sp + 1;
            match self.write_addr(a, val) {
                Outcome::Continue => self.next_instr(),
                other => other,
            }
        }
    }

    /// Fetch the instruction under IP, dispatch on its opcode, and
    /// execute it.
    pub fn execute_next(&mut self) -> (r: Outcome)
        requires
            old(self).wf(),
            old(self)@.ip < old(self)@.prog.len(),
        ensures
            final(self).wf(),
            final(self)@ == step(old(self)@).0,
            kind_of(r) == step(old(self)@).1,
    {
        match self.program[self.ip] {
            Instruction::NoOp => self.ins_no_op(),
            Instruction::Zero(a) => self.ins_zero(a),
            Instruction::Move(a, b) => self.ins_move(a, b),
            Instruction::Output(a) => self.ins_output(a),
            Instruction::Input(a) => self.ins_input(a),
            Instruction::Add(a, b) => self.ins_generic_scalar(a, b, ScalarOp::AddWrap),
            Instruction::Sub(a, b) => self.ins_generic_scalar(a, b, ScalarOp::SubWrap),
            Instruction::Jump(a) => self.ins_jump(a),
            Instruction::JumpIfZero(a, b) => self.ins_generic_jump_single(a, b, JumpCond::WhenZero),
            Instruction::JumpNotZero(a, b) => self.ins_generic_jump_single(
                a,
                b,
                JumpCond::WhenNotZero,
            ),
            Instruction::Push(a) => self.ins_push(a),
            Instruction::Pop(a) => self.ins_pop(a),
            Instruction::Halt => self.ins_halt(),
            Instruction::Illegal => Outcome::Fault("Illegal instruction encountered.".to_owned()),
        }
    }
}

/// At most `fuel` steps of the machine: the state reached, the kind of
/// the last step taken (`Running` if the fuel ran out with every step
/// completing), and the number of instructions charged.  A completed step
/// is charged one instruction; the step producing a terminal outcome is
/// not charged.
pub open spec fn run_for_spec(s: State, fuel: nat) -> (State, StepKind, nat)
    decreases fuel,
{
    if fuel == 0 {
        (s, StepKind::Running, 0)
    } else {
        let p = step(s);
        if p.1 == StepKind::Running {
            let r = run_for_spec(p.0, (fuel - 1) as nat);
            (r.0, r.1, (r.2 + 1) as nat)
        } else {
            (p.0, p.1, 0)
        }
    }
}

/// A write through any address preserves well-formedness.
pub proof fn lemma_write_addr_s_wf(s: State, a: Address, v: u64)
    requires
        s.wf(),
    ensures
        write_addr_s(s, a, v).0.wf(),
{
}

/// One step preserves well-formedness.
#[verifier::spinoff_prover]
pub proof fn lemma_step_wf(s: State)
    requires
        s.wf(),
    ensures
        step(s).0.wf(),
{
    if 0 <= s.ip < s.prog.len() {
        match s.prog[s.ip] {
            Instruction::NoOp => {},
            Instruction::Zero(a) => {
                lemma_write_addr_s_wf(s, a, 0);
            },
            Instruction::Move(a, b) => {
                lemma_write_addr_s_wf(s, b, addr_val(s, a));
            },
            Instruction::Output(a) => {},
            Instruction::Input(a) => {
                if s.in_pos + 8 <= s.input.len() {
                    let s2 = State { in_pos: s.in_pos + 8, ..s };
                    let v = wire::be_word(s.input.subrange(s.in_pos, s.in_pos + 8));
                    lemma_write_addr_s_wf(s2, a, v);
                }
            },
            Instruction::Add(a, b) => {
                lemma_write_addr_s_wf(s, a, scalar_val(ScalarOp::AddWrap, addr_val(s, a), addr_val(s, b)));
            },
            Instruction::Sub(a, b) => {
                lemma_write_addr_s_wf(s, a, scalar_val(ScalarOp::SubWrap, addr_val(s, a), addr_val(s, b)));
            },
            Instruction::Jump(a) => {},
            Instruction::JumpIfZero(a, b) => {},
            Instruction::JumpNotZero(a, b) => {},
            Instruction::Push(a) => {},
            Instruction::Pop(a) => {
                if s.sp >= s.bp {
                    lemma_write_addr_s_wf(State { sp: s.bp, ..s }, a, 0);
                } else {
                    lemma_write_addr_s_wf(
                        State { sp: (s.sp + 1) as u64, ..s },
                        a,
                        mem_val(s, s.sp),
                    );
                }
            },
            Instruction::Halt => {},
            Instruction::Illegal => {},
        }
    }
}

/// A step whose outcome kind is `Running` leaves IP strictly inside the
/// program, so the next fetch is in bounds.
pub proof fn lemma_step_running_ip(s: State)
    ensures
        step(s).1 == StepKind::Running ==> 0 <= step(s).0.ip < step(s).0.prog.len(),
{
}

/// A bounded run splits at any point where it is still running: the
/// remaining fuel continues from the state reached, and the charges add.
pub proof fn lemma_run_for_compose(s: State, k: nat, n: nat)
    requires
        k <= n,
        run_for_spec(s, k).1 == StepKind::Running,
    ensures
        ({
            let mid = run_for_spec(s, k);
            let rest = run_for_spec(mid.0, (n - k) as nat);
            run_for_spec(s, n) == (rest.0, rest.1, (mid.2 + rest.2) as nat)
        }),
    decreases k,
{
    if k > 0 {
        let p = step(s);
        lemma_run_for_compose(p.0, (k - 1) as nat, (n - 1) as nat);
    }
}

impl Machine {
    /// Execute at most the given number of instructions, also stopping on
    /// a Halt or Fault condition.  Returns the Outcome of the last
    /// instruction and the number of instructions executed.
    pub fn run_for(&mut self, cycles: u64) -> (r: (Outcome, u64))
        requires
            old(self).wf(),
            old(self)@.ip < old(self)@.prog.len(),
        ensures
            final(self).wf(),
            final(self)@ == run_for_spec(old(self)@, cycles as nat).0,
            kind_of(r.0) == run_for_spec(old(self)@, cycles as nat).1,
            r.1 == run_for_spec(old(self)@, cycles as nat).2,
    {
        let ghost s0 = old(self)@;
        let mut instructions_remaining: u64 = cycles;
        while instructions_remaining > 0
            invariant
                s0 == old(self)@,
                self.wf(),
                instructions_remaining <= cycles,
                0 <= self@.ip < self@.prog.len(),
                run_for_spec(s0, (cycles - instructions_remaining) as nat) == (
                    self@,
                    StepKind::Running,
                    (cycles - instructions_remaining) as nat,
                ),
            decreases instructions_remaining,
        {
            let ghost sc = self@;
            let ghost k = (cycles - instructions_remaining) as nat;
            let o = self.execute_next();
            match o {
                Outcome::Continue => {
                    instructions_remaining = instructions_remaining - 1;
                    proof {
                        reveal_with_fuel(run_for_spec, 2);
                        lemma_step_running_ip(sc);
                        lemma_run_for_compose(s0, k, (k + 1) as nat);
                        assert(run_for_spec(s0, (k + 1) as nat) == (
                            self@,
                            StepKind::Running,
                            (k + 1) as nat,
                        ));
                    }
                },
                other => {
                    proof {
                        reveal_with_fuel(run_for_spec, 2);
                        lemma_run_for_compose(s0, k, cycles as nat);
                        assert(run_for_spec(s0, cycles as nat) == (self@, kind_of(other), k));
                    }
                    return (other, cycles - instructions_remaining);
                },
            }
        }
        (Outcome::Continue, cycles - instructions_remaining)
    }

    /// Execute instructions until a Halt or Fault occurs, up to a budget
    /// of `u64::MAX` instructions — a bound no real program reaches.
    /// _BEWARE: This may run practically forever!_
    pub fn run(&mut self) -> (r: Outcome)
        requires
            old(self).wf(),
            old(self)@.ip < old(self)@.prog.len(),
        ensures
            final(self).wf(),
            final(self)@ == run_for_spec(old(self)@, u64::MAX as nat).0,
            kind_of(r) == run_for_spec(old(self)@, u64::MAX as nat).1,
    {
        let (o, _) = self.run_for(u64::MAX);
        o
    }
}

/// The state of a fresh 128-word machine bound to the byte stream
/// carrying `input`, with `prog` loaded.
pub open spec fn execute_start(prog: Seq<Instruction>, input: Seq<u64>) -> State {
    State {
        prog,
        ip: 0,
        ..init_state(128, wire::be_bytes_of_words(input), Seq::empty())
    }
}

/// Given a Program (that is, a Vec of Instructions), this function
/// manages creating a Machine and hooking up its input and output for
/// you: each input word is carried to the machine as eight big-endian
/// bytes, and the machine's output stream is read back as words.  It
/// returns the final outcome of the program, the number of instructions
/// executed, and the output words.  With no limit the machine runs to the
/// `u64::MAX` instruction budget of [`Machine::run`].
pub fn execute(program: Vec<Instruction>, input: Vec<Word>, limit: Option<u64>) -> (r: (
    Outcome,
    u64,
    Vec<Word>,
))
    requires
        program@.len() > 0,
    ensures
        ({
            let fuel = (match limit {
                Some(l) => l,
                None => u64::MAX,
            }) as nat;
            let t = run_for_spec(execute_start(program@, input@), fuel);
            &&& kind_of(r.0) == t.1
            &&& r.1 == t.2
            &&& r.2@ == wire::words_of_be_bytes(t.0.output)
        }),
{
    let internal_input = wire::words_to_be_bytes(&input);
    let mut m = Machine::new(128, internal_input, Vec::new());
    m.load_program(program);
    let actual_limit = match limit {
        Some(l) => l,
        None => u64::MAX,
    };
    let (o, cycles) = m.run_for(actual_limit);
    let output = wire::be_bytes_to_words(m.get_output());
    (o, cycles, output)
}

} // verus!
