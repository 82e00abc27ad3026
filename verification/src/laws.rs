//! Laws of the machine: properties that relate several operations, each
//! proved once and for all over the machine's model.

use vstd::prelude::*;

verus! {

use crate::instructions::{Address, Instruction};
use crate::machine::{
    addr_val,
    lemma_step_wf,
    reg_val,
    run_for_spec,
    step,
    write_addr_s,
    State,
    StepKind,
};

/// Whether a write through `a` goes through in state `s`, whatever the
/// value written: any register destination, or a memory destination
/// whose index is within the cap.  A literal destination never is.
pub open spec fn writable(s: State, a: Address) -> bool {
    match a {
        Address::RegAbs(_) => true,
        Address::MemAbs(l) => l as int <= s.max_words,
        Address::MemReg(r) => reg_val(s, r) as int <= s.max_words,
        Address::Literal(_) => false,
    }
}

/// A write through a writable address does not fault, and reading the
/// same address back afterwards yields exactly the written value.
pub proof fn lemma_write_then_read(s: State, a: Address, v: u64)
    requires
        s.wf(),
        writable(s, a),
    ensures
        write_addr_s(s, a, v).1 == StepKind::Running,
        addr_val(write_addr_s(s, a, v).0, a) == v,
{
}

/// Loading a program is idempotent: a second load of the same program
/// leaves everything exactly as the first load did — IP is 0 and the
/// program is in place, and registers, memory, SP, and BP are those of
/// the state loaded into.
pub proof fn lemma_load_program_idempotent(s: State, p: Seq<Instruction>)
    ensures
        (State { prog: p, ip: 0, ..(State { prog: p, ip: 0, ..s }) }) == (State {
            prog: p,
            ip: 0,
            ..s
        }),
        (State { prog: p, ip: 0, ..s }).regs == s.regs,
        (State { prog: p, ip: 0, ..s }).mem == s.mem,
        (State { prog: p, ip: 0, ..s }).sp == s.sp,
        (State { prog: p, ip: 0, ..s }).bp == s.bp,
{
}

/// Memory round trip: after a write through `MemAbs(i)` with `i` within
/// the cap, the write reports success and a read of `MemAbs(i)` yields
/// the written value.
pub proof fn lemma_mem_write_then_read(s: State, i: u64, v: u64)
    requires
        s.wf(),
        i as int <= s.max_words,
    ensures
        write_addr_s(s, Address::MemAbs(i), v).1 == StepKind::Running,
        addr_val(write_addr_s(s, Address::MemAbs(i), v).0, Address::MemAbs(i)) == v,
{
    lemma_write_then_read(s, Address::MemAbs(i), v);
}

/// Wrapping arithmetic: over starting values u and v, an Add instruction
/// stores (u + v) mod 2^64 in operand a, and a Sub instruction stores
/// (u - v) mod 2^64 there.
pub proof fn lemma_scalar_arithmetic(s: State, a: Address, b: Address)
    requires
        s.wf(),
        0 <= s.ip < s.prog.len(),
        writable(s, a),
    ensures
        s.prog[s.ip] == Instruction::Add(a, b) ==> addr_val(step(s).0, a) == (addr_val(s, a)
            + addr_val(s, b)) % 0x1_0000_0000_0000_0000,
        s.prog[s.ip] == Instruction::Sub(a, b) ==> addr_val(step(s).0, a) == (addr_val(s, a)
            - addr_val(s, b) + 0x1_0000_0000_0000_0000) % 0x1_0000_0000_0000_0000,
{
    let u = addr_val(s, a) as int;
    let v = addr_val(s, b) as int;
    let m = 0x1_0000_0000_0000_0000int;
    if s.prog[s.ip] == Instruction::Add(a, b) {
        lemma_write_then_read(s, a, addr_val(s, a).wrapping_add(addr_val(s, b)));
        if u + v <= u64::MAX {
            vstd::arithmetic::div_mod::lemma_small_mod((u + v) as nat, m as nat);
        } else {
            vstd::arithmetic::div_mod::lemma_mod_sub_multiples_vanish(u + v, m);
            vstd::arithmetic::div_mod::lemma_small_mod((u + v - m) as nat, m as nat);
        }
    }
    if s.prog[s.ip] == Instruction::Sub(a, b) {
        lemma_write_then_read(s, a, addr_val(s, a).wrapping_sub(addr_val(s, b)));
        if u - v >= 0 {
            vstd::arithmetic::div_mod::lemma_mod_sub_multiples_vanish(u - v + m, m);
            vstd::arithmetic::div_mod::lemma_small_mod((u - v) as nat, m as nat);
        } else {
            vstd::arithmetic::div_mod::lemma_small_mod((u - v + m) as nat, m as nat);
        }
    }
}

/// Cycle accounting: a bounded run charges at most its fuel, and charges
/// exactly its fuel when every step completed.
pub proof fn lemma_run_for_cycles(s: State, fuel: nat)
    ensures
        run_for_spec(s, fuel).2 <= fuel,
        run_for_spec(s, fuel).1 == StepKind::Running ==> run_for_spec(s, fuel).2 == fuel,
    decreases fuel,
{
    if fuel > 0 {
        let p = step(s);
        if p.1 == StepKind::Running {
            lemma_run_for_cycles(p.0, (fuel - 1) as nat);
        }
    }
}

/// Halt stickiness: a halting step leaves the machine state exactly as
/// it was, and a bounded run whose first step halts charges zero cycles,
/// however much fuel it was given.
pub proof fn lemma_halt_not_charged(s: State, fuel: nat)
    requires
        fuel > 0,
        step(s).1 == StepKind::Halted,
    ensures
        run_for_spec(s, fuel) == (step(s).0, StepKind::Halted, 0nat),
        step(s).0 == s,
{
}

/// Writing to any Literal address yields a fault, and the machine state
/// does not change.
pub proof fn lemma_literal_write_faults(s: State, w: u64, v: u64)
    ensures
        write_addr_s(s, Address::Literal(w), v) == (s, StepKind::Faulted),
{
}

/// A jump whose target lies at or beyond the program's length faults and
/// leaves the state unchanged; in particular, `Jump(Literal(n))` faults
/// on a program of length n.
pub proof fn lemma_jump_overrun_faults(s: State, a: Address)
    requires
        0 <= s.ip < s.prog.len(),
        s.prog[s.ip] == Instruction::Jump(a),
        addr_val(s, a) >= s.prog.len(),
    ensures
        step(s) == (s, StepKind::Faulted),
{
}

/// The push guard: while SP is above the low guard word, a push
/// succeeds and moves SP exactly one down; with SP at 1 or 0 the push
/// faults.  From SP = MAX_WORDS - 1 a program can therefore push
/// MAX_WORDS - 2 times before the next push faults.
pub proof fn lemma_push_guard(s: State, a: Address)
    requires
        0 <= s.ip,
        s.ip + 1 < s.prog.len(),
        s.prog[s.ip] == Instruction::Push(a),
    ensures
        s.sp > 1 ==> step(s).1 == StepKind::Running && step(s).0.sp == s.sp - 1,
        s.sp <= 1 ==> step(s).1 == StepKind::Faulted,
{
}

/// The push budget: on a stretch of Push instructions, a machine whose
/// stack pointer stands at SP > 0 completes exactly SP - 1 pushes, each
/// moving SP one down, and the next push faults.  With SP initialized to
/// MAX_WORDS - 1, that is MAX_WORDS - 2 pushes before the fault.
pub proof fn lemma_push_budget(s: State, n: nat)
    requires
        s.wf(),
        s.sp >= 1,
        n == s.sp - 1,
        s.ip + n + 1 < s.prog.len(),
        forall|j: int| 0 <= j <= n ==> (#[trigger] s.prog[s.ip + j]) is Push,
    ensures
        run_for_spec(s, n + 1).1 == StepKind::Faulted,
        run_for_spec(s, n + 1).2 == n,
    decreases n,
{
    reveal_with_fuel(run_for_spec, 2);
    assert(s.prog[s.ip + 0] is Push);
    lemma_step_wf(s);
    if n == 0 {
        // SP is already down at the guard word: this push faults and is
        // not charged.
        assert(step(s).1 == StepKind::Faulted);
    } else {
        // This push succeeds: SP moves one down and IP one forward, and
        // the remaining pushes are again a stretch of Push instructions.
        let s3 = step(s).0;
        assert(step(s).1 == StepKind::Running);
        assert(s3.sp == s.sp - 1 && s3.ip == s.ip + 1 && s3.prog == s.prog);
        assert forall|j: int| 0 <= j <= n - 1 implies (#[trigger] s3.prog[s3.ip + j]) is Push by {
            assert(s.prog[s.ip + (j + 1)] is Push);
        }
        lemma_push_budget(s3, (n - 1) as nat);
    }
}

/// Popping from an empty stack (SP at or above BP) does not fault: it
/// pins SP back to BP and writes 0 through the destination, where it can
/// then be read back.
pub proof fn lemma_pop_empty(s: State, a: Address)
    requires
        s.wf(),
        0 <= s.ip,
        s.ip + 1 < s.prog.len(),
        s.prog[s.ip] == Instruction::Pop(a),
        s.sp >= s.bp,
        writable((State { sp: s.bp, ..s }), a),
    ensures
        step(s).1 == StepKind::Running,
        step(s).0.sp == write_addr_s((State { sp: s.bp, ..s }), a, 0).0.sp,
        addr_val(step(s).0, a) == 0,
{
    lemma_write_then_read(State { sp: s.bp, ..s }, a, 0);
}

} // verus!
