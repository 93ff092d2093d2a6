//! The machine state and the fetch-execute interpreter.

use vstd::array::spec_array_update;
use vstd::prelude::*;

use crate::instruction::{CPUError, Instruction};

verus! {

/// The machine: 32 bytes of memory shared by code and data, the accumulator
/// `register`, the zero flag `z`, and the program counter `pc`.
#[derive(Clone, Copy, Debug, PartialEq, Eq)]
pub struct Cpu {
    pub memory: [u8; 32],
    pub z: bool,
    pub register: u8,
    pub pc: u8,
}

/// What executing one instruction leads to.
#[derive(Clone, Copy, Debug, PartialEq, Eq)]
pub enum Outcome {
    /// The machine goes on from this state.
    Continue(Cpu),
    /// The machine halted, in this state.
    Halted(Cpu),
}

impl Outcome {
    /// The machine state that the outcome holds.
    pub open spec fn state(self) -> Cpu {
        match self {
            Outcome::Continue(c) => c,
            Outcome::Halted(c) => c,
        }
    }
}

/// The program counter after a fetch: one more, modulo 32.
pub open spec fn next_pc(pc: u8) -> u8 {
    ((pc + 1) % 32) as u8
}

/// Whether executing the instruction halts the machine: a `Clear` with a
/// nonzero operand.
pub open spec fn halts(i: Instruction) -> bool {
    i matches Instruction::Clear(n) && n != 0
}

impl Cpu {
    /// The program counter addresses memory.
    pub open spec fn wf(self) -> bool {
        self.pc < 32
    }

    /// The state of a machine that was just created: memory zeroed,
    /// accumulator 0, zero flag set, program counter 0.
    pub open spec fn is_fresh(self) -> bool {
        &&& self.memory@ == Seq::new(32, |i: int| 0u8)
        &&& self.z
        &&& self.register == 0
        &&& self.pc == 0
    }

    /// A fresh machine whose memory starts with `program`.
    pub open spec fn is_booted_with(self, program: Seq<u8>) -> bool {
        &&& program.len() <= 32
        &&& self.memory@ == program + Seq::new((32 - program.len()) as nat, |i: int| 0u8)
        &&& self.z
        &&& self.register == 0
        &&& self.pc == 0
    }

    /// The fresh machine whose memory starts with `program` (at most 32 bytes).
    pub open spec fn booted(program: Seq<u8>) -> Cpu {
        choose|c: Cpu| c.is_booted_with(program)
    }

    /// `self` with `program` copied to the low end of its memory.
    pub open spec fn is_loaded_from(self, before: Cpu, program: Seq<u8>) -> bool {
        &&& program.len() <= 32
        &&& self.memory@ == program + before.memory@.skip(program.len() as int)
        &&& self.z == before.z
        &&& self.register == before.register
        &&& self.pc == before.pc
    }

    /// The state once a fetch has advanced the program counter.
    pub open spec fn advanced(self) -> Cpu {
        Cpu { pc: next_pc(self.pc), ..self }
    }

    /// The effect of an instruction that does not halt, applied after the
    /// fetch: jumps and branches overwrite the advanced program counter.
    pub open spec fn apply(self, i: Instruction) -> Cpu {
        match i {
            Instruction::Clear(_) => Cpu { register: 0, z: true, ..self },
            Instruction::Inc => {
                let r = ((self.register + 1) % 256) as u8;
                Cpu { register: r, z: r == 0, ..self }
            },
            Instruction::Add(op) => {
                let r = ((self.register + op) % 256) as u8;
                Cpu { register: r, z: r == 0, ..self }
            },
            Instruction::Dec => {
                let r = ((self.register + 255) % 256) as u8;
                Cpu { register: r, z: r == 0, ..self }
            },
            Instruction::Jump(op) => Cpu { pc: op, ..self },
            Instruction::Bnz(op) => if self.z {
                self
            } else {
                Cpu { pc: op, ..self }
            },
            Instruction::Load(op) => Cpu { register: self.memory@[op as int], ..self },
            Instruction::Store(op) => Cpu {
                memory: spec_array_update(self.memory, op as int, self.register),
                ..self
            },
        }
    }

    /// One transition: a halting instruction leaves the state as it is.
    pub open spec fn transition(self, i: Instruction) -> Outcome {
        if halts(i) {
            Outcome::Halted(self)
        } else {
            Outcome::Continue(self.apply(i))
        }
    }

    /// One fetch-execute cycle from memory.
    pub open spec fn cycle_result(self) -> Outcome {
        self.advanced().transition(Instruction::decoding(self.memory@[self.pc as int]))
    }

    /// At most `steps` cycles, stopping at the first halt.
    pub open spec fn run_result(self, steps: nat) -> Outcome
        decreases steps,
    {
        if steps == 0 {
            Outcome::Continue(self)
        } else {
            match self.cycle_result() {
                Outcome::Halted(c) => Outcome::Halted(c),
                Outcome::Continue(c) => c.run_result((steps - 1) as nat),
            }
        }
    }

    /// A fresh machine.
    pub fn new() -> (r: Cpu)
        ensures
            r.is_fresh(),
    {
        let r = Cpu { memory: [0u8; 32], z: true, register: 0, pc: 0 };
        assert(r.memory@ =~= Seq::new(32, |i: int| 0u8));
        r
    }

    /// Reads the byte at the program counter, advances the program counter
    /// modulo 32, and decodes the byte.
    pub fn fetch(&mut self) -> (r: Instruction)
        requires
            old(self).wf(),
        ensures
            r == Instruction::decoding(old(self).memory@[old(self).pc as int]),
            *final(self) == old(self).advanced(),
            final(self).wf(),
    {
        let byte = self.memory[self.pc as usize];
        self.pc = Self::inc_pc(self.pc);
        Instruction::disassemble(byte)
    }

    /// The program counter after `old`, wrapping at 5 bits.
    fn inc_pc(old: u8) -> (r: u8)
        requires
            old < 32,
        ensures
            r == next_pc(old),
    {
        if old == 31 {
            0
        } else {
            old + 1
        }
    }

    /// Executes an instruction whose fetch has already advanced the program
    /// counter.
    pub fn step(&self, instruction: Instruction) -> (r: Outcome)
        requires
            self.wf(),
            instruction.fits(),
        ensures
            r == self.transition(instruction),
            r.state().wf(),
    {
        let mut next = *self;
        match instruction {
            Instruction::Clear(op) => {
                if op != 0 {
                    return Outcome::Halted(next);
                }
                next.register = 0;
                next.z = true;
            },
            Instruction::Inc => {
                next.register = ((self.register as u16 + 1) % 256) as u8;
                next.z = next.register == 0;
            },
            Instruction::Add(op) => {
                next.register = ((self.register as u16 + op as u16) % 256) as u8;
                next.z = next.register == 0;
            },
            Instruction::Dec => {
                next.register = ((self.register as u16 + 255) % 256) as u8;
                next.z = next.register == 0;
            },
            Instruction::Jump(op) => {
                next.pc = op;
            },
            Instruction::Bnz(op) => {
                if !self.z {
                    next.pc = op;
                }
            },
            Instruction::Load(op) => {
                next.register = self.memory[op as usize];
            },
            Instruction::Store(op) => {
                next.memory[op as usize] = self.register;
                assert(next.memory =~= spec_array_update(self.memory, op as int, self.register));
            },
        }
        Outcome::Continue(next)
    }

    /// Executes `instruction` as if it had just been fetched: advances the
    /// program counter, then applies it. `None` when it halts the machine.
    pub fn execute(&self, instruction: Instruction) -> (r: Option<Cpu>)
        requires
            self.wf(),
            instruction.fits(),
        ensures
            r == (match self.advanced().transition(instruction) {
                Outcome::Continue(c) => Some(c),
                Outcome::Halted(_) => None,
            }),
    {
        let mut next = *self;
        next.pc = Self::inc_pc(self.pc);
        match next.step(instruction) {
            Outcome::Continue(c) => Some(c),
            Outcome::Halted(_) => None,
        }
    }

    /// One fetch-execute cycle from memory.
    pub fn cycle(&self) -> (r: Outcome)
        requires
            self.wf(),
        ensures
            r == self.cycle_result(),
            r.state().wf(),
    {
        let mut next = *self;
        let instruction = next.fetch();
        next.step(instruction)
    }

    /// Runs at most `max_steps` fetch-execute cycles, stopping at the first
    /// halt. `Continue` holds the state reached when no halt came in time.
    pub fn run(self, max_steps: u64) -> (r: Outcome)
        requires
            self.wf(),
        ensures
            r == self.run_result(max_steps as nat),
            r.state().wf(),
    {
        let mut state = self;
        let mut left = max_steps;
        while left > 0
            invariant
                state.wf(),
                self.run_result(max_steps as nat) == state.run_result(left as nat),
            decreases left,
        {
            match state.cycle() {
                Outcome::Halted(c) => {
                    return Outcome::Halted(c);
                },
                Outcome::Continue(c) => {
                    state = c;
                    left = left - 1;
                },
            }
        }
        Outcome::Continue(state)
    }

    /// Copies `program` into the low end of memory; the rest of the state is
    /// kept. Fails when the program holds more than 32 bytes.
    pub fn load(self, program: &[u8]) -> (r: Result<Cpu, CPUError>)
        ensures
            program@.len() > 32 ==> r == Err::<Cpu, CPUError>(CPUError::ProgramTooLarge),
            program@.len() <= 32 ==> (r matches Ok(c) && c.is_loaded_from(self, program@)),
    {
        if program.len() > 32 {
            return Err(CPUError::ProgramTooLarge);
        }
        let mut next = self;
        let mut i: usize = 0;
        while i < program.len()
            invariant
                i <= program@.len() <= 32,
                next.memory@ == program@.take(i as int) + self.memory@.skip(i as int),
                next.z == self.z,
                next.register == self.register,
                next.pc == self.pc,
            decreases program@.len() - i,
        {
            next.memory[i] = program[i];
            assert(next.memory@ =~= program@.take(i + 1) + self.memory@.skip(i + 1));
            i = i + 1;
        }
        assert(program@.take(i as int) =~= program@);
        Ok(next)
    }
}

/// Loads `program` into a fresh machine and runs at most `max_steps` cycles.
/// Fails when the program holds more than 32 bytes.
pub fn execute_program(program: &[u8], max_steps: u64) -> (r: Result<Outcome, CPUError>)
    ensures
        program@.len() > 32 <==> r is Err,
        r is Err ==> r == Err::<Outcome, CPUError>(CPUError::ProgramTooLarge),
        r matches Ok(o) ==> o == Cpu::booted(program@).run_result(max_steps as nat) && o.state().wf(),
{
    let state = match Cpu::new().load(program) {
        Ok(c) => c,
        Err(e) => {
            return Err(e);
        },
    };
    proof {
        let b = Cpu::booted(program@);
        assert(state.memory@ =~= program@ + Seq::new((32 - program@.len()) as nat, |i: int| 0u8));
        assert(state.is_booted_with(program@));
        assert(b.memory =~= state.memory);
    }
    Ok(state.run(max_steps))
}

/// Accumulator arithmetic wraps modulo 256, and the zero flag tells whether
/// the result is 0: `Dec` from 0 gives 255 with the flag clear, `Inc` from 255
/// gives 0 with the flag set.
pub proof fn lemma_accumulator_wraps(s: Cpu, op: u8)
    ensures
        s.transition(Instruction::Inc) matches Outcome::Continue(c) && c.register == (s.register
            + 1) % 256 && c.z == (c.register == 0),
        s.transition(Instruction::Dec) matches Outcome::Continue(c) && c.register == (s.register
            + 255) % 256 && c.z == (c.register == 0),
        s.transition(Instruction::Add(op)) matches Outcome::Continue(c) && c.register == (
        s.register + op) % 256 && c.z == (c.register == 0),
        s.register == 0 ==> (s.transition(Instruction::Dec) matches Outcome::Continue(c)
            && c.register == 255 && !c.z),
        s.register == 255 ==> (s.transition(Instruction::Inc) matches Outcome::Continue(c)
            && c.register == 0 && c.z),
{
}

/// The fetch advances the program counter modulo 32: from 31 it goes to 0.
pub proof fn lemma_fetch_wraps(s: Cpu)
    requires
        s.wf(),
    ensures
        s.advanced().pc == (s.pc + 1) % 32,
        s.advanced().wf(),
        s.pc == 31 ==> s.advanced().pc == 0,
{
}

/// `Bnz` leaves the program counter alone when the zero flag is set, and
/// sets it to the operand when the flag is clear; nothing else changes.
pub proof fn lemma_branch_if_not_zero(s: Cpu, op: u8)
    ensures
        s.z ==> s.transition(Instruction::Bnz(op)) == Outcome::Continue(s),
        !s.z ==> s.transition(Instruction::Bnz(op)) == Outcome::Continue(Cpu { pc: op, ..s }),
{
}

} // verus!
