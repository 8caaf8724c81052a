use vstd::prelude::*;

use crate::instruction::Instruction;
use crate::optimize::{fits, fuse, optimize, optimized, RunKind};
use crate::parse::{balanced, lemma_link_idempotent, linked, parse, tokenize_spec, ProgramError};

verus! {

/// Number of cells on the tape.
pub const TAPE_LEN: usize = 30000;

/// Why a run stopped before the end of the program.
#[derive(PartialEq, Eq, Structural, Debug, Clone, Copy)]
pub enum Fault {
    /// A move would take the data pointer to the tape length or beyond.
    PointerOverflow,
    /// A move would take the data pointer below zero.
    PointerUnderflow,
    /// An instruction without execution semantics (`Read`) was reached.
    UnknownInstruction,
    /// The run used up its budget of instruction dispatches.
    StepLimit,
    /// The source could not be turned into a program.
    Program(ProgramError),
}

/// The whole state of a run, as the semantics sees it.
pub struct Snapshot {
    pub tape: Seq<u8>,
    pub dp: int,
    pub ip: int,
    pub out: Seq<char>,
    pub counts: Seq<int>,
}

/// `b + n` modulo 256.
pub open spec fn wrap_add(b: u8, n: isize) -> u8 {
    ((b as int + n as int) % 256) as u8
}

/// What one instruction does to a state: the tape, the data pointer, the
/// output and the instruction pointer.
pub open spec fn apply(ins: Instruction, s: Snapshot) -> Result<Snapshot, Fault> {
    let cell = s.tape[s.dp];
    match ins {
        Instruction::Move(n) => if n > 0 && s.dp + n >= TAPE_LEN {
            Err(Fault::PointerOverflow)
        } else if n < 0 && -n > s.dp {
            Err(Fault::PointerUnderflow)
        } else {
            Ok(Snapshot { dp: s.dp + n, ip: s.ip + 1, ..s })
        },
        Instruction::Add(n) => Ok(
            Snapshot { tape: s.tape.update(s.dp, wrap_add(cell, n)), ip: s.ip + 1, ..s },
        ),
        Instruction::Print => Ok(Snapshot { out: s.out.push(cell as char), ip: s.ip + 1, ..s }),
        Instruction::Read => Err(Fault::UnknownInstruction),
        Instruction::JumpIfZero(t) => Ok(
            Snapshot {
                ip: if cell == 0 {
                    t as int
                } else {
                    s.ip + 1
                },
                ..s
            },
        ),
        Instruction::JumpIfNotZero(t) => Ok(
            Snapshot {
                ip: if cell != 0 {
                    t as int
                } else {
                    s.ip + 1
                },
                ..s
            },
        ),
        Instruction::SetZero => Ok(Snapshot { tape: s.tape.update(s.dp, 0), ip: s.ip + 1, ..s }),
    }
}

/// One dispatch of the instruction at `s.ip`, which lies within the program:
/// its count goes up by one, then it takes effect.
pub open spec fn step(p: Seq<Instruction>, s: Snapshot) -> Result<Snapshot, Fault> {
    apply(p[s.ip], Snapshot { counts: s.counts.update(s.ip, s.counts[s.ip] + 1), ..s })
}

/// Runs from `s` until the instruction pointer leaves the program, a fault
/// occurs, or `fuel` dispatches have been made.
pub open spec fn run(p: Seq<Instruction>, s: Snapshot, fuel: nat) -> Result<Snapshot, Fault>
    decreases fuel,
{
    if s.ip >= p.len() {
        Ok(s)
    } else if fuel == 0 {
        Err(Fault::StepLimit)
    } else {
        match step(p, s) {
            Ok(next) => run(p, next, (fuel - 1) as nat),
            Err(e) => Err(e),
        }
    }
}

/// The number of dispatches that `run` makes before it stops.
pub open spec fn dispatches(p: Seq<Instruction>, s: Snapshot, fuel: nat) -> nat
    decreases fuel,
{
    if s.ip >= p.len() || fuel == 0 {
        0
    } else {
        match step(p, s) {
            Ok(next) => 1 + dispatches(p, next, (fuel - 1) as nat),
            Err(_) => 1,
        }
    }
}

/// The sum of a sequence of counts.
pub open spec fn sum(s: Seq<int>) -> int
    decreases s.len(),
{
    if s.len() == 0 {
        0
    } else {
        sum(s.drop_last()) + s.last()
    }
}

/// The largest number of dispatches a run is given.
pub const MAX_STEPS: u64 = 0xffff_ffff_ffff_ffff;

/// The linked instruction sequence of a source text, optimized or not.
pub open spec fn bytecode_of(src: Seq<char>, opt: bool) -> Result<Seq<Instruction>, ProgramError> {
    let t = tokenize_spec(src);
    let l = linked(t);
    if !balanced(t) {
        Err(ProgramError::Unbalanced)
    } else if !opt {
        Ok(l)
    } else if !fits(RunKind::Moves, l) || !fits(RunKind::Adds, fuse(RunKind::Moves, l)) {
        Err(ProgramError::OffsetOverflow)
    } else {
        Ok(optimized(l))
    }
}

/// A state the engine can be in: a full tape, the data pointer on it, the
/// instruction pointer not negative, one count per instruction.
pub open spec fn valid(p: Seq<Instruction>, s: Snapshot) -> bool {
    &&& s.tape.len() == TAPE_LEN
    &&& 0 <= s.dp < TAPE_LEN
    &&& 0 <= s.ip
    &&& s.counts.len() == p.len()
}

/// Adding one to the byte 255 gives 0, and subtracting one from 0 gives 255.
pub proof fn lemma_wraparound(p: Seq<Instruction>, s: Snapshot)
    requires
        valid(p, s),
        s.ip < p.len(),
    ensures
        p[s.ip] == Instruction::Add(1) && s.tape[s.dp] == 255 ==> (step(p, s) matches Ok(n)
            && n.tape[s.dp] == 0),
        p[s.ip] == Instruction::Add(-1isize) && s.tape[s.dp] == 0 ==> (step(p, s) matches Ok(n)
            && n.tape[s.dp] == 255),
{
}

/// A move that would take the data pointer below zero or to the tape length
/// or beyond is a fault, and the run stops with it.
pub proof fn lemma_bounds_enforced(p: Seq<Instruction>, s: Snapshot, fuel: nat)
    requires
        valid(p, s),
        s.ip < p.len(),
        fuel > 0,
    ensures
        (p[s.ip] matches Instruction::Move(n) && s.dp + n < 0) ==> step(p, s) == Err::<
            Snapshot,
            Fault,
        >(Fault::PointerUnderflow) && run(p, s, fuel) == Err::<Snapshot, Fault>(
            Fault::PointerUnderflow,
        ),
        (p[s.ip] matches Instruction::Move(n) && s.dp + n >= TAPE_LEN) ==> step(p, s) == Err::<
            Snapshot,
            Fault,
        >(Fault::PointerOverflow) && run(p, s, fuel) == Err::<Snapshot, Fault>(
            Fault::PointerOverflow,
        ),
{
}

proof fn lemma_sum_bump(s: Seq<int>, i: int)
    requires
        0 <= i < s.len(),
    ensures
        sum(s.update(i, s[i] + 1)) == sum(s) + 1,
    decreases s.len(),
{
    let t = s.update(i, s[i] + 1);
    if i == s.len() - 1 {
        assert(t.drop_last() =~= s.drop_last());
    } else {
        lemma_sum_bump(s.drop_last(), i);
        assert(t.drop_last() =~= s.drop_last().update(i, s[i] + 1));
    }
}

proof fn lemma_step_valid(p: Seq<Instruction>, s: Snapshot)
    requires
        valid(p, s),
        s.ip < p.len(),
    ensures
        step(p, s) matches Ok(n) ==> valid(p, n) && n.counts == s.counts.update(
            s.ip,
            s.counts[s.ip] + 1,
        ),
{
}

/// The profile of a run has one count per instruction, and the counts grow by
/// exactly the number of dispatches made.
pub proof fn lemma_profile_alignment(p: Seq<Instruction>, s: Snapshot, fuel: nat)
    requires
        valid(p, s),
    ensures
        run(p, s, fuel) matches Ok(e) ==> (e.counts.len() == p.len() && sum(e.counts) == sum(
            s.counts,
        ) + dispatches(p, s, fuel)),
    decreases fuel,
{
    if s.ip < p.len() && fuel > 0 {
        lemma_step_valid(p, s);
        if let Ok(n) = step(p, s) {
            lemma_sum_bump(s.counts, s.ip);
            lemma_profile_alignment(p, n, (fuel - 1) as nat);
        }
    }
}

/// What a program's run yields: the bytes printed, as characters, and how many
/// times each instruction was dispatched.
pub struct ExecutionOutput {
    pub output: Vec<char>,
    pub profile: Vec<u64>,
}

/// The tape, the data pointer, and whether source is optimized before it runs.
pub struct VirtualMachine {
    pub memory: Vec<u8>,
    pub pointer: usize,
    pub optimize: bool,
}

impl VirtualMachine {
    /// A tape of the right length with the data pointer on it.
    pub open spec fn wf(&self) -> bool {
        &&& self.memory@.len() == TAPE_LEN
        &&& self.pointer < TAPE_LEN
    }

    /// The state a run of a program of `len` instructions starts from.
    pub open spec fn start(&self, len: nat) -> Snapshot {
        Snapshot {
            tape: self.memory@,
            dp: self.pointer as int,
            ip: 0,
            out: Seq::empty(),
            counts: Seq::new(len, |i: int| 0),
        }
    }

    /// All cells zero, the data pointer on the first cell, no optimization.
    pub fn new() -> (r: Self)
        ensures
            r.wf(),
            r.memory@ == Seq::new(TAPE_LEN as nat, |i: int| 0u8),
            r.pointer == 0,
            !r.optimize,
    {
        let mut memory: Vec<u8> = Vec::new();
        while memory.len() < TAPE_LEN
            invariant
                memory@.len() <= TAPE_LEN,
                forall|i: int| 0 <= i < memory@.len() ==> memory@[i] == 0u8,
            decreases TAPE_LEN - memory@.len(),
        {
            memory.push(0u8);
        }
        assert(memory@ =~= Seq::new(TAPE_LEN as nat, |i: int| 0u8));
        VirtualMachine { memory, pointer: 0, optimize: false }
    }

    /// The semantic state of this machine at instruction `ip`, with the output
    /// and counts gathered so far.
    pub open spec fn snap(&self, ip: int, out: Seq<char>, counts: Seq<u64>) -> Snapshot {
        Snapshot {
            tape: self.memory@,
            dp: self.pointer as int,
            ip,
            out,
            counts: counts.map_values(|c: u64| c as int),
        }
    }

    /// The machine after a run and what the run returned agree with the
    /// semantics of `p` from the state before it, under a budget of `fuel`.
    pub open spec fn ran(
        &self,
        after: &Self,
        p: Seq<Instruction>,
        fuel: nat,
        r: Result<ExecutionOutput, Fault>,
    ) -> bool {
        &&& after.wf()
        &&& after.optimize == self.optimize
        &&& match run(p, self.start(p.len()), fuel) {
            Ok(s) => r matches Ok(o) && o.output@ == s.out && o.profile@.map_values(
                |c: u64| c as int,
            ) == s.counts && after.memory@ == s.tape && after.pointer == s.dp,
            Err(e) => r == Err::<ExecutionOutput, Fault>(e),
        }
    }

    /// Interprets `program` on this machine's tape, making at most `max_steps`
    /// dispatches, and counts the dispatches of each instruction.
    pub fn execute_bounded(&mut self, program: &[Instruction], max_steps: u64) -> (r: Result<ExecutionOutput, Fault>)
        requires
            old(self).wf(),
        ensures
            old(self).ran(final(self), program@, max_steps as nat, r),
    {
        let mut output: Vec<char> = Vec::new();
        let mut counts: Vec<u64> = Vec::new();
        while counts.len() < program.len()
            invariant
                counts@.len() <= program@.len(),
                forall|i: int| 0 <= i < counts@.len() ==> counts@[i] == 0u64,
            decreases program@.len() - counts@.len(),
        {
            counts.push(0u64);
        }
        let ghost start = old(self).start(program@.len());
        assert(self.snap(0, output@, counts@) == start) by {
            assert(counts@.map_values(|c: u64| c as int) =~= start.counts);
            assert(output@ =~= start.out);
        }
        let mut ip: usize = 0;
        let mut fuel: u64 = max_steps;
        while ip < program.len()
            invariant
                self.wf(),
                self.optimize == old(self).optimize,
                start == old(self).start(program@.len()),
                counts@.len() == program@.len(),
                fuel <= max_steps,
                forall|i: int| 0 <= i < counts@.len() ==> counts@[i] <= max_steps - fuel,
                run(program@, start, max_steps as nat) == run(
                    program@,
                    self.snap(ip as int, output@, counts@),
                    fuel as nat,
                ),
            decreases fuel,
        {
            let ghost before = self.snap(ip as int, output@, counts@);
            if fuel == 0 {
                return Err(Fault::StepLimit);
            }
            let c = counts[ip];
            counts.set(ip, c + 1);
            fuel -= 1;
            assert(counts@.map_values(|c: u64| c as int) =~= before.counts.update(
                ip as int,
                before.counts[ip as int] + 1,
            ));
            let cell = self.memory[self.pointer];
            match program[ip] {
                Instruction::Move(n) => {
                    if n > 0 {
                        if n as usize >= TAPE_LEN - self.pointer {
                            return Err(Fault::PointerOverflow);
                        }
                        self.pointer = self.pointer + n as usize;
                    } else if n < 0 {
                        if n < -(self.pointer as isize) {
                            return Err(Fault::PointerUnderflow);
                        }
                        self.pointer = (self.pointer as isize + n) as usize;
                    }
                    ip += 1;
                },
                Instruction::Add(n) => {
                    let d: isize = match n.checked_rem_euclid(256) {
                        Some(d) => d,
                        None => 0,
                    };
                    let v: u8 = ((cell as u16 + d as u16) % 256) as u8;
                    assert(v == wrap_add(cell, n)) by (nonlinear_arith)
                        requires
                            d == n % 256,
                            v == (cell + d) % 256,
                    ;
                    self.memory.set(self.pointer, v);
                    ip += 1;
                },
                Instruction::Print => {
                    output.push(cell as char);
                    ip += 1;
                },
                Instruction::Read => {
                            return Err(Fault::UnknownInstruction);
                },
                Instruction::JumpIfZero(t) => {
                    if cell == 0 {
                        ip = t;
                    } else {
                        ip += 1;
                    }
                },
                Instruction::JumpIfNotZero(t) => {
                    if cell != 0 {
                        ip = t;
                    } else {
                        ip += 1;
                    }
                },
                Instruction::SetZero => {
                    self.memory.set(self.pointer, 0);
                    ip += 1;
                },
            }
            assert(step(program@, before) == Ok::<Snapshot, Fault>(
                self.snap(ip as int, output@, counts@),
            ));
        }
        Ok(ExecutionOutput { output, profile: counts })
    }

    /// Interprets `program` on this machine's tape until the instruction
    /// pointer leaves it or a fault occurs.
    pub fn execute(&mut self, program: &[Instruction]) -> (r: Result<ExecutionOutput, Fault>)
        requires
            old(self).wf(),
        ensures
            old(self).ran(final(self), program@, MAX_STEPS as nat, r),
    {
        self.execute_bounded(program, MAX_STEPS)
    }

    /// Tokenizes and links a source text, then optimizes it when this machine
    /// is set to.
    pub fn bytecode(&self, program: &[char]) -> (r: Result<Vec<Instruction>, ProgramError>)
        ensures
            match bytecode_of(program@, self.optimize) {
                Ok(code) => r matches Ok(v) && v@ == code,
                Err(e) => r == Err::<Vec<Instruction>, ProgramError>(e),
            },
    {
        match parse(program) {
            Ok(code) => if self.optimize {
                proof {
                    lemma_link_idempotent(tokenize_spec(program@));
                }
                optimize(code.as_slice())
            } else {
                Ok(code)
            },
            Err(e) => Err(e),
        }
    }

    /// Turns a source text into bytecode and executes it on this machine.
    pub fn run(&mut self, program: &[char]) -> (r: Result<ExecutionOutput, Fault>)
        requires
            old(self).wf(),
        ensures
            final(self).wf(),
            match bytecode_of(program@, old(self).optimize) {
                Ok(code) => old(self).ran(final(self), code, MAX_STEPS as nat, r),
                Err(e) => r == Err::<ExecutionOutput, Fault>(Fault::Program(e)) && *final(self)
                    == *old(self),
            },
    {
        match self.bytecode(program) {
            Ok(code) => self.execute(code.as_slice()),
            Err(e) => Err(Fault::Program(e)),
        }
    }
}

} // verus!
