use vstd::prelude::*;

use crate::instruction::Instruction;

verus! {

/// Why a program cannot be turned into a linked instruction sequence.
#[derive(PartialEq, Eq, Structural, Debug, Clone, Copy)]
pub enum ProgramError {
    /// A loop open without its close, or a close without its open.
    Unbalanced,
    /// A fused run of offsets or deltas does not fit in an `isize`.
    OffsetOverflow,
}

/// The instruction that a source symbol stands for, if any.
pub open spec fn token_of(c: char) -> Option<Instruction> {
    if c == '>' {
        Some(Instruction::Move(1))
    } else if c == '<' {
        Some(Instruction::Move(-1isize))
    } else if c == '+' {
        Some(Instruction::Add(1))
    } else if c == '-' {
        Some(Instruction::Add(-1isize))
    } else if c == '.' {
        Some(Instruction::Print)
    } else if c == ',' {
        Some(Instruction::Read)
    } else if c == '[' {
        Some(Instruction::JumpIfZero(0))
    } else if c == ']' {
        Some(Instruction::JumpIfNotZero(0))
    } else {
        None
    }
}

/// The unlinked instruction sequence of a source text: one instruction per
/// operator symbol, every other symbol dropped.
pub open spec fn tokenize_spec(s: Seq<char>) -> Seq<Instruction>
    decreases s.len(),
{
    if s.len() == 0 {
        Seq::empty()
    } else {
        let rest = tokenize_spec(s.drop_last());
        match token_of(s.last()) {
            Some(t) => rest.push(t),
            None => rest,
        }
    }
}

/// How the loop nesting changes across one instruction.
pub open spec fn nesting_delta(ins: Instruction) -> int {
    match ins {
        Instruction::JumpIfZero(_) => 1,
        Instruction::JumpIfNotZero(_) => -1,
        _ => 0,
    }
}

/// Loop nesting depth after the first `n` instructions.
pub open spec fn depth(p: Seq<Instruction>, n: nat) -> int
    decreases n,
{
    if n == 0 || n > p.len() {
        0
    } else {
        depth(p, (n - 1) as nat) + nesting_delta(p[n - 1])
    }
}

/// Every loop close has an open before it, and every open is closed.
pub open spec fn balanced(p: Seq<Instruction>) -> bool {
    &&& forall|m: nat| m <= p.len() ==> #[trigger] depth(p, m) >= 0
    &&& depth(p, p.len()) == 0
}

/// The linking pass over the first `n` instructions: the instructions emitted
/// so far and the stack of pending loop opens, or `None` once a close found
/// the stack empty.
pub open spec fn link_prefix(p: Seq<Instruction>, n: nat) -> Option<(Seq<Instruction>, Seq<usize>)>
    decreases n,
{
    if n == 0 || n > p.len() {
        Some((Seq::empty(), Seq::empty()))
    } else {
        let i = n - 1;
        match link_prefix(p, i as nat) {
            None => None,
            Some((out, stack)) => match p[i] {
                Instruction::JumpIfZero(_) => Some((out.push(Instruction::JumpIfZero(0)), stack.push(i as usize))),
                Instruction::JumpIfNotZero(_) => if stack.len() == 0 {
                    None
                } else {
                    let k = stack.last();
                    Some(
                        (
                            out.update(k as int, Instruction::JumpIfZero((i + 1) as usize)).push(
                                Instruction::JumpIfNotZero((k + 1) as usize),
                            ),
                            stack.drop_last(),
                        ),
                    )
                },
                _ => Some((out.push(p[i]), stack)),
            },
        }
    }
}

/// The linked form of a sequence: every loop open targets the index just after
/// its close, every close the index just after its open.
pub open spec fn linked(p: Seq<Instruction>) -> Seq<Instruction> {
    match link_prefix(p, p.len()) {
        Some((out, _)) => out,
        None => p,
    }
}

/// Two instructions of one kind, alike in all but jump targets.
pub open spec fn same_shape(a: Instruction, b: Instruction) -> bool {
    match (a, b) {
        (Instruction::JumpIfZero(_), Instruction::JumpIfZero(_)) => true,
        (Instruction::JumpIfNotZero(_), Instruction::JumpIfNotZero(_)) => true,
        _ => a == b,
    }
}

/// Two sequences that differ at most in jump targets.
pub open spec fn shapes_agree(p: Seq<Instruction>, q: Seq<Instruction>) -> bool {
    &&& p.len() == q.len()
    &&& forall|i: int| 0 <= i < p.len() ==> same_shape(#[trigger] p[i], q[i])
}

proof fn lemma_shape_determines_link(p: Seq<Instruction>, q: Seq<Instruction>, n: nat)
    requires
        shapes_agree(p, q),
    ensures
        link_prefix(p, n) == link_prefix(q, n),
        depth(p, n) == depth(q, n),
    decreases n,
{
    if n > 0 && n <= p.len() {
        lemma_shape_determines_link(p, q, (n - 1) as nat);
        assert(same_shape(p[n - 1], q[n - 1]));
    }
}

proof fn lemma_link_prefix_shape(p: Seq<Instruction>, n: nat)
    requires
        n <= p.len() <= usize::MAX,
        link_prefix(p, n) is Some,
    ensures
        ({
            let (out, stack) = link_prefix(p, n)->Some_0;
            &&& out.len() == n
            &&& forall|i: int| 0 <= i < n ==> same_shape(#[trigger] out[i], p[i])
            &&& forall|j: int|
                0 <= j < stack.len() ==> #[trigger] stack[j] < n && p[stack[j] as int] is JumpIfZero
        }),
    decreases n,
{
    if n > 0 {
        lemma_link_prefix_shape(p, (n - 1) as nat);
        let (out, stack) = link_prefix(p, (n - 1) as nat)->Some_0;
        let (out2, stack2) = link_prefix(p, n)->Some_0;
        assert forall|j: int| 0 <= j < stack2.len() implies #[trigger] stack2[j] < n
            && p[stack2[j] as int] is JumpIfZero by {
            if j < stack.len() {
                assert(stack2[j] == stack[j]);
            } else {
                assert(p[n - 1] is JumpIfZero);
            }
        }
        assert forall|i: int| 0 <= i < n implies same_shape(#[trigger] out2[i], p[i]) by {
            if i < n - 1 {
                assert(same_shape(out[i], p[i]));
            }
        }
    }
}

/// Linking keeps every instruction's kind, and linking an already linked,
/// unchanged sequence again yields the same targets.
pub proof fn lemma_link_idempotent(p: Seq<Instruction>)
    requires
        p.len() <= usize::MAX,
        balanced(p),
    ensures
        shapes_agree(linked(p), p),
        balanced(linked(p)),
        linked(linked(p)) == linked(p),
{
    lemma_link_prefix_some(p, p.len());
    lemma_link_prefix_shape(p, p.len());
    let q = linked(p);
    assert(shapes_agree(q, p));
    assert forall|m: nat| m <= q.len() implies #[trigger] depth(q, m) >= 0 by {
        lemma_shape_determines_link(q, p, m);
        assert(depth(p, m) >= 0);
    }
    lemma_shape_determines_link(q, p, q.len());
}

proof fn lemma_link_prefix_some(p: Seq<Instruction>, n: nat)
    requires
        n <= p.len(),
        forall|m: nat| m <= n ==> #[trigger] depth(p, m) >= 0,
    ensures
        link_prefix(p, n) is Some,
        link_prefix(p, n)->Some_0.1.len() == depth(p, n),
    decreases n,
{
    if n > 0 {
        lemma_link_prefix_some(p, (n - 1) as nat);
        assert(depth(p, n) >= 0);
    }
}

fn token(c: char) -> (r: Option<Instruction>)
    ensures
        r == token_of(c),
{
    match c {
        '>' => Some(Instruction::Move(1)),
        '<' => Some(Instruction::Move(-1)),
        '+' => Some(Instruction::Add(1)),
        '-' => Some(Instruction::Add(-1)),
        '.' => Some(Instruction::Print),
        ',' => Some(Instruction::Read),
        '[' => Some(Instruction::JumpIfZero(0)),
        ']' => Some(Instruction::JumpIfNotZero(0)),
        _ => None,
    }
}

/// Maps each operator symbol to its instruction, dropping all other symbols;
/// jump targets are left as placeholders.
pub fn tokenize(program: &[char]) -> (r: Vec<Instruction>)
    ensures
        r@ == tokenize_spec(program@),
{
    let mut out: Vec<Instruction> = Vec::new();
    let mut i: usize = 0;
    while i < program.len()
        invariant
            i <= program@.len(),
            out@ == tokenize_spec(program@.subrange(0, i as int)),
        decreases program@.len() - i,
    {
        let ghost prefix = program@.subrange(0, i + 1);
        assert(prefix.drop_last() =~= program@.subrange(0, i as int));
        if let Some(t) = token(program[i]) {
            out.push(t);
        }
        i += 1;
    }
    assert(program@.subrange(0, i as int) =~= program@);
    out
}

/// Resolves every loop open and close to the index just after its partner,
/// recomputing all targets from the nesting alone. Fails exactly when the
/// sequence is unbalanced.
pub fn link_jumps(program: &[Instruction]) -> (r: Result<Vec<Instruction>, ProgramError>)
    ensures
        r is Ok <==> balanced(program@),
        r matches Ok(v) ==> v@ == linked(program@) && v@.len() == program@.len(),
        r matches Err(e) ==> e == ProgramError::Unbalanced,
{
    let mut stack: Vec<usize> = Vec::new();
    let mut out: Vec<Instruction> = Vec::new();
    let mut i: usize = 0;
    while i < program.len()
        invariant
            i <= program@.len(),
            link_prefix(program@, i as nat) == Some((out@, stack@)),
            stack@.len() == depth(program@, i as nat),
            out@.len() == i,
            forall|j: int| 0 <= j < stack@.len() ==> stack@[j] < i,
            forall|m: nat| m <= i ==> #[trigger] depth(program@, m) >= 0,
        decreases program@.len() - i,
    {
        let ins = program[i];
        match ins {
            Instruction::JumpIfZero(_) => {
                stack.push(i);
                out.push(Instruction::JumpIfZero(0));
            },
            Instruction::JumpIfNotZero(_) => {
                match stack.pop() {
                    None => {
                        assert(depth(program@, (i + 1) as nat) < 0);
                        return Err(ProgramError::Unbalanced);
                    },
                    Some(k) => {
                        out.set(k, Instruction::JumpIfZero(i + 1));
                        out.push(Instruction::JumpIfNotZero(k + 1));
                    },
                }
            },
            _ => {
                out.push(ins);
            },
        }
        assert forall|m: nat| m <= i + 1 implies #[trigger] depth(program@, m) >= 0 by {
            if m == i + 1 {
            }
        }
        i += 1;
    }
    if stack.len() > 0 {
        return Err(ProgramError::Unbalanced);
    }
    Ok(out)
}

/// Tokenizes a source text and links its jumps.
pub fn parse(program: &[char]) -> (r: Result<Vec<Instruction>, ProgramError>)
    ensures
        r is Ok <==> balanced(tokenize_spec(program@)),
        r matches Ok(v) ==> v@ == linked(tokenize_spec(program@)) && v@.len() == tokenize_spec(
            program@,
        ).len(),
        r matches Err(e) ==> e == ProgramError::Unbalanced,
{
    let tokens = tokenize(program);
    link_jumps(tokens.as_slice())
}

} // verus!
