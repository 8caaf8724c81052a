use vstd::prelude::*;

use crate::instruction::Instruction;
use crate::parse::{balanced, depth, link_jumps, linked, nesting_delta, ProgramError};

verus! {

/// Which instructions a fusion pass merges.
#[derive(PartialEq, Eq, Structural, Debug, Clone, Copy)]
pub enum RunKind {
    Moves,
    Adds,
}

/// The amount carried by an instruction of the given kind, if it is one.
pub open spec fn amount_of(kind: RunKind, ins: Instruction) -> Option<isize> {
    match (kind, ins) {
        (RunKind::Moves, Instruction::Move(n)) => Some(n),
        (RunKind::Adds, Instruction::Add(n)) => Some(n),
        _ => None,
    }
}

/// The single instruction of the given kind that carries an amount.
pub open spec fn fused_instruction(kind: RunKind, n: isize) -> Instruction {
    match kind {
        RunKind::Moves => Instruction::Move(n),
        RunKind::Adds => Instruction::Add(n),
    }
}

/// What a pending run emits: nothing when it sums to zero.
pub open spec fn flush(kind: RunKind, run: int) -> Seq<Instruction> {
    if run != 0 {
        seq![fused_instruction(kind, run as isize)]
    } else {
        Seq::empty()
    }
}

/// Fusion of `p` with a run summing to `run` pending before it.
pub open spec fn fuse_from(kind: RunKind, p: Seq<Instruction>, run: int) -> Seq<Instruction>
    decreases p.len(),
{
    if p.len() == 0 {
        flush(kind, run)
    } else {
        match amount_of(kind, p[0]) {
            Some(n) => fuse_from(kind, p.skip(1), run + n),
            None => flush(kind, run) + seq![p[0]] + fuse_from(kind, p.skip(1), 0),
        }
    }
}

/// Every partial sum of every run, counted from a pending `run`, fits in an `isize`.
pub open spec fn fits_from(kind: RunKind, p: Seq<Instruction>, run: int) -> bool
    decreases p.len(),
{
    if p.len() == 0 {
        true
    } else {
        match amount_of(kind, p[0]) {
            Some(n) => isize::MIN <= run + n <= isize::MAX && fits_from(kind, p.skip(1), run + n),
            None => fits_from(kind, p.skip(1), 0),
        }
    }
}

/// Every maximal run of the kind replaced by one instruction carrying its sum,
/// and dropped when the sum is zero.
pub open spec fn fuse(kind: RunKind, p: Seq<Instruction>) -> Seq<Instruction> {
    fuse_from(kind, p, 0)
}

pub open spec fn fits(kind: RunKind, p: Seq<Instruction>) -> bool {
    fits_from(kind, p, 0)
}

/// The sum of the amounts in a run.
pub open spec fn total(kind: RunKind, r: Seq<Instruction>) -> int
    decreases r.len(),
{
    if r.len() == 0 {
        0
    } else {
        let head: int = match amount_of(kind, r[0]) {
            Some(n) => n as int,
            None => 0,
        };
        head + total(kind, r.skip(1))
    }
}

/// Whether every instruction of `r` is of the kind.
pub open spec fn all_of_kind(kind: RunKind, r: Seq<Instruction>) -> bool {
    forall|i: int| 0 <= i < r.len() ==> #[trigger] amount_of(kind, r[i]) is Some
}

proof fn lemma_fuse_step(kind: RunKind, p: Seq<Instruction>, i: int, run: int)
    requires
        0 <= i < p.len(),
    ensures
        p.subrange(i, p.len() as int).skip(1) == p.subrange(i + 1, p.len() as int),
        fuse_from(kind, p.subrange(i, p.len() as int), run) == match amount_of(kind, p[i]) {
            Some(n) => fuse_from(kind, p.subrange(i + 1, p.len() as int), run + n),
            None => flush(kind, run) + seq![p[i]] + fuse_from(
                kind,
                p.subrange(i + 1, p.len() as int),
                0,
            ),
        },
        fits_from(kind, p.subrange(i, p.len() as int), run) == match amount_of(kind, p[i]) {
            Some(n) => isize::MIN <= run + n <= isize::MAX && fits_from(
                kind,
                p.subrange(i + 1, p.len() as int),
                run + n,
            ),
            None => fits_from(kind, p.subrange(i + 1, p.len() as int), 0),
        },
{
    assert(p.subrange(i, p.len() as int).skip(1) =~= p.subrange(i + 1, p.len() as int));
}

fn fuse_runs(program: &[Instruction], kind: RunKind) -> (r: Option<Vec<Instruction>>)
    ensures
        r is Some <==> fits(kind, program@),
        r matches Some(v) ==> v@ == fuse(kind, program@),
{
    let mut optimized: Vec<Instruction> = Vec::new();
    let mut run: isize = 0;
    let mut i: usize = 0;
    assert(program@.subrange(0, program@.len() as int) =~= program@);
    while i < program.len()
        invariant
            i <= program@.len(),
            fits(kind, program@) == fits_from(kind, program@.subrange(i as int, program@.len() as int), run as int),
            fits(kind, program@) ==> optimized@ + fuse_from(
                kind,
                program@.subrange(i as int, program@.len() as int),
                run as int,
            ) == fuse(kind, program@),
        decreases program@.len() - i,
    {
        let ins = program[i];
        proof {
            lemma_fuse_step(kind, program@, i as int, run as int);
        }
        let amount: Option<isize> = match (kind, ins) {
            (RunKind::Moves, Instruction::Move(n)) => Some(n),
            (RunKind::Adds, Instruction::Add(n)) => Some(n),
            _ => None,
        };
        match amount {
            Some(n) => {
                if (n > 0 && run > isize::MAX - n) || (n < 0 && run < isize::MIN - n) {
                    return None;
                }
                run = run + n;
            },
            None => {
                let ghost before = optimized@;
                let ghost r0 = run as int;
                if run != 0 {
                    optimized.push(
                        match kind {
                            RunKind::Moves => Instruction::Move(run),
                            RunKind::Adds => Instruction::Add(run),
                        },
                    );
                }
                optimized.push(ins);
                run = 0;
                assert(optimized@ =~= before + flush(kind, r0) + seq![ins]);
            },
        }
        i += 1;
    }
    if run != 0 {
        optimized.push(
            match kind {
                RunKind::Moves => Instruction::Move(run),
                RunKind::Adds => Instruction::Add(run),
            },
        );
    }
    assert(program@.subrange(i as int, program@.len() as int) =~= Seq::<Instruction>::empty());
    assert(optimized@ =~= optimized@ + Seq::<Instruction>::empty());
    Some(optimized)
}

/// Merges each run of consecutive moves into one move by their sum, dropping
/// runs that sum to zero; `None` when a sum does not fit in an `isize`.
pub fn colapse_moves(program: &[Instruction]) -> (r: Option<Vec<Instruction>>)
    ensures
        r is Some <==> fits(RunKind::Moves, program@),
        r matches Some(v) ==> v@ == fuse(RunKind::Moves, program@),
{
    fuse_runs(program, RunKind::Moves)
}

/// Merges each run of consecutive adds into one add by their sum, dropping
/// runs that sum to zero; `None` when a sum does not fit in an `isize`.
pub fn colapse_adds(program: &[Instruction]) -> (r: Option<Vec<Instruction>>)
    ensures
        r is Some <==> fits(RunKind::Adds, program@),
        r matches Some(v) ==> v@ == fuse(RunKind::Adds, program@),
{
    fuse_runs(program, RunKind::Adds)
}

/// The whole optimizer pipeline on a sequence: move fusion, add fusion, relinking.
pub open spec fn optimized(p: Seq<Instruction>) -> Seq<Instruction> {
    linked(fuse(RunKind::Adds, fuse(RunKind::Moves, p)))
}

/// Fuses runs of moves, then runs of adds, then recomputes every jump target.
/// Fails with `OffsetOverflow` when a fused sum does not fit, else with
/// `Unbalanced` when the sequence is unbalanced.
pub fn optimize(program: &[Instruction]) -> (r: Result<Vec<Instruction>, ProgramError>)
    ensures
        r == Err::<Vec<Instruction>, ProgramError>(ProgramError::OffsetOverflow) <==> !fits(
            RunKind::Moves,
            program@,
        ) || !fits(RunKind::Adds, fuse(RunKind::Moves, program@)),
        r == Err::<Vec<Instruction>, ProgramError>(ProgramError::Unbalanced) <==> fits(
            RunKind::Moves,
            program@,
        ) && fits(RunKind::Adds, fuse(RunKind::Moves, program@)) && !balanced(program@),
        r is Ok <==> fits(RunKind::Moves, program@) && fits(
            RunKind::Adds,
            fuse(RunKind::Moves, program@),
        ) && balanced(program@),
        r matches Ok(v) ==> v@ == optimized(program@),
{
    proof {
        lemma_fuse_keeps_balanced(RunKind::Moves, program@);
        lemma_fuse_keeps_balanced(RunKind::Adds, fuse(RunKind::Moves, program@));
    }
    let moves = match colapse_moves(program) {
        Some(v) => v,
        None => return Err(ProgramError::OffsetOverflow),
    };
    let adds = match colapse_adds(moves.as_slice()) {
        Some(v) => v,
        None => return Err(ProgramError::OffsetOverflow),
    };
    link_jumps(adds.as_slice())
}

proof fn lemma_run_fuses_to_sum(kind: RunKind, r: Seq<Instruction>, q: Seq<Instruction>, run: int)
    requires
        all_of_kind(kind, r),
    ensures
        fuse_from(kind, r + q, run) == fuse_from(kind, q, run + total(kind, r)),
    decreases r.len(),
{
    if r.len() > 0 {
        let rest = r.skip(1);
        assert(amount_of(kind, r[0]) is Some);
        assert((r + q).skip(1) =~= rest + q);
        assert((r + q)[0] == r[0]);
        assert forall|i: int| 0 <= i < rest.len() implies #[trigger] amount_of(kind, rest[i]) is Some by {
            assert(rest[i] == r[i + 1]);
        }
        lemma_run_fuses_to_sum(kind, rest, q, run + amount_of(kind, r[0])->Some_0);
    } else {
        assert(r + q =~= q);
    }
}

/// A run contributes to fusion nothing but its sum: a run that sums to zero,
/// with nothing pending before it, emits no instruction, alone or followed by
/// anything.
pub proof fn lemma_net_zero_run_elided(kind: RunKind, r: Seq<Instruction>, q: Seq<Instruction>, run: int)
    requires
        all_of_kind(kind, r),
    ensures
        fuse_from(kind, r + q, run) == fuse_from(kind, q, run + total(kind, r)),
        total(kind, r) == 0 ==> fuse_from(kind, r + q, 0) == fuse_from(kind, q, 0),
        total(kind, r) == 0 ==> fuse(kind, r) == Seq::<Instruction>::empty(),
{
    lemma_run_fuses_to_sum(kind, r, q, run);
    lemma_run_fuses_to_sum(kind, r, q, 0);
    lemma_run_fuses_to_sum(kind, r, Seq::<Instruction>::empty(), 0);
    assert(r + Seq::<Instruction>::empty() =~= r);
}

/// Balance read from the front: starting at nesting `d`, no prefix goes below
/// zero and the whole ends at zero.
pub open spec fn balanced_from(p: Seq<Instruction>, d: int) -> bool
    decreases p.len(),
{
    if p.len() == 0 {
        d == 0
    } else {
        d + nesting_delta(p[0]) >= 0 && balanced_from(p.skip(1), d + nesting_delta(p[0]))
    }
}

proof fn lemma_balanced_suffix(p: Seq<Instruction>, k: nat)
    requires
        k <= p.len(),
    ensures
        balanced_from(p.subrange(k as int, p.len() as int), depth(p, k)) <==> (forall|m: nat|
            k < m <= p.len() ==> #[trigger] depth(p, m) >= 0) && depth(p, p.len()) == 0,
    decreases p.len() - k,
{
    let sub = p.subrange(k as int, p.len() as int);
    if k < p.len() {
        lemma_balanced_suffix(p, k + 1);
        assert(sub.skip(1) =~= p.subrange(k + 1 as int, p.len() as int));
        assert(sub[0] == p[k as int]);
        assert(depth(p, k + 1) == depth(p, k) + nesting_delta(p[k as int]));
        if (forall|m: nat| k + 1 < m <= p.len() ==> #[trigger] depth(p, m) >= 0) && depth(p, k + 1)
            >= 0 {
            assert forall|m: nat| k < m <= p.len() implies #[trigger] depth(p, m) >= 0 by {
                if m == k + 1 {
                }
            }
        }
    }
}

proof fn lemma_balanced_is_from_front(p: Seq<Instruction>)
    ensures
        balanced(p) <==> balanced_from(p, 0),
{
    lemma_balanced_suffix(p, 0);
    assert(p.subrange(0, p.len() as int) =~= p);
}

proof fn lemma_fuse_keeps_balance(kind: RunKind, p: Seq<Instruction>, r: int, d: int)
    requires
        d >= 0,
    ensures
        balanced_from(fuse_from(kind, p, r), d) == balanced_from(p, d),
    decreases p.len(),
{
    if p.len() == 0 {
        if r != 0 {
            assert(flush(kind, r).skip(1) =~= Seq::<Instruction>::empty());
            assert(nesting_delta(flush(kind, r)[0]) == 0);
            assert(balanced_from(flush(kind, r).skip(1), d) == (d == 0));
        }
        assert(balanced_from(fuse_from(kind, p, r), d) == balanced_from(p, d));
    } else {
        match amount_of(kind, p[0]) {
            Some(n) => {
                assert(nesting_delta(p[0]) == 0);
                lemma_fuse_keeps_balance(kind, p.skip(1), r + n, d);
                assert(balanced_from(fuse_from(kind, p, r), d) == balanced_from(p, d));
            },
            None => {
                let rest = fuse_from(kind, p.skip(1), 0);
                let tail = seq![p[0]] + rest;
                assert(tail.skip(1) =~= rest);
                assert(tail[0] == p[0]);
                let d2 = d + nesting_delta(p[0]);
                if d2 >= 0 {
                    lemma_fuse_keeps_balance(kind, p.skip(1), 0, d2);
                }
                if r != 0 {
                    let f = flush(kind, r) + tail;
                    assert(f.skip(1) =~= tail);
                    assert(f[0] == flush(kind, r)[0]);
                    assert(nesting_delta(f[0]) == 0);
                    assert(flush(kind, r) + seq![p[0]] + rest =~= f);
                } else {
                    assert(flush(kind, r) + seq![p[0]] + rest =~= tail);
                }
                assert(fuse_from(kind, p, r) == flush(kind, r) + seq![p[0]] + rest);
                assert(balanced_from(tail, d) == balanced_from(p, d));
                assert(balanced_from(fuse_from(kind, p, r), d) == balanced_from(p, d));
            },
        }
    }
}

/// Fusion keeps a sequence's loop structure: the fused sequence is balanced
/// exactly when the sequence is.
pub proof fn lemma_fuse_keeps_balanced(kind: RunKind, p: Seq<Instruction>)
    ensures
        balanced(fuse(kind, p)) == balanced(p),
{
    lemma_balanced_is_from_front(p);
    lemma_balanced_is_from_front(fuse(kind, p));
    lemma_fuse_keeps_balance(kind, p, 0, 0);
}

} // verus!
