use vstd::arithmetic::div_mod::lemma_add_mod_noop_right;
use vstd::prelude::*;

use crate::instruction::Instruction;
use crate::machine::{apply, run, step, valid, wrap_add, Fault, Snapshot, TAPE_LEN};
use crate::optimize::{fits, fits_from, flush, fuse, fuse_from, optimized, RunKind};
use crate::parse::{balanced, depth, link_prefix, linked};

verus! {

/// A sequence without loop opens or closes.
pub open spec fn jump_free(p: Seq<Instruction>) -> bool {
    forall|i: int|
        0 <= i < p.len() ==> !(#[trigger] p[i] is JumpIfZero) && !(p[i] is JumpIfNotZero)
}

/// Two states with the same tape, data pointer and output.
pub open spec fn same_data(a: Snapshot, b: Snapshot) -> bool {
    &&& a.tape == b.tape
    &&& a.dp == b.dp
    &&& a.out == b.out
}

/// Two outcomes that are both faults of one kind, or both states with the same data.
pub open spec fn agree(x: Result<Snapshot, Fault>, y: Result<Snapshot, Fault>) -> bool {
    match (x, y) {
        (Ok(a), Ok(b)) => same_data(a, b),
        (Err(e), Err(f)) => e == f,
        _ => false,
    }
}

/// The instructions of a jump-free sequence applied one after the other.
pub open spec fn apply_all(p: Seq<Instruction>, s: Snapshot) -> Result<Snapshot, Fault>
    decreases p.len(),
{
    if p.len() == 0 {
        Ok(s)
    } else {
        match apply(p[0], s) {
            Ok(n) => apply_all(p.skip(1), n),
            Err(e) => Err(e),
        }
    }
}

/// `b + x` modulo 256.
pub open spec fn wrap_int(b: u8, x: int) -> u8 {
    ((b as int + x) % 256) as u8
}

proof fn lemma_apply_congruent(ins: Instruction, a: Snapshot, b: Snapshot)
    requires
        same_data(a, b),
        !(ins is JumpIfZero),
        !(ins is JumpIfNotZero),
    ensures
        agree(apply(ins, a), apply(ins, b)),
        apply(ins, a) matches Ok(x) ==> x.ip == a.ip + 1,
{
}

proof fn lemma_apply_all_concat(x: Seq<Instruction>, y: Seq<Instruction>, s: Snapshot)
    ensures
        apply_all(x + y, s) == match apply_all(x, s) {
            Ok(m) => apply_all(y, m),
            Err(e) => Err(e),
        },
    decreases x.len(),
{
    if x.len() == 0 {
        assert(x + y =~= y);
    } else {
        assert((x + y).skip(1) =~= x.skip(1) + y);
        assert((x + y)[0] == x[0]);
        if let Ok(n) = apply(x[0], s) {
            lemma_apply_all_concat(x.skip(1), y, n);
        }
    }
}

proof fn lemma_apply_all_congruent(p: Seq<Instruction>, a: Snapshot, b: Snapshot)
    requires
        jump_free(p),
        same_data(a, b),
    ensures
        agree(apply_all(p, a), apply_all(p, b)),
    decreases p.len(),
{
    if p.len() > 0 {
        assert(!(p[0] is JumpIfZero) && !(p[0] is JumpIfNotZero));
        lemma_apply_congruent(p[0], a, b);
        if let (Ok(x), Ok(y)) = (apply(p[0], a), apply(p[0], b)) {
            assert(jump_free(p.skip(1))) by {
                assert forall|i: int| 0 <= i < p.skip(1).len() implies !(
                #[trigger] p.skip(1)[i] is JumpIfZero) && !(p.skip(1)[i] is JumpIfNotZero) by {
                    assert(p.skip(1)[i] == p[i + 1]);
                }
            }
            lemma_apply_all_congruent(p.skip(1), x, y);
        }
    }
}

proof fn lemma_jump_free_skip(p: Seq<Instruction>)
    requires
        jump_free(p),
        p.len() > 0,
    ensures
        jump_free(p.skip(1)),
        !(p[0] is JumpIfZero) && !(p[0] is JumpIfNotZero),
{
    assert forall|i: int| 0 <= i < p.skip(1).len() implies !(#[trigger] p.skip(1)[i] is JumpIfZero)
        && !(p.skip(1)[i] is JumpIfNotZero) by {
        assert(p.skip(1)[i] == p[i + 1]);
    }
}

/// On a jump-free program the engine makes one dispatch per instruction, in
/// order: with enough fuel its run agrees with applying the remaining
/// instructions, and with less it does not finish.
proof fn lemma_run_is_apply_all(p: Seq<Instruction>, s: Snapshot, t: Snapshot, fuel: nat)
    requires
        jump_free(p),
        valid(p, s),
        s.ip <= p.len(),
        same_data(s, t),
    ensures
        fuel >= p.len() - s.ip ==> agree(run(p, s, fuel), apply_all(p.subrange(s.ip, p.len() as int), t)),
        fuel < p.len() - s.ip ==> run(p, s, fuel) is Err,
    decreases fuel,
{
    let sub = p.subrange(s.ip, p.len() as int);
    if s.ip < p.len() && fuel > 0 {
        let bumped = Snapshot { counts: s.counts.update(s.ip, s.counts[s.ip] + 1), ..s };
        assert(!(p[s.ip] is JumpIfZero) && !(p[s.ip] is JumpIfNotZero));
        lemma_apply_congruent(p[s.ip], bumped, t);
        assert(sub[0] == p[s.ip]);
        assert(sub.skip(1) =~= p.subrange(s.ip + 1, p.len() as int));
        if let (Ok(n), Ok(m)) = (step(p, s), apply(p[s.ip], t)) {
            lemma_run_is_apply_all(p, n, m, (fuel - 1) as nat);
        }
    }
}

proof fn lemma_fuse_keeps_jump_free(kind: RunKind, p: Seq<Instruction>, r: int)
    requires
        jump_free(p),
    ensures
        jump_free(fuse_from(kind, p, r)),
        fuse_from(kind, p, r).len() <= p.len() + if r != 0 {
            1int
        } else {
            0int
        },
    decreases p.len(),
{
    if p.len() > 0 {
        lemma_jump_free_skip(p);
        match crate::optimize::amount_of(kind, p[0]) {
            Some(n) => {
                lemma_fuse_keeps_jump_free(kind, p.skip(1), r + n);
            },
            None => {
                lemma_fuse_keeps_jump_free(kind, p.skip(1), 0);
                let f = flush(kind, r) + seq![p[0]] + fuse_from(kind, p.skip(1), 0);
                assert forall|i: int| 0 <= i < f.len() implies !(#[trigger] f[i] is JumpIfZero) && !(
                f[i] is JumpIfNotZero) by {
                    let k = flush(kind, r).len() as int;
                    if i > k {
                        assert(f[i] == fuse_from(kind, p.skip(1), 0)[i - k - 1]);
                    }
                }
            },
        }
    }
}

proof fn lemma_link_jump_free(p: Seq<Instruction>, n: nat)
    requires
        jump_free(p),
        n <= p.len(),
    ensures
        link_prefix(p, n) == Some((p.subrange(0, n as int), Seq::<usize>::empty())),
        depth(p, n) == 0,
    decreases n,
{
    if n > 0 {
        lemma_link_jump_free(p, (n - 1) as nat);
        assert(!(p[n - 1] is JumpIfZero) && !(p[n - 1] is JumpIfNotZero));
        assert(p.subrange(0, n - 1).push(p[n - 1]) =~= p.subrange(0, n as int));
    }
}

/// A jump-free sequence is balanced and its own linked form.
proof fn lemma_jump_free_linked(p: Seq<Instruction>)
    requires
        jump_free(p),
    ensures
        balanced(p),
        linked(p) == p,
{
    assert forall|m: nat| m <= p.len() implies #[trigger] depth(p, m) >= 0 by {
        lemma_link_jump_free(p, m);
    }
    lemma_link_jump_free(p, p.len());
    assert(p.subrange(0, p.len() as int) =~= p);
}

/// Fusing moves is sound: with a run `r` pending, the unfused sequence from
/// a state whose data pointer is already `r` further agrees with the fused one.
proof fn lemma_fuse_moves_sound(p: Seq<Instruction>, s: Snapshot, t: Snapshot, r: int)
    requires
        jump_free(p),
        s.tape.len() == TAPE_LEN,
        0 <= s.dp < TAPE_LEN,
        0 <= s.dp + r < TAPE_LEN,
        isize::MIN <= r <= isize::MAX,
        fits_from(RunKind::Moves, p, r),
        t.tape == s.tape,
        t.out == s.out,
        t.dp == s.dp + r,
    ensures
        apply_all(p, t) is Ok ==> agree(apply_all(p, t), apply_all(fuse_from(RunKind::Moves, p, r), s)),
    decreases p.len(),
{
    let f = flush(RunKind::Moves, r);
    lemma_flush_moves(s, t, r);
    if p.len() == 0 {
        assert(fuse_from(RunKind::Moves, p, r) == f);
        assert(apply_all(p, t) == Ok::<Snapshot, Fault>(t));
    } else {
        lemma_jump_free_skip(p);
        match p[0] {
            Instruction::Move(n) => {
                assert(fuse_from(RunKind::Moves, p, r) == fuse_from(RunKind::Moves, p.skip(1), r + n));
                if let Ok(x) = apply(p[0], t) {
                    assert(apply_all(p, t) == apply_all(p.skip(1), x));
                    lemma_fuse_moves_sound(p.skip(1), s, x, r + n);
                }
            },
            _ => {
                let rest = fuse_from(RunKind::Moves, p.skip(1), 0);
                lemma_apply_all_concat(f + seq![p[0]], rest, s);
                lemma_apply_all_concat(f, seq![p[0]], s);
                if let Ok(m) = apply_all(f, s) {
                    lemma_apply_congruent(p[0], t, m);
                    assert(seq![p[0]].skip(1) =~= Seq::<Instruction>::empty());
                    assert(fuse_from(RunKind::Moves, p, r) == f + seq![p[0]] + rest);
                    if let (Ok(x), Ok(y)) = (apply(p[0], t), apply(p[0], m)) {
                        assert(apply_all(p, t) == apply_all(p.skip(1), x));
                        assert(seq![p[0]][0] == p[0]);
                        assert(apply_all(seq![p[0]].skip(1), y) == Ok::<Snapshot, Fault>(y));
                        assert(apply_all(seq![p[0]], m) == Ok::<Snapshot, Fault>(y));
                        lemma_fuse_moves_sound(p.skip(1), y, x, 0);
                    }
                }
            },
        }
    }
}

proof fn lemma_flush_moves(s: Snapshot, t: Snapshot, r: int)
    requires
        s.tape.len() == TAPE_LEN,
        0 <= s.dp < TAPE_LEN,
        0 <= s.dp + r < TAPE_LEN,
        isize::MIN <= r <= isize::MAX,
        t.tape == s.tape,
        t.out == s.out,
        t.dp == s.dp + r,
    ensures
        apply_all(flush(RunKind::Moves, r), s) matches Ok(m) && same_data(m, t),
{
    let f = flush(RunKind::Moves, r);
    if r != 0 {
        assert(f.skip(1) =~= Seq::<Instruction>::empty());
        assert(f[0] == Instruction::Move(r as isize));
        assert((r as isize) as int == r);
        let m = Snapshot { dp: s.dp + r, ip: s.ip + 1, ..s };
        assert(apply(f[0], s) == Ok::<Snapshot, Fault>(m));
        assert(apply_all(f.skip(1), m) == Ok::<Snapshot, Fault>(m));
        assert(apply_all(f, s) == Ok::<Snapshot, Fault>(m));
    } else {
        assert(apply_all(f, s) == Ok::<Snapshot, Fault>(s));
    }
}

proof fn lemma_wrap_compose(b: u8, x: int, y: int)
    ensures
        wrap_int(wrap_int(b, x), y) == wrap_int(b, x + y),
{
    lemma_add_mod_noop_right(y, b + x, 256);
}

proof fn lemma_flush_adds(s: Snapshot, t: Snapshot, r: int)
    requires
        s.tape.len() == TAPE_LEN,
        0 <= s.dp < TAPE_LEN,
        isize::MIN <= r <= isize::MAX,
        t.tape == s.tape.update(s.dp, wrap_int(s.tape[s.dp], r)),
        t.out == s.out,
        t.dp == s.dp,
    ensures
        apply_all(flush(RunKind::Adds, r), s) matches Ok(m) && same_data(m, t),
{
    let f = flush(RunKind::Adds, r);
    if r != 0 {
        assert(f.skip(1) =~= Seq::<Instruction>::empty());
        assert(f[0] == Instruction::Add(r as isize));
        assert((r as isize) as int == r);
        assert(wrap_add(s.tape[s.dp], r as isize) == wrap_int(s.tape[s.dp], r));
        let m = Snapshot { tape: t.tape, ip: s.ip + 1, ..s };
        assert(apply(f[0], s) == Ok::<Snapshot, Fault>(m));
        assert(apply_all(f.skip(1), m) == Ok::<Snapshot, Fault>(m));
        assert(apply_all(f, s) == Ok::<Snapshot, Fault>(m));
    } else {
        assert(apply_all(f, s) == Ok::<Snapshot, Fault>(s));
        lemma_wrap_compose(s.tape[s.dp], 0, 0);
        assert(s.tape[s.dp] as int % 256 == s.tape[s.dp] as int);
        assert(t.tape =~= s.tape);
    }
}

/// Fusing adds is sound: with a run `r` pending, the unfused sequence from
/// a state whose current cell already holds `r` more agrees with the fused one.
proof fn lemma_fuse_adds_sound(p: Seq<Instruction>, s: Snapshot, t: Snapshot, r: int)
    requires
        jump_free(p),
        s.tape.len() == TAPE_LEN,
        0 <= s.dp < TAPE_LEN,
        isize::MIN <= r <= isize::MAX,
        fits_from(RunKind::Adds, p, r),
        t.tape == s.tape.update(s.dp, wrap_int(s.tape[s.dp], r)),
        t.out == s.out,
        t.dp == s.dp,
    ensures
        apply_all(p, t) is Ok ==> agree(apply_all(p, t), apply_all(fuse_from(RunKind::Adds, p, r), s)),
    decreases p.len(),
{
    let f = flush(RunKind::Adds, r);
    lemma_flush_adds(s, t, r);
    if p.len() == 0 {
        assert(fuse_from(RunKind::Adds, p, r) == f);
        assert(apply_all(p, t) == Ok::<Snapshot, Fault>(t));
    } else {
        lemma_jump_free_skip(p);
        match p[0] {
            Instruction::Add(n) => {
                if let Ok(x) = apply(p[0], t) {
                    lemma_wrap_compose(s.tape[s.dp], r, n as int);
                    assert(x.tape =~= s.tape.update(s.dp, wrap_int(s.tape[s.dp], r + n)));
                    assert(fuse_from(RunKind::Adds, p, r) == fuse_from(RunKind::Adds, p.skip(1), r + n));
                    assert(apply_all(p, t) == apply_all(p.skip(1), x));
                    lemma_fuse_adds_sound(p.skip(1), s, x, r + n);
                }
            },
            _ => {
                let rest = fuse_from(RunKind::Adds, p.skip(1), 0);
                lemma_apply_all_concat(f + seq![p[0]], rest, s);
                lemma_apply_all_concat(f, seq![p[0]], s);
                if let Ok(m) = apply_all(f, s) {
                    lemma_apply_congruent(p[0], t, m);
                    assert(seq![p[0]].skip(1) =~= Seq::<Instruction>::empty());
                    assert(fuse_from(RunKind::Adds, p, r) == f + seq![p[0]] + rest);
                    if let (Ok(x), Ok(y)) = (apply(p[0], t), apply(p[0], m)) {
                        assert(apply_all(p, t) == apply_all(p.skip(1), x));
                        assert(seq![p[0]][0] == p[0]);
                        assert(apply_all(seq![p[0]].skip(1), y) == Ok::<Snapshot, Fault>(y));
                        assert(apply_all(seq![p[0]], m) == Ok::<Snapshot, Fault>(y));
                        lemma_wrap_compose(y.tape[y.dp], 0, 0);
                        assert(y.tape[y.dp] as int % 256 == y.tape[y.dp] as int);
                        assert(x.tape =~= y.tape.update(y.dp, wrap_int(y.tape[y.dp], 0)));
                        lemma_fuse_adds_sound(p.skip(1), y, x, 0);
                    }
                }
            },
        }
    }
}

/// Optimizing a jump-free sequence keeps what running it does: whenever the
/// engine finishes the unfused sequence from a state, it also finishes the optimized
/// sequence from that state within the same budget, with the same tape, data
/// pointer and output.
pub proof fn lemma_fusion_sound_jump_free(p: Seq<Instruction>, s: Snapshot, fuel: nat)
    requires
        jump_free(p),
        valid(p, s),
        s.ip == 0,
        fits(RunKind::Moves, p),
        fits(RunKind::Adds, fuse(RunKind::Moves, p)),
        run(p, s, fuel) is Ok,
    ensures
        balanced(fuse(RunKind::Adds, fuse(RunKind::Moves, p))),
        run(optimized(p), Snapshot { counts: Seq::new(optimized(p).len(), |i: int| 0), ..s }, fuel)
            matches Ok(e) && same_data(e, run(p, s, fuel)->Ok_0),
{
    let q1 = fuse(RunKind::Moves, p);
    let q2 = fuse(RunKind::Adds, q1);
    lemma_fuse_keeps_jump_free(RunKind::Moves, p, 0);
    lemma_fuse_keeps_jump_free(RunKind::Adds, q1, 0);
    lemma_jump_free_linked(q2);
    assert(optimized(p) == q2);
    lemma_run_is_apply_all(p, s, s, fuel);
    assert(p.subrange(0, p.len() as int) =~= p);
    lemma_fuse_moves_sound(p, s, s, 0);
    assert(s.tape[s.dp] as int % 256 == s.tape[s.dp] as int);
    assert(s.tape =~= s.tape.update(s.dp, wrap_int(s.tape[s.dp], 0)));
    lemma_fuse_adds_sound(q1, s, s, 0);
    let s2 = Snapshot { counts: Seq::new(q2.len(), |i: int| 0), ..s };
    lemma_run_is_apply_all(q2, s2, s, fuel);
    assert(q2.subrange(0, q2.len() as int) =~= q2);
}

} // verus!
