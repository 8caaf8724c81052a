use bfvm::Instruction::{Add, JumpIfNotZero, JumpIfZero, Move, Print};
use bfvm::{colapse_adds, colapse_moves, optimize, Instruction, ProgramError};

#[test]
fn it_colapses_moves() {
    let program = vec![Add(1), Move(2), Move(-1), Move(3), Add(1)];
    assert_eq!(colapse_moves(&program).unwrap(), vec![Add(1), Move(4), Add(1)]);
}

#[test]
fn it_colapses_adds() {
    let program = vec![Move(1), Add(2), Add(-1), Add(3), Move(1)];
    assert_eq!(colapse_adds(&program).unwrap(), vec![Move(1), Add(4), Move(1)]);
}

#[test]
fn optimize_it_links_jumps() {
    let program = vec![JumpIfZero(4), Add(1), Add(1), JumpIfNotZero(1)];
    assert_eq!(
        optimize(&program).unwrap(),
        vec![JumpIfZero(3), Add(2), JumpIfNotZero(1)]
    );
}

#[test]
fn net_zero_moves_are_dropped() {
    let program = vec![Print, Move(1), Move(-1), Print];
    assert_eq!(colapse_moves(&program).unwrap(), vec![Print, Print]);
    assert_eq!(colapse_moves(&[Move(3), Move(-3)]).unwrap(), Vec::<Instruction>::new());
}

#[test]
fn net_zero_adds_are_dropped() {
    let program = vec![Add(1), Add(1), Add(-2), Print];
    assert_eq!(colapse_adds(&program).unwrap(), vec![Print]);
}

#[test]
fn trailing_run_is_flushed() {
    assert_eq!(colapse_moves(&[Print, Move(1), Move(1)]).unwrap(), vec![Print, Move(2)]);
    assert_eq!(colapse_adds(&[Print, Add(-1), Add(-1)]).unwrap(), vec![Print, Add(-2)]);
}

#[test]
fn runs_split_by_other_instructions_stay_apart() {
    let program = vec![Move(1), Add(1), Move(1)];
    assert_eq!(colapse_moves(&program).unwrap(), program);
}

#[test]
fn overflowing_run_is_rejected() {
    assert_eq!(colapse_moves(&[Move(isize::MAX), Move(1)]), None);
    assert_eq!(colapse_adds(&[Add(isize::MIN), Add(-1)]), None);
    assert_eq!(
        optimize(&[Add(isize::MAX), Add(1)]),
        Err(ProgramError::OffsetOverflow)
    );
}

#[test]
fn optimize_relinks_after_fusion() {
    let program = vec![
        Move(1),
        Move(1),
        JumpIfZero(6),
        Add(-1),
        Add(-1),
        JumpIfNotZero(3),
    ];
    assert_eq!(
        optimize(&program).unwrap(),
        vec![Move(2), JumpIfZero(4), Add(-2), JumpIfNotZero(2)]
    );
}

#[test]
fn optimize_rejects_unbalanced() {
    assert_eq!(optimize(&[JumpIfZero(0)]), Err(ProgramError::Unbalanced));
}
