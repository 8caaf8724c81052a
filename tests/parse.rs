use bfvm::Instruction::{Add, JumpIfNotZero, JumpIfZero, Move, Print, Read, SetZero};
use bfvm::{link_jumps, parse, tokenize, Instruction, ProgramError};

fn chars(s: &str) -> Vec<char> {
    s.chars().collect()
}

#[test]
fn parse_it_links_jumps() {
    let program = vec![JumpIfZero(0), Add(1), JumpIfNotZero(0)];
    assert_eq!(
        link_jumps(&program).unwrap(),
        vec![JumpIfZero(3), Add(1), JumpIfNotZero(1)]
    );
}

#[test]
fn it_rejects_unbalanced_jiz() {
    let program = vec![JumpIfZero(0)];
    assert_eq!(link_jumps(&program), Err(ProgramError::Unbalanced));
}

#[test]
fn it_rejects_unbalanced_jinz() {
    let program = vec![JumpIfNotZero(0)];
    assert_eq!(link_jumps(&program), Err(ProgramError::Unbalanced));
}

#[test]
fn it_parses_forward_move() {
    let program = vec!['>'];
    let instructions = vec![Move(1)];
    assert_eq!(parse(&program).unwrap(), instructions);
}

#[test]
fn it_parses_backward_move() {
    let program = vec!['<'];
    let instructions = vec![Move(-1)];
    assert_eq!(parse(&program).unwrap(), instructions);
}

#[test]
fn it_parses_positive_add() {
    let program = vec!['+'];
    let instructions = vec![Add(1)];
    assert_eq!(parse(&program).unwrap(), instructions);
}

#[test]
fn it_parses_negative_add() {
    let program = vec!['-'];
    let instructions = vec![Add(-1)];
    assert_eq!(parse(&program).unwrap(), instructions);
}

#[test]
fn it_parses_print() {
    let program = vec!['.'];
    let instructions = vec![Print];
    assert_eq!(parse(&program).unwrap(), instructions);
}

#[test]
fn it_parses_read() {
    let program = vec![','];
    let instructions = vec![Read];
    assert_eq!(parse(&program).unwrap(), instructions);
}

#[test]
fn it_parses_jump() {
    let program = vec!['[', ']'];
    let instructions = vec![JumpIfZero(2), JumpIfNotZero(1)];
    assert_eq!(parse(&program).unwrap(), instructions);
}

#[test]
fn it_ignores_unknown_token() {
    let program = vec!['!'];
    assert_eq!(parse(&program).unwrap(), Vec::<Instruction>::new());
}

#[test]
fn it_parses_multiple_instructions() {
    let program = vec!['>', '<', '+', '-', '.', ',', '[', ']'];
    let instructions = vec![
        Move(1),
        Move(-1),
        Add(1),
        Add(-1),
        Print,
        Read,
        JumpIfZero(8),
        JumpIfNotZero(7),
    ];
    assert_eq!(parse(&program).unwrap(), instructions);
}

#[test]
fn tokenize_leaves_placeholders() {
    assert_eq!(
        tokenize(&chars("a[+]b")),
        vec![JumpIfZero(0), Add(1), JumpIfNotZero(0)]
    );
}

#[test]
fn nested_loops_link_to_their_partners() {
    assert_eq!(
        parse(&chars("[[-]>]")).unwrap(),
        vec![
            JumpIfZero(6),
            JumpIfZero(4),
            Add(-1),
            JumpIfNotZero(2),
            Move(1),
            JumpIfNotZero(1),
        ]
    );
}

#[test]
fn relinking_a_linked_sequence_keeps_its_targets() {
    let linked = parse(&chars("+[>[-]<-]")).unwrap();
    assert_eq!(link_jumps(&linked).unwrap(), linked);
}

#[test]
fn relinking_ignores_stale_targets() {
    let stale = vec![JumpIfZero(7), Add(1), JumpIfNotZero(9)];
    assert_eq!(
        link_jumps(&stale).unwrap(),
        vec![JumpIfZero(3), Add(1), JumpIfNotZero(1)]
    );
}

#[test]
fn unmatched_brackets_fail_at_link_time() {
    assert_eq!(parse(&chars("[")), Err(ProgramError::Unbalanced));
    assert_eq!(parse(&chars("]")), Err(ProgramError::Unbalanced));
    assert_eq!(parse(&chars("[]]")), Err(ProgramError::Unbalanced));
    assert_eq!(parse(&chars("][")), Err(ProgramError::Unbalanced));
    assert_eq!(parse(&chars("[[]")), Err(ProgramError::Unbalanced));
}

#[test]
fn empty_source_is_empty_program() {
    assert_eq!(parse(&chars("")).unwrap(), Vec::<Instruction>::new());
}
