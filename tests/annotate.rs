use bfvm::Instruction::{Add, JumpIfNotZero, JumpIfZero, Move, Print, Read, SetZero};
use bfvm::{annotate, parse};

#[test]
fn it_annotates() {
    let program = vec![Add(1)];
    assert_eq!(annotate(&program, None), "1   Add(1)\n");
}

#[test]
fn it_annotates_with_profile() {
    let program = vec![Add(1)];
    assert_eq!(annotate(&program, Some(vec![10])), "1   Add(1) 10\n");
}

#[test]
fn loops_are_indented_and_marked() {
    let program = parse(&"[>]".chars().collect::<Vec<char>>()).unwrap();
    assert_eq!(
        annotate(&program, None),
        "1     \u{2b10}JumpIfZero(3)\n2      Move(1)\n3     \u{2b11}JumpIfNotZero(1)\n"
    );
}

#[test]
fn line_numbers_are_padded_to_the_widest() {
    let program = vec![Add(1); 10];
    let text = annotate(&program, None);
    let lines: Vec<&str> = text.lines().collect();
    assert_eq!(lines.len(), 10);
    assert_eq!(lines[0], " 1   Add(1)");
    assert_eq!(lines[9], "10   Add(1)");
}

#[test]
fn every_variant_has_its_text() {
    let program = vec![Move(-12), Add(0), Print, Read, SetZero];
    assert_eq!(
        annotate(&program, Some(vec![0, 1, 2, 3, 45])),
        "1   Move(-12) 0\n2   Add(0) 1\n3   Print 2\n4   Read 3\n5   SetZero 45\n"
    );
}

#[test]
fn empty_program_has_no_lines() {
    assert_eq!(annotate(&[], None), "");
}
