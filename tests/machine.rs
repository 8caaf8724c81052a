use bfvm::Instruction::{Add, JumpIfNotZero, JumpIfZero, Move, Print, Read, SetZero};
use bfvm::{Fault, ProgramError, VirtualMachine};

fn chars(s: &str) -> Vec<char> {
    s.chars().collect()
}

const HELLO: &str = "++++++++[>++++[>++>+++>+++>+<<<<-]>+>+>->>+[<]<-]>>.>---.+++++++..+++.>>
            .<-.<.+++.------.--------.>>+.>++.";

#[test]
fn test_complex_program() {
    let program = HELLO;
    let mut vm = VirtualMachine::new();
    let result = vm.run(&program.chars().collect::<Vec<char>>()).unwrap();
    assert_eq!(result.output, "Hello World!\n".chars().collect::<Vec<_>>());
}

#[test]
fn complex_program_with_optimization() {
    let mut vm = VirtualMachine::new();
    vm.optimize = true;
    let result = vm.run(&chars(HELLO)).unwrap();
    assert_eq!(result.output, "Hello World!\n".chars().collect::<Vec<_>>());
}

#[test]
fn optimization_keeps_output_and_tape() {
    let mut plain = VirtualMachine::new();
    let mut fused = VirtualMachine::new();
    fused.optimize = true;
    let a = plain.run(&chars(HELLO)).unwrap();
    let b = fused.run(&chars(HELLO)).unwrap();
    assert_eq!(a.output, b.output);
    assert_eq!(plain.memory, fused.memory);
    assert_eq!(plain.pointer, fused.pointer);
    assert!(b.profile.len() < a.profile.len());
}

#[test]
fn it_prints() {
    let print = vec![Print];
    let mut vm = VirtualMachine::new();
    assert_eq!(vm.execute(&print).unwrap().output, vec![0 as char]);
}

#[test]
fn it_moves() {
    let move_forward = vec![Move(1)];
    let move_backward = vec![Move(-1)];
    let mut vm = VirtualMachine::new();
    assert_eq!(vm.pointer, 0);
    vm.execute(&move_forward).unwrap();
    assert_eq!(vm.pointer, 1);
    vm.execute(&move_backward).unwrap();
    assert_eq!(vm.pointer, 0);
}

#[test]
fn it_faults_on_move_overflow() {
    let program = vec![Move(30_000)];
    let mut vm = VirtualMachine::new();
    assert!(matches!(vm.execute(&program), Err(Fault::PointerOverflow)));
}

#[test]
fn it_faults_on_move_underflow() {
    let program = vec![Move(-1)];
    let mut vm = VirtualMachine::new();
    assert!(matches!(vm.execute(&program), Err(Fault::PointerUnderflow)));
}

#[test]
fn moves_to_the_last_cell_and_back() {
    let mut vm = VirtualMachine::new();
    vm.execute(&[Move(29_999)]).unwrap();
    assert_eq!(vm.pointer, 29_999);
    assert!(matches!(vm.execute(&[Move(1)]), Err(Fault::PointerOverflow)));
    vm.execute(&[Move(-29_999)]).unwrap();
    assert_eq!(vm.pointer, 0);
    assert!(matches!(
        vm.execute(&[Move(isize::MIN)]),
        Err(Fault::PointerUnderflow)
    ));
    assert!(matches!(
        vm.execute(&[Move(isize::MAX)]),
        Err(Fault::PointerOverflow)
    ));
}

#[test]
fn it_adds() {
    let add_positive = vec![Add(1)];
    let add_zero = vec![Add(0)];
    let add_negative = vec![Add(-1)];
    let mut vm = VirtualMachine::new();
    assert_eq!(vm.memory[0], 0);
    vm.execute(&add_positive).unwrap();
    assert_eq!(vm.memory[0], 1);
    vm.execute(&add_zero).unwrap();
    assert_eq!(vm.memory[0], 1);
    vm.execute(&add_negative).unwrap();
    assert_eq!(vm.memory[0], 0);
}

#[test]
fn it_sets_zero() {
    let add_ten = vec![Add(10)];
    let set_zero = vec![SetZero];
    let mut vm = VirtualMachine::new();
    vm.execute(&add_ten).unwrap();
    assert_eq!(vm.memory[0], 10);
    vm.execute(&set_zero).unwrap();
    assert_eq!(vm.memory[0], 0);
}

#[test]
fn adds_wrap_around() {
    let mut vm = VirtualMachine::new();
    vm.execute(&[Add(-1)]).unwrap();
    assert_eq!(vm.memory[0], 255);
    vm.execute(&[Add(1)]).unwrap();
    assert_eq!(vm.memory[0], 0);
    vm.execute(&[Add(255)]).unwrap();
    assert_eq!(vm.memory[0], 255);
    vm.execute(&[Add(1)]).unwrap();
    assert_eq!(vm.memory[0], 0);
    vm.execute(&[Add(300)]).unwrap();
    assert_eq!(vm.memory[0], 44);
    vm.execute(&[Add(-300)]).unwrap();
    assert_eq!(vm.memory[0], 0);
    vm.execute(&[Add(isize::MIN)]).unwrap();
    assert_eq!(vm.memory[0], 0);
    vm.execute(&[Add(isize::MAX)]).unwrap();
    assert_eq!(vm.memory[0], 255);
}

#[test]
fn single_add_leaves_no_output() {
    let mut vm = VirtualMachine::new();
    let out = vm.execute(&[Add(1)]).unwrap();
    assert!(out.output.is_empty());
    assert_eq!(vm.memory[0], 1);
    assert_eq!(out.profile, vec![1]);
}

#[test]
fn read_is_refused() {
    let mut vm = VirtualMachine::new();
    assert!(matches!(
        vm.execute(&[Read]),
        Err(Fault::UnknownInstruction)
    ));
}

#[test]
fn step_budget_stops_endless_loop() {
    let mut vm = VirtualMachine::new();
    let program = [Add(1), JumpIfZero(3), JumpIfNotZero(2)];
    assert!(matches!(
        vm.execute_bounded(&program, 1000),
        Err(Fault::StepLimit)
    ));
    let mut vm = VirtualMachine::new();
    assert!(vm.execute_bounded(&[Add(1), Add(1)], 2).is_ok());
    let mut vm = VirtualMachine::new();
    assert!(matches!(
        vm.execute_bounded(&[Add(1), Add(1)], 1),
        Err(Fault::StepLimit)
    ));
}

#[test]
fn profile_counts_every_dispatch() {
    let mut vm = VirtualMachine::new();
    let code = bfvm::parse(&chars("+++[-]")).unwrap();
    let out = vm.execute(&code).unwrap();
    assert_eq!(out.profile.len(), code.len());
    assert_eq!(out.profile, vec![1, 1, 1, 1, 3, 3]);
    assert_eq!(out.profile.iter().sum::<u64>(), 10);
}

#[test]
fn loop_skipped_when_cell_is_zero() {
    let mut vm = VirtualMachine::new();
    let code = bfvm::parse(&chars("[+]+.")).unwrap();
    let out = vm.execute(&code).unwrap();
    assert_eq!(out.output, vec![1 as char]);
    assert_eq!(out.profile, vec![1, 0, 0, 1, 1]);
}

#[test]
fn jump_past_the_end_terminates() {
    let mut vm = VirtualMachine::new();
    let out = vm.execute(&[JumpIfZero(10), Print]).unwrap();
    assert!(out.output.is_empty());
}

#[test]
fn bytecode_follows_the_optimize_switch() {
    let mut vm = VirtualMachine::new();
    assert_eq!(vm.bytecode(&chars(">>+")).unwrap(), vec![Move(1), Move(1), Add(1)]);
    vm.optimize = true;
    assert_eq!(vm.bytecode(&chars(">>+")).unwrap(), vec![Move(2), Add(1)]);
    assert_eq!(vm.bytecode(&chars("[")), Err(ProgramError::Unbalanced));
}

#[test]
fn run_reports_unbalanced_source() {
    let mut vm = VirtualMachine::new();
    assert!(matches!(
        vm.run(&chars("+]")),
        Err(Fault::Program(ProgramError::Unbalanced))
    ));
    assert_eq!(vm.memory[0], 0);
}
