use bf::BfError;
use bf::BfState;
use bf::GrowableVect;
use bf::build_pc_pairs;
use bf::match_left_pc;
use bf::match_right_pc;
use bf::run;
use bf::run_io;

// Tape: a write followed by a read of the same index returns the written
// byte; a never-written index reads as 0.
#[test]
fn tape_round_trip() {
    let mut tape = GrowableVect::new();
    tape.write(5, 7);
    assert_eq!(tape.read(5), 7);
    assert_eq!(tape.read(6), 0);
    assert_eq!(tape.read(4), 0);
}

// Tape: growing to a larger index never disturbs lower cells.
#[test]
fn tape_growth_keeps_lower_cells() {
    let mut tape = GrowableVect::new();
    tape.write(1, 9);
    tape.write(100, 3);
    assert_eq!(tape.read(1), 9);
    assert_eq!(tape.read(100), 3);
    assert_eq!(tape.read(50), 0);
}

#[test]
fn bracket_pairs_simple_loop() {
    let mut pairs: Vec<(usize, usize)> = Vec::new();
    assert!(build_pc_pairs("[]", &mut pairs).is_ok());
    assert_eq!(pairs, vec![(0, 1)]);
}

#[test]
fn bracket_pairs_nested_and_sequential() {
    let mut pairs: Vec<(usize, usize)> = Vec::new();
    assert!(build_pc_pairs("[[[]]]", &mut pairs).is_ok());
    assert_eq!(pairs, vec![(2, 3), (1, 4), (0, 5)]);

    let mut pairs2: Vec<(usize, usize)> = Vec::new();
    assert!(build_pc_pairs("[][][]", &mut pairs2).is_ok());
    assert_eq!(pairs2, vec![(0, 1), (2, 3), (4, 5)]);
}

#[test]
fn bracket_pairs_mismatches() {
    for bad in ["[]]", "[[]", "]"] {
        let mut pairs: Vec<(usize, usize)> = Vec::new();
        let result = build_pc_pairs(bad, &mut pairs);
        assert_eq!(result.err(), Some(BfError::MismatchedBraces));
    }
}

#[test]
fn pair_lookup_both_directions() {
    let mut pairs: Vec<(usize, usize)> = Vec::new();
    assert!(build_pc_pairs("[[]]", &mut pairs).is_ok());
    assert_eq!(match_left_pc(&pairs, 0), Some(3));
    assert_eq!(match_left_pc(&pairs, 1), Some(2));
    assert_eq!(match_right_pc(&pairs, 3), Some(0));
    assert_eq!(match_right_pc(&pairs, 2), Some(1));
    assert_eq!(match_left_pc(&pairs, 2), None);
    assert_eq!(match_right_pc(&pairs, 0), None);
}

#[test]
fn run_io_reads_input() {
    let mut state = BfState::new();
    let input: Vec<u8> = vec![65];
    let mut output: Vec<u8> = Vec::new();
    let result = run_io(",+.", &mut state, &input, &mut output, u64::MAX);
    assert!(result.is_ok());
    assert_eq!(output, vec![66]);
    assert_eq!(state.curr(), 66);
}

#[test]
fn run_io_fails_on_exhausted_input() {
    let mut state = BfState::new();
    let input: Vec<u8> = Vec::new();
    let mut output: Vec<u8> = Vec::new();
    let result = run_io(",", &mut state, &input, &mut output, u64::MAX);
    assert_eq!(result.err(), Some(BfError::EndOfInput));
    assert_eq!(state.curr(), 0);
}

#[test]
fn run_io_writes_output() {
    let mut state = BfState::new();
    let input: Vec<u8> = Vec::new();
    let mut output: Vec<u8> = Vec::new();
    let result = run_io("++..", &mut state, &input, &mut output, u64::MAX);
    assert!(result.is_ok());
    assert_eq!(output, vec![2, 2]);
}

#[test]
fn run_io_keeps_output_up_to_failure() {
    let mut state = BfState::new();
    let input: Vec<u8> = Vec::new();
    let mut output: Vec<u8> = Vec::new();
    let result = run_io(".<", &mut state, &input, &mut output, u64::MAX);
    assert_eq!(result.err(), Some(BfError::Segfault));
    assert_eq!(output, vec![0]);
    assert_eq!(state.pointer, 0);
}

#[test]
fn run_io_reports_spent_step_budget() {
    let mut state = BfState::new();
    let input: Vec<u8> = Vec::new();
    let mut output: Vec<u8> = Vec::new();
    // cell zero is made nonzero, so this loop never exits on its own
    let result = run_io("+[]", &mut state, &input, &mut output, 1000);
    assert_eq!(result.err(), Some(BfError::StepLimit));

    let mut state2 = BfState::new();
    let mut output2: Vec<u8> = Vec::new();
    let result2 = run_io("+", &mut state2, &input, &mut output2, 0);
    assert_eq!(result2.err(), Some(BfError::StepLimit));

    let mut state3 = BfState::new();
    let mut output3: Vec<u8> = Vec::new();
    assert!(run_io("", &mut state3, &input, &mut output3, 0).is_ok());
}

#[test]
fn unknown_characters_are_ignored() {
    let mut state = BfState::new();
    assert!(run("a +b? +x\n", &mut state).is_ok());
    assert_eq!(state.curr(), 2);
}

#[test]
fn skipped_loops_leave_tape_untouched() {
    let mut state = BfState::new();
    assert!(run("[[[]]]", &mut state).is_ok());
    assert_eq!(state.memory.read(0), 0);
    assert_eq!(state.pointer, 0);

    let mut state2 = BfState::new();
    assert!(run("[]", &mut state2).is_ok());
    assert_eq!(state2.memory.read(0), 0);
    assert_eq!(state2.pointer, 0);
}

#[test]
fn segfault_leaves_pointer_unchanged() {
    let mut state = BfState::new();
    let result = state.left();
    assert_eq!(result.err(), Some(BfError::Segfault));
    assert_eq!(state.pointer, 0);

    state.pointer = 1;
    assert!(state.left().is_ok());
    assert_eq!(state.pointer, 0);
}

#[test]
fn counter_transfer_loop() {
    let mut state = BfState::new();
    assert!(run("++[>+<-]", &mut state).is_ok());
    assert_eq!(state.memory.read(0), 0);
    assert_eq!(state.memory.read(1), 2);
    assert_eq!(state.pointer, 0);
}
