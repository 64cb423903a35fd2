use bf::BfError;
use bf::BfState;
use bf::GrowableVect;
use bf::run;

// GrowableVect
#[test]
fn can_index_growable_vects() {
    let mut vect = GrowableVect::new();
    vect.write(0, 33);
    assert_eq!(vect.read(0), 33);
}

#[test]
fn growable_vects_have_sensible_index_defaults() {
    let vect = GrowableVect::new();
    assert_eq!(vect.read(0), 0);
    assert_eq!(vect.read(33), 0);
}

// BfState
#[test]
fn test_inc() {
    let mut state = BfState::new();
    state.inc();
    assert_eq!(state.curr(), 1);
    state.inc();
    assert_eq!(state.curr(), 2);
}

#[test]
fn test_dec() {
    let mut state = BfState::new();
    let p = state.pointer;
    state.memory.write(p, 200);
    state.dec();
    assert_eq!(state.curr(), 199);
    state.dec();
    assert_eq!(state.curr(), 198);
}

#[test]
fn test_curr() {
    let mut state = BfState::new();
    assert_eq!(state.curr(), 0);

    state.pointer = 13;
    assert_eq!(state.curr(), 0);
    let p = state.pointer;
    state.memory.write(p, 40);
    assert_eq!(state.curr(), 40);
}

#[test]
fn increment_overflow_test() {
    let mut state = BfState::new();
    state.memory.write(0, 255);
    state.inc();
    assert_eq!(state.curr(), 0);
}

#[test]
fn decrement_underflow_test() {
    let mut state = BfState::new();
    state.memory.write(0, 0);
    state.dec();
    assert_eq!(state.curr(), 255);
}

#[test]
fn set_curr_test() {
    let mut state = BfState::new();
    state.set_curr(10);
    assert_eq!(state.curr(), 10);
}

#[test]
fn right() {
    let mut state = BfState::new();
    assert_eq!(state.pointer, 0);
    state.right();
    assert_eq!(state.pointer, 1);
    state.right();
    assert_eq!(state.pointer, 2);
}

#[test]
fn run_left() {
    let mut state = BfState::new();
    state.pointer = 200;
    assert!(state.left().is_ok());
    assert_eq!(state.pointer, 199);
    assert!(state.left().is_ok());
    assert_eq!(state.pointer, 198);
}

#[test]
fn run_left_handle_segfault() {
    let mut state = BfState::new();
    let result = run("<", &mut state);
    assert!(result.is_err());
    assert_eq!(result.err(), Some(BfError::Segfault));
}

#[test]
fn run_propagates_segfault_err() {
    let result = run("<", &mut BfState::new());
    assert!(result.is_err());
    assert_eq!(result.err(), Some(BfError::Segfault));
}

#[test]
fn run_ok_on_empty_program() {
    assert!(run("", &mut BfState::new()).is_ok());
}

#[test]
fn run_empty_loop() {
    let mut state = BfState::new();
    assert!(run("[]", &mut state).is_ok());
}

#[test]
fn run_nonempty_loop() {
    let mut state = BfState::new();
    assert!(run("++[>+<-]", &mut state).is_ok());
    assert_eq!(state.memory.read(0), 0);
    assert_eq!(state.memory.read(1), 2);
}

#[test]
fn run_loop_with_overflow() {
    let mut state = BfState::new();
    assert!(run("-[->+<]", &mut state).is_ok());
    assert_eq!(state.memory.read(0), 0);
    assert_eq!(state.memory.read(1), 255);

    state = BfState::new();
    assert!(run("[+]", &mut state).is_ok());
    assert!(run("+[+>+<]", &mut state).is_ok());
    assert_eq!(state.memory.read(0), 0);
    assert_eq!(state.memory.read(1), 255);
}

#[test]
fn run_noop_loop() {
    assert!(run("[<]", &mut BfState::new()).is_ok());
}

#[test]
fn run_nested_loops() {
    let mut state = BfState::new();
    assert!(run("-[->+<]", &mut state).is_ok());
    assert_eq!(state.memory.read(0), 0);
    assert_eq!(state.memory.read(1), 255);
}

#[test]
fn run_fails_on_mismatched_parens() {
    let mut state = BfState::new();
    let mut result = run("[]]", &mut state);
    assert!(result.is_err());
    assert_eq!(result.err(), Some(BfError::MismatchedBraces));

    result = run("[[]", &mut state);
    assert!(result.is_err());
    assert_eq!(result.err(), Some(BfError::MismatchedBraces));

    result = run("]", &mut state);
    assert!(result.is_err());
    assert_eq!(result.err(), Some(BfError::MismatchedBraces));
}

#[test]
fn run_nontrivial_empty_loops() {
    assert!(run("[[[]]]", &mut BfState::new()).is_ok());
    assert!(run("[][][]", &mut BfState::new()).is_ok());
}
