use turing::interpretor::HaltReason;
use turing::interpretor::StepEvent;
use turing::interpretor::StepOutcome;
use turing::interpretor::TuringInterpret;
use turing::machine::Action;
use turing::machine::Transition;
use turing::machine::TuringMachine;

fn s(x: &str) -> String {
    String::from(x)
}

fn tr(read: char, write: char, action: Action, to_state: &str) -> Transition {
    Transition { read, to_state: s(to_state), write, action }
}

/// The machine of the end-to-end example: scan the ones to the right, then
/// step back onto the last one and accept.
fn unary_machine() -> TuringMachine {
    TuringMachine {
        name: s("unary"),
        alphabet: vec!['0', '1', '.'],
        blank: '.',
        states: vec![s("q0"), s("qf")],
        initial: s("q0"),
        finals: vec![s("qf")],
        transitions: vec![(
            s("q0"),
            vec![tr('1', '1', Action::RIGHT, "q0"), tr('.', '.', Action::LEFT, "qf")],
        )],
    }
}

/// A machine whose single state loops on every symbol and never exits.
fn looping_machine() -> TuringMachine {
    TuringMachine {
        name: s("forever"),
        alphabet: vec!['1', '.'],
        blank: '.',
        states: vec![s("spin")],
        initial: s("spin"),
        finals: vec![],
        transitions: vec![(
            s("spin"),
            vec![tr('1', '1', Action::RIGHT, "spin"), tr('.', '.', Action::RIGHT, "spin")],
        )],
    }
}

/// A machine whose initial state has an empty transition list.
fn stuck_machine() -> TuringMachine {
    TuringMachine {
        name: s("stuck"),
        alphabet: vec!['1', '.'],
        blank: '.',
        states: vec![s("q0")],
        initial: s("q0"),
        finals: vec![],
        transitions: vec![(s("q0"), vec![])],
    }
}

#[test]
fn engine_starts_in_the_initial_state() {
    let e = TuringInterpret::new(unary_machine(), s("11"));
    assert_eq!(e.state, s("q0"));
    assert_eq!(e.tape.contents(), vec!['1', '1']);
    assert_eq!(e.tape.cursor, 0);
    assert!(!e.halted);
    assert!(!e.is_in_final());
}

#[test]
fn engine_on_empty_input_gets_a_blank_band() {
    let e = TuringInterpret::new(unary_machine(), s(""));
    assert_eq!(e.tape.contents(), vec!['.']);
}

#[test]
fn end_to_end_unary_run() {
    let mut e = TuringInterpret::new(unary_machine(), s("11"));
    let out = e.run(100);
    assert_eq!(out.reason, HaltReason::Final);
    assert_eq!(
        out.events,
        vec![
            StepEvent {
                from: s("q0"),
                read: '1',
                to: s("q0"),
                write: '1',
                action: Action::RIGHT,
                band: vec!['1', '1'],
                cursor: 1,
            },
            StepEvent {
                from: s("q0"),
                read: '1',
                to: s("q0"),
                write: '1',
                action: Action::RIGHT,
                band: vec!['1', '1', '.'],
                cursor: 2,
            },
            StepEvent {
                from: s("q0"),
                read: '.',
                to: s("qf"),
                write: '.',
                action: Action::LEFT,
                band: vec!['1', '1', '.'],
                cursor: 1,
            },
        ]
    );
    // The band is unchanged and the trailing blank was read at index 2; the
    // final transition's leftward move leaves the cursor on the last one.
    assert_eq!(e.tape.contents(), vec!['1', '1', '.']);
    assert_eq!(e.tape.cursor, 1);
    assert_eq!(e.state, s("qf"));
    assert!(e.halted);
    assert!(e.is_in_final());
}

#[test]
fn single_step_applies_the_first_matching_transition() {
    let mut e = TuringInterpret::new(unary_machine(), s("11"));
    match e.step() {
        StepOutcome::Step(ev) => {
            assert_eq!(ev.from, s("q0"));
            assert_eq!(ev.read, '1');
            assert_eq!(ev.cursor, 1);
        }
        StepOutcome::Halt(_) => panic!("a transition matches"),
    }
    assert_eq!(e.state, s("q0"));
    assert!(!e.halted);
}

#[test]
fn empty_transition_list_halts_at_once() {
    let mut e = TuringInterpret::new(stuck_machine(), s("11"));
    let out = e.run(10);
    assert_eq!(out.reason, HaltReason::NoTransition);
    assert_eq!(out.events, vec![]);
    assert_eq!(e.tape.contents(), vec!['1', '1']);
    assert_eq!(e.tape.cursor, 0);
    assert_eq!(e.state, s("q0"));
}

#[test]
fn missing_table_entry_halts_at_once() {
    let mut m = stuck_machine();
    m.transitions = vec![];
    let mut e = TuringInterpret::new(m, s("1"));
    match e.step() {
        StepOutcome::Step(_) => panic!("no entry exists for the initial state"),
        StepOutcome::Halt(reason) => assert_eq!(reason, HaltReason::NoTransition),
    }
    assert!(e.halted);
}

#[test]
fn unmatched_symbol_halts_without_a_transition() {
    // '0' is in the alphabet but no transition of q0 reads it.
    let mut e = TuringInterpret::new(unary_machine(), s("01"));
    let out = e.run(10);
    assert_eq!(out.reason, HaltReason::NoTransition);
    assert_eq!(out.events, vec![]);
}

#[test]
fn same_machine_and_input_give_the_same_run() {
    let mut e1 = TuringInterpret::new(unary_machine(), s("111"));
    let mut e2 = TuringInterpret::new(unary_machine(), s("111"));
    let out1 = e1.run(50);
    let out2 = e2.run(50);
    assert_eq!(out1, out2);
    assert_eq!(e1.state, e2.state);
    assert_eq!(e1.tape.contents(), e2.tape.contents());
    assert_eq!(e1.tape.cursor, e2.tape.cursor);
}

#[test]
fn budget_stops_a_looping_machine_after_exactly_that_many_steps() {
    let mut e = TuringInterpret::new(looping_machine(), s("1"));
    let out = e.run(100);
    assert_eq!(out.reason, HaltReason::BudgetExceeded);
    assert_eq!(out.events.len(), 100);
    assert!(e.halted);
    // Every cell behind the head was filled while spinning to the right.
    assert_eq!(e.tape.cursor, 100);
    assert_eq!(e.tape.contents().len(), 101);
}

#[test]
fn a_halted_run_is_not_resumed() {
    let mut e = TuringInterpret::new(unary_machine(), s("1"));
    let first = e.run(100);
    assert_eq!(first.reason, HaltReason::Final);
    let again = e.run(100);
    assert_eq!(again.reason, HaltReason::Final);
    assert_eq!(again.events, vec![]);
}

#[test]
fn final_state_membership_is_checked_against_the_machine() {
    let mut e = TuringInterpret::new(unary_machine(), s("1"));
    assert!(!e.is_in_final());
    e.run(100);
    assert!(e.is_in_final());
}
