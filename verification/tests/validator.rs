use turing::machine::check_arg_count;
use turing::machine::parse_machine;
use turing::machine::Action;
use turing::machine::ConfigErr;
use turing::machine::InputError;
use turing::machine::Transition;
use turing::machine::TuringMachine;
use turing::machine::ValidationError;

fn s(x: &str) -> String {
    String::from(x)
}

fn tr(read: char, write: char, action: Action, to_state: &str) -> Transition {
    Transition { read, to_state: s(to_state), write, action }
}

fn unary_machine() -> TuringMachine {
    TuringMachine {
        name: s("unary"),
        alphabet: vec!['0', '1', '.'],
        blank: '.',
        states: vec![s("q0"), s("qf")],
        initial: s("q0"),
        finals: vec![s("qf")],
        transitions: vec![(
            s("q0"),
            vec![tr('1', '1', Action::RIGHT, "q0"), tr('.', '.', Action::LEFT, "qf")],
        )],
    }
}

#[test]
fn valid_machine_passes() {
    assert_eq!(unary_machine().validate(), Ok(()));
    assert_eq!(unary_machine().is_valid(), Ok(()));
}

#[test]
fn unknown_initial_state_is_reported() {
    let mut m = unary_machine();
    m.initial = s("zz");
    assert_eq!(
        m.validate(),
        Err(ValidationError::UnknownInitialState(s("zz")))
    );
}

#[test]
fn unknown_initial_state_takes_precedence() {
    let mut m = unary_machine();
    m.initial = s("zz");
    m.finals = vec![s("nowhere")];
    assert_eq!(
        m.validate(),
        Err(ValidationError::UnknownInitialState(s("zz")))
    );
}

#[test]
fn unknown_final_states_are_listed() {
    let mut m = unary_machine();
    m.finals = vec![s("qf"), s("ghost_a"), s("ghost_b")];
    assert_eq!(
        m.validate(),
        Err(ValidationError::UnknownFinalStates(vec![
            s("ghost_a"),
            s("ghost_b")
        ]))
    );
}

#[test]
fn transition_reading_outside_alphabet_is_rejected() {
    let mut m = unary_machine();
    m.transitions[0].1[1].read = '9';
    assert_eq!(m.validate(), Err(ValidationError::InvalidTransition(s("q0"))));
}

#[test]
fn transition_to_unknown_state_is_rejected() {
    let mut m = unary_machine();
    m.transitions[0].1[0].to_state = s("missing");
    assert_eq!(m.validate(), Err(ValidationError::InvalidTransition(s("q0"))));
}

#[test]
fn transition_from_unknown_state_is_rejected() {
    let mut m = unary_machine();
    m.transitions.push((s("orphan"), vec![]));
    assert_eq!(
        m.validate(),
        Err(ValidationError::InvalidTransition(s("orphan")))
    );
}

#[test]
fn blank_outside_alphabet_is_rejected() {
    let mut m = unary_machine();
    m.blank = 'x';
    // The transition reading '.' still reads a symbol of the alphabet, so the
    // blank check is the first to fail.
    assert_eq!(m.validate(), Err(ValidationError::BlankNotInAlphabet('x')));
}

#[test]
fn validate_transition_checks_read_and_target() {
    let m = unary_machine();
    assert!(m.validate_transition(&tr('1', '1', Action::RIGHT, "qf")));
    assert!(!m.validate_transition(&tr('9', '1', Action::RIGHT, "qf")));
    assert!(!m.validate_transition(&tr('1', '1', Action::RIGHT, "nowhere")));
}

#[test]
fn is_valid_wraps_the_validation_error() {
    let mut m = unary_machine();
    m.initial = s("zz");
    assert_eq!(
        m.is_valid(),
        Err(ConfigErr::InvalidConfig(ValidationError::UnknownInitialState(
            s("zz")
        )))
    );
}

#[test]
fn parse_machine_hands_back_a_valid_definition() {
    let m = parse_machine(unary_machine()).expect("the definition is valid");
    assert_eq!(m.name, s("unary"));
    assert_eq!(m.initial, s("q0"));
}

#[test]
fn parse_machine_rejects_an_invalid_definition() {
    let mut m = unary_machine();
    m.finals = vec![s("nowhere")];
    assert_eq!(
        parse_machine(m),
        Err(ConfigErr::InvalidConfig(ValidationError::UnknownFinalStates(
            vec![s("nowhere")]
        )))
    );
}

#[test]
fn input_within_alphabet_is_accepted() {
    let m = unary_machine();
    assert_eq!(m.check_input(&vec!['1', '1', '0']), Ok(()));
    assert_eq!(m.check_input(&vec![]), Ok(()));
}

#[test]
fn input_outside_alphabet_names_the_first_offender() {
    let m = unary_machine();
    assert_eq!(
        m.check_input(&vec!['1', '2', '3']),
        Err(InputError::SymbolNotInAlphabet('2'))
    );
}

#[test]
fn missing_argument_is_reported() {
    assert_eq!(check_arg_count(1), Err(ConfigErr::MissingArgument));
    assert_eq!(check_arg_count(0), Err(ConfigErr::MissingArgument));
}

#[test]
fn too_many_arguments_are_reported() {
    assert_eq!(check_arg_count(3), Err(ConfigErr::TooManyArguments));
}

#[test]
fn exact_argument_count_is_accepted() {
    assert_eq!(check_arg_count(2), Ok(()));
}
