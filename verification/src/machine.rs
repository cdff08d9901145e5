//! Machine definitions and their validation.
//!
//! A machine is described by a name, an alphabet, a blank symbol, a set of
//! state names, an initial state, a set of final states, and a transition
//! table. The table is an ordered association list from a source state to an
//! ordered list of transitions: order is meaningful, the first entry wins, so
//! a table with two transitions on the same read symbol is deterministic by
//! policy (list order is the tie break), not by construction.
//!
//! Validation checks the definition's internal consistency before any
//! execution begins, in a fixed order, stopping at the first failure:
//! the initial state is known, every final state is known, every transition
//! starts from a known state, reads a symbol of the alphabet and targets a
//! known state, and the blank symbol belongs to the alphabet.

use vstd::prelude::*;

verus! {

/// A head movement: one cell to the right or to the left.
#[derive(Clone, Copy, Debug, PartialEq, Eq, Structural)]
pub enum Action {
    RIGHT,
    LEFT,
}

/// One rule of the transition table: on `read`, write `write`, move the head
/// by `action`, and continue in `to_state`.
#[derive(Clone, Debug, PartialEq, Eq)]
pub struct Transition {
    pub read: char,
    pub to_state: String,
    pub write: char,
    pub action: Action,
}

/// The mathematical value of a `Transition`: state names as char sequences.
#[verifier::ext_equal]
pub ghost struct TransitionModel {
    pub read: char,
    pub to_state: Seq<char>,
    pub write: char,
    pub action: Action,
}

impl View for Transition {
    type V = TransitionModel;

    open spec fn view(&self) -> TransitionModel {
        TransitionModel {
            read: self.read,
            to_state: self.to_state@,
            write: self.write,
            action: self.action,
        }
    }
}

/// The names of a sequence of states, as char sequences.
pub open spec fn str_views(v: Seq<String>) -> Seq<Seq<char>> {
    v.map_values(|s: String| s@)
}

/// The mathematical values of a list of transitions.
pub open spec fn trans_views(v: Seq<Transition>) -> Seq<TransitionModel> {
    v.map_values(|t: Transition| t@)
}

/// The mathematical value of one entry of the transition table.
pub open spec fn entry_view(e: (String, Vec<Transition>)) -> (Seq<char>, Seq<TransitionModel>) {
    (e.0@, trans_views(e.1@))
}

/// A machine definition. Immutable once validated; the engine shares it
/// read-only for a whole run.
#[derive(Clone, Debug, PartialEq, Eq)]
pub struct TuringMachine {
    pub name: String,
    pub alphabet: Vec<char>,
    pub blank: char,
    pub states: Vec<String>,
    pub initial: String,
    pub finals: Vec<String>,
    pub transitions: Vec<(String, Vec<Transition>)>,
}

/// The mathematical value of a `TuringMachine`.
#[verifier::ext_equal]
pub ghost struct MachineModel {
    pub name: Seq<char>,
    pub alphabet: Seq<char>,
    pub blank: char,
    pub states: Seq<Seq<char>>,
    pub initial: Seq<char>,
    pub finals: Seq<Seq<char>>,
    pub transitions: Seq<(Seq<char>, Seq<TransitionModel>)>,
}

impl View for TuringMachine {
    type V = MachineModel;

    open spec fn view(&self) -> MachineModel {
        MachineModel {
            name: self.name@,
            alphabet: self.alphabet@,
            blank: self.blank,
            states: str_views(self.states@),
            initial: self.initial@,
            finals: str_views(self.finals@),
            transitions: self.transitions@.map_values(|e: (String, Vec<Transition>)| entry_view(e)),
        }
    }
}

impl MachineModel {
    /// A transition reads a symbol of the alphabet and targets a known state.
    pub open spec fn transition_ok(self, t: TransitionModel) -> bool {
        self.alphabet.contains(t.read) && self.states.contains(t.to_state)
    }

    /// A table entry starts from a known state and all its transitions are ok.
    pub open spec fn entry_ok(self, e: (Seq<char>, Seq<TransitionModel>)) -> bool {
        self.states.contains(e.0) && forall|j: int|
            0 <= j < e.1.len() ==> self.transition_ok(#[trigger] e.1[j])
    }

    /// Every final state is a known state.
    pub open spec fn finals_ok(self) -> bool {
        forall|i: int| 0 <= i < self.finals.len() ==> self.states.contains(#[trigger] self.finals[i])
    }

    /// Every entry of the transition table is ok.
    pub open spec fn transitions_ok(self) -> bool {
        forall|i: int|
            0 <= i < self.transitions.len() ==> self.entry_ok(#[trigger] self.transitions[i])
    }

    /// The definition is internally consistent: these invariants hold before
    /// any execution.
    pub open spec fn valid(self) -> bool {
        &&& self.states.contains(self.initial)
        &&& self.finals_ok()
        &&& self.transitions_ok()
        &&& self.alphabet.contains(self.blank)
    }

    /// The final states among the first `n` that are not known states, in
    /// declaration order.
    pub open spec fn bad_finals_upto(self, n: int) -> Seq<Seq<char>> {
        self.finals.take(n).filter(|f: Seq<char>| !self.states.contains(f))
    }

    /// All final states that are not known states, in declaration order.
    pub open spec fn bad_finals(self) -> Seq<Seq<char>> {
        self.bad_finals_upto(self.finals.len() as int)
    }

    /// One step of collecting the unknown final states, in declaration order.
    proof fn lemma_bad_finals_step(self, n: int)
        requires
            0 <= n < self.finals.len(),
        ensures
            self.bad_finals_upto(n + 1) == (if !self.states.contains(self.finals[n]) {
                self.bad_finals_upto(n).push(self.finals[n])
            } else {
                self.bad_finals_upto(n)
            }),
    {
        reveal(Seq::filter);
        assert(self.finals.take(n + 1).drop_last() =~= self.finals.take(n));
        assert(self.finals.take(n + 1).last() == self.finals[n]);
    }

    /// `s` names the source state of the first offending entry of the
    /// transition table.
    pub open spec fn names_first_bad_entry(self, s: Seq<char>) -> bool {
        exists|i: int|
            0 <= i < self.transitions.len() && !self.entry_ok(#[trigger] self.transitions[i])
                && s == self.transitions[i].0 && (forall|j: int|
                0 <= j < i ==> self.entry_ok(#[trigger] self.transitions[j]))
    }

    /// `e` is exactly the error that validation reports for this definition:
    /// checks run in a fixed order and stop at the first failure.
    pub open spec fn expected_error(self, e: ValidationError) -> bool {
        match e {
            ValidationError::UnknownInitialState(s) => {
                &&& !self.states.contains(self.initial)
                &&& s@ == self.initial
            },
            ValidationError::UnknownFinalStates(v) => {
                &&& self.states.contains(self.initial)
                &&& !self.finals_ok()
                &&& str_views(v@) == self.bad_finals()
            },
            ValidationError::InvalidTransition(s) => {
                &&& self.states.contains(self.initial)
                &&& self.finals_ok()
                &&& !self.transitions_ok()
                &&& self.names_first_bad_entry(s@)
            },
            ValidationError::BlankNotInAlphabet(c) => {
                &&& self.states.contains(self.initial)
                &&& self.finals_ok()
                &&& self.transitions_ok()
                &&& !self.alphabet.contains(self.blank)
                &&& c == self.blank
            },
        }
    }
}

/// A validation failure, with enough context to fix the definition.
#[derive(Clone, Debug, PartialEq, Eq)]
pub enum ValidationError {
    /// The initial state is not among the declared states.
    UnknownInitialState(String),
    /// These final states are not among the declared states.
    UnknownFinalStates(Vec<String>),
    /// This source state has an entry whose source is unknown, or a transition
    /// reading a symbol outside the alphabet or targeting an unknown state.
    InvalidTransition(String),
    /// The blank symbol is not in the alphabet.
    BlankNotInAlphabet(char),
}

/// A configuration failure: surfaced before any engine exists, fatal to the
/// run, never retried.
#[derive(Clone, Debug, PartialEq, Eq)]
pub enum ConfigErr {
    MissingArgument,
    TooManyArguments,
    InvalidConfig(ValidationError),
}

/// The input string holds a symbol outside the machine's alphabet.
#[derive(Clone, Copy, Debug, PartialEq, Eq)]
pub enum InputError {
    SymbolNotInAlphabet(char),
}

/// Whether one of the strings in `v` has the characters of `s`.
#[verifier::loop_isolation(false)]
pub(crate) fn contains_string(v: &Vec<String>, s: &String) -> (b: bool)
    ensures
        b == str_views(v@).contains(s@),
{
    let mut i: usize = 0;
    while i < v.len()
        invariant
            i <= v@.len(),
            forall|j: int| 0 <= j < i ==> str_views(v@)[j] != s@,
        decreases v@.len() - i,
    {
        let vi: &String = &v[i];
        if vi.eq(s) {
            proof {
                assert(str_views(v@)[i as int] == s@);
            }
            return true;
        }
        i = i + 1;
    }
    false
}

/// Whether `c` occurs in `v`.
#[verifier::loop_isolation(false)]
pub(crate) fn contains_char(v: &Vec<char>, c: char) -> (b: bool)
    ensures
        b == v@.contains(c),
{
    let mut i: usize = 0;
    while i < v.len()
        invariant
            i <= v@.len(),
            forall|j: int| 0 <= j < i ==> v@[j] != c,
        decreases v@.len() - i,
    {
        if v[i] == c {
            return true;
        }
        i = i + 1;
    }
    false
}

impl TuringMachine {
    /// Whether a transition reads a symbol of the alphabet and targets a
    /// declared state.
    pub fn validate_transition(&self, transition: &Transition) -> (b: bool)
        ensures
            b == self@.transition_ok(transition@),
    {
        contains_char(&self.alphabet, transition.read) && contains_string(
            &self.states,
            &transition.to_state,
        )
    }

    /// Whether the table entry at `i` starts from a declared state and all its
    /// transitions are ok.
    #[verifier::loop_isolation(false)]
    fn entry_valid(&self, i: usize) -> (b: bool)
        requires
            i < self.transitions@.len(),
        ensures
            b == self@.entry_ok(self@.transitions[i as int]),
    {
        let entry = &self.transitions[i];
        proof {
            assert(self@.transitions[i as int] == entry_view(self.transitions@[i as int]));
        }
        if !contains_string(&self.states, &entry.0) {
            return false;
        }
        let mut j: usize = 0;
        while j < entry.1.len()
            invariant
                j <= entry.1@.len(),
                forall|k: int|
                    0 <= k < j ==> self@.transition_ok(#[trigger] self@.transitions[i as int].1[k]),
            decreases entry.1@.len() - j,
        {
            proof {
                assert(self@.transitions[i as int].1[j as int] == entry.1@[j as int]@);
            }
            if !self.validate_transition(&entry.1[j]) {
                return false;
            }
            j = j + 1;
        }
        true
    }

    /// Check the definition's internal consistency.
    ///
    /// The checks run in a fixed order and stop at the first failure: the
    /// initial state is declared, every final state is declared, every table
    /// entry is consistent, and the blank symbol belongs to the alphabet.
    /// Returns exactly the error that `MachineModel::expected_error` pins for
    /// this definition, and succeeds exactly on valid definitions.
    #[verifier::loop_isolation(false)]
    pub fn validate(&self) -> (r: Result<(), ValidationError>)
        ensures
            match r {
                Result::Ok(_) => self@.valid(),
                Result::Err(e) => self@.expected_error(e),
            },
    {
        if !contains_string(&self.states, &self.initial) {
            return Result::Err(ValidationError::UnknownInitialState(self.initial.clone()));
        }
        let mut bad: Vec<String> = Vec::new();
        let mut i: usize = 0;
        while i < self.finals.len()
            invariant
                i <= self.finals@.len(),
                str_views(bad@) == self@.bad_finals_upto(i as int),
                (bad@.len() == 0) <==> (forall|j: int|
                    0 <= j < i ==> self@.states.contains(#[trigger] self@.finals[j])),
            decreases self.finals@.len() - i,
        {
            let fi: &String = &self.finals[i];
            let known = contains_string(&self.states, fi);
            proof {
                assert(self@.finals[i as int] == fi@);
                self@.lemma_bad_finals_step(i as int);
            }
            let ghost bad_before = bad@;
            if !known {
                bad.push(fi.clone());
                proof {
                    assert(str_views(bad@) =~= str_views(bad_before).push(fi@));
                }
            }
            i = i + 1;
        }
        if bad.len() > 0 {
            proof {
                assert(self@.finals.take(self@.finals.len() as int) =~= self@.finals);
                assert(!self@.finals_ok());
            }
            return Result::Err(ValidationError::UnknownFinalStates(bad));
        }
        let mut k: usize = 0;
        while k < self.transitions.len()
            invariant
                k <= self.transitions@.len(),
                forall|j: int| 0 <= j < k ==> self@.entry_ok(#[trigger] self@.transitions[j]),
            decreases self.transitions@.len() - k,
        {
            if !self.entry_valid(k) {
                let src: &String = &self.transitions[k].0;
                proof {
                    assert(src@ == self@.transitions[k as int].0);
                    assert(self@.names_first_bad_entry(src@));
                }
                return Result::Err(ValidationError::InvalidTransition(src.clone()));
            }
            k = k + 1;
        }
        if !contains_char(&self.alphabet, self.blank) {
            return Result::Err(ValidationError::BlankNotInAlphabet(self.blank));
        }
        Result::Ok(())
    }

    /// Check the definition, reporting a failure as a configuration error.
    pub fn is_valid(&self) -> (r: Result<(), ConfigErr>)
        ensures
            match r {
                Result::Ok(_) => self@.valid(),
                Result::Err(e) => match e {
                    ConfigErr::InvalidConfig(ve) => self@.expected_error(ve),
                    _ => false,
                },
            },
    {
        match self.validate() {
            Result::Ok(()) => Result::Ok(()),
            Result::Err(e) => Result::Err(ConfigErr::InvalidConfig(e)),
        }
    }

    /// Check that every input symbol belongs to the alphabet; on failure
    /// report the first offending symbol.
    #[verifier::loop_isolation(false)]
    pub fn check_input(&self, input: &Vec<char>) -> (r: Result<(), InputError>)
        ensures
            match r {
                Result::Ok(_) => forall|i: int|
                    0 <= i < input@.len() ==> self@.alphabet.contains(#[trigger] input@[i]),
                Result::Err(InputError::SymbolNotInAlphabet(c)) => exists|i: int|
                    0 <= i < input@.len() && !self@.alphabet.contains(c) && input@[i] == c && (
                    forall|j: int| 0 <= j < i ==> self@.alphabet.contains(#[trigger] input@[j])),
            },
    {
        let mut i: usize = 0;
        while i < input.len()
            invariant
                i <= input@.len(),
                forall|j: int| 0 <= j < i ==> self@.alphabet.contains(#[trigger] input@[j]),
            decreases input@.len() - i,
        {
            let c = input[i];
            if !contains_char(&self.alphabet, c) {
                return Result::Err(InputError::SymbolNotInAlphabet(c));
            }
            i = i + 1;
        }
        Result::Ok(())
    }
}

/// Decide from the full process-argument count `n` whether a run can be
/// configured: with fewer than two arguments the machine definition's path is
/// missing, with more than two the extra arguments are not understood.
pub fn check_arg_count(n: usize) -> (r: Result<(), ConfigErr>)
    ensures
        match r {
            Result::Ok(_) => n == 2,
            Result::Err(e) => match e {
                ConfigErr::MissingArgument => n < 2,
                ConfigErr::TooManyArguments => n > 2,
                _ => false,
            },
        },
{
    if n < 2 {
        Result::Err(ConfigErr::MissingArgument)
    } else if n > 2 {
        Result::Err(ConfigErr::TooManyArguments)
    } else {
        Result::Ok(())
    }
}

/// Validate an already-loaded machine definition, handing it back untouched
/// when it is consistent.
pub fn parse_machine(machine: TuringMachine) -> (r: Result<TuringMachine, ConfigErr>)
    ensures
        match r {
            Result::Ok(m) => m == machine && machine@.valid(),
            Result::Err(e) => !machine@.valid() && match e {
                ConfigErr::InvalidConfig(ve) => machine@.expected_error(ve),
                _ => false,
            },
        },
{
    match machine.is_valid() {
        Result::Ok(()) => Result::Ok(machine),
        Result::Err(e) => Result::Err(e),
    }
}

} // verus!
