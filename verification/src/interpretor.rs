//! The execution engine: single steps and full runs of a machine.
//!
//! The engine owns a tape and a read-only machine definition, and drives the
//! machine one transition at a time. A step looks up the current state's
//! transition list (an absent entry counts as an empty list) and applies the
//! first transition whose read symbol matches the cell under the cursor: write,
//! change state, move, then check for a final state. Halting is a normal
//! outcome, never an error: the machine halts by entering a final state, by
//! finding no matching transition, or by exhausting the step budget handed to
//! a full run.
//!
//! Every applied transition is reported as a plain step event; rendering the
//! events is entirely the caller's concern. The whole execution is pinned to
//! the spec-level functions `step_model`, `run_model` and `trace_model`, so a
//! run's trace and halt reason are a function of the machine definition, the
//! input and the budget alone.

use vstd::prelude::*;

use crate::machine::contains_string;
use crate::machine::trans_views;
use crate::machine::Action;
use crate::machine::MachineModel;
use crate::machine::Transition;
use crate::machine::TransitionModel;
use crate::machine::TuringMachine;
use crate::tape::left_moved;
use crate::tape::right_moved;
use crate::tape::Tape;

verus! {

/// Why the engine halted.
#[derive(Clone, Copy, Debug, PartialEq, Eq, Structural)]
pub enum HaltReason {
    /// The machine entered a final state.
    Final,
    /// No transition of the current state matches the symbol under the cursor.
    NoTransition,
    /// The step budget handed to `run` ran out before the machine halted.
    BudgetExceeded,
}

/// One applied transition, reported as a value snapshot: the state left and
/// entered, the symbol read and written, the head movement, and the band after
/// the move.
#[derive(Clone, Debug, PartialEq, Eq)]
pub struct StepEvent {
    pub from: String,
    pub read: char,
    pub to: String,
    pub write: char,
    pub action: Action,
    pub band: Vec<char>,
    pub cursor: usize,
}

/// The mathematical value of a `StepEvent`.
#[verifier::ext_equal]
pub ghost struct StepEventModel {
    pub from: Seq<char>,
    pub read: char,
    pub to: Seq<char>,
    pub write: char,
    pub action: Action,
    pub band: Seq<char>,
    pub cursor: int,
}

impl View for StepEvent {
    type V = StepEventModel;

    open spec fn view(&self) -> StepEventModel {
        StepEventModel {
            from: self.from@,
            read: self.read,
            to: self.to@,
            write: self.write,
            action: self.action,
            band: self.band@,
            cursor: self.cursor as int,
        }
    }
}

/// The mathematical values of a sequence of step events.
pub open spec fn events_model(s: Seq<StepEvent>) -> Seq<StepEventModel> {
    s.map_values(|e: StepEvent| e@)
}

/// What one call of `step` returns: an applied transition, or the halt that
/// ends a run whose current state has no matching transition.
#[derive(Clone, Debug, PartialEq, Eq)]
pub enum StepOutcome {
    Step(StepEvent),
    Halt(HaltReason),
}

/// What a full run returns: the halt reason and every step event, in execution
/// order.
#[derive(Clone, Debug, PartialEq, Eq)]
pub struct RunOutcome {
    pub reason: HaltReason,
    pub events: Vec<StepEvent>,
}

/// The mutable execution state, as a mathematical value: current state name,
/// band, cursor, and whether (and why) the machine has halted.
#[verifier::ext_equal]
pub ghost struct Config {
    pub state: Seq<char>,
    pub cells: Seq<char>,
    pub cursor: int,
    pub halted: bool,
    pub reason: Option<HaltReason>,
}

/// The transition list of state `s`: the list of the first table entry whose
/// source is `s`, or the empty list when no entry matches.
pub open spec fn lookup(
    ts: Seq<(Seq<char>, Seq<TransitionModel>)>,
    s: Seq<char>,
) -> Seq<TransitionModel>
    decreases ts.len(),
{
    if ts.len() == 0 {
        Seq::empty()
    } else if ts[0].0 == s {
        ts[0].1
    } else {
        lookup(ts.drop_first(), s)
    }
}

/// The first transition of `list` that reads `c`, if any: list order is the
/// tie break between transitions on the same read symbol.
pub open spec fn first_match(list: Seq<TransitionModel>, c: char) -> Option<TransitionModel>
    decreases list.len(),
{
    if list.len() == 0 {
        Option::None
    } else if list[0].read == c {
        Option::Some(list[0])
    } else {
        first_match(list.drop_first(), c)
    }
}

/// The configuration an engine starts from: the input on the band (one blank
/// cell when the input is empty), the cursor on the first cell, the machine's
/// initial state, not halted.
pub open spec fn init_config(m: MachineModel, input: Seq<char>) -> Config {
    Config {
        state: m.initial,
        cells: if input.len() == 0 {
            seq![m.blank]
        } else {
            input
        },
        cursor: 0,
        halted: false,
        reason: Option::None,
    }
}

/// One step of the machine: the next configuration, and the step event when a
/// transition was applied.
pub open spec fn step_model(m: MachineModel, c: Config) -> (Config, Option<StepEventModel>) {
    let list = lookup(m.transitions, c.state);
    match first_match(list, c.cells[c.cursor]) {
        Option::None => (
            Config {
                state: c.state,
                cells: c.cells,
                cursor: c.cursor,
                halted: true,
                reason: Option::Some(HaltReason::NoTransition),
            },
            Option::None,
        ),
        Option::Some(t) => {
            let written = c.cells.update(c.cursor, t.write);
            let moved = if t.action is LEFT {
                left_moved(written, c.cursor, m.blank)
            } else {
                right_moved(written, c.cursor, m.blank)
            };
            let entered_final = m.finals.contains(t.to_state);
            (
                Config {
                    state: t.to_state,
                    cells: moved.0,
                    cursor: moved.1,
                    halted: entered_final,
                    reason: if entered_final {
                        Option::Some(HaltReason::Final)
                    } else {
                        Option::None
                    },
                },
                Option::Some(
                    StepEventModel {
                        from: c.state,
                        read: t.read,
                        to: t.to_state,
                        write: t.write,
                        action: t.action,
                        band: moved.0,
                        cursor: moved.1,
                    },
                ),
            )
        },
    }
}

/// The configuration after at most `n` steps: stepping stops early once the
/// machine has halted.
pub open spec fn run_model(m: MachineModel, c: Config, n: nat) -> Config
    decreases n,
{
    if n == 0 || c.halted {
        c
    } else {
        run_model(m, step_model(m, c).0, (n - 1) as nat)
    }
}

/// The events of one step, as a sequence: one event for an applied transition,
/// none for a halt.
pub open spec fn event_seq(ev: Option<StepEventModel>) -> Seq<StepEventModel> {
    match ev {
        Option::Some(e) => seq![e],
        Option::None => Seq::empty(),
    }
}

/// The ordered step events of at most `n` steps.
pub open spec fn trace_model(m: MachineModel, c: Config, n: nat) -> Seq<StepEventModel>
    decreases n,
{
    if n == 0 || c.halted {
        Seq::empty()
    } else {
        let stepped = step_model(m, c);
        event_seq(stepped.1) + trace_model(m, stepped.0, (n - 1) as nat)
    }
}

/// The final configuration of a run under a budget: when the machine has not
/// halted within the budget, it is stopped where it stands.
pub open spec fn budget_stopped(c: Config) -> Config {
    Config {
        state: c.state,
        cells: c.cells,
        cursor: c.cursor,
        halted: true,
        reason: Option::Some(HaltReason::BudgetExceeded),
    }
}

proof fn lemma_lookup_at(ts: Seq<(Seq<char>, Seq<TransitionModel>)>, s: Seq<char>, i: int)
    requires
        0 <= i < ts.len(),
        ts[i].0 == s,
        forall|j: int| 0 <= j < i ==> ts[j].0 != s,
    ensures
        lookup(ts, s) == ts[i].1,
    decreases i,
{
    if i > 0 {
        lemma_lookup_at(ts.drop_first(), s, i - 1);
    }
}

proof fn lemma_lookup_none(ts: Seq<(Seq<char>, Seq<TransitionModel>)>, s: Seq<char>)
    requires
        forall|j: int| 0 <= j < ts.len() ==> ts[j].0 != s,
    ensures
        lookup(ts, s) == Seq::<TransitionModel>::empty(),
    decreases ts.len(),
{
    if ts.len() > 0 {
        lemma_lookup_none(ts.drop_first(), s);
    }
}

proof fn lemma_first_match_at(list: Seq<TransitionModel>, c: char, i: int)
    requires
        0 <= i < list.len(),
        list[i].read == c,
        forall|j: int| 0 <= j < i ==> list[j].read != c,
    ensures
        first_match(list, c) == Option::Some(list[i]),
    decreases i,
{
    if i > 0 {
        lemma_first_match_at(list.drop_first(), c, i - 1);
    }
}

proof fn lemma_first_match_none(list: Seq<TransitionModel>, c: char)
    requires
        forall|j: int| 0 <= j < list.len() ==> list[j].read != c,
    ensures
        first_match(list, c) is None,
    decreases list.len(),
{
    if list.len() > 0 {
        lemma_first_match_none(list.drop_first(), c);
    }
}

/// Unfolding a run from its far end: one more step is a no-op on a halted
/// configuration, and otherwise appends one step to the run so far.
proof fn lemma_run_snoc(m: MachineModel, c: Config, n: nat)
    ensures
        ({
            let cn = run_model(m, c, n);
            &&& run_model(m, c, n + 1) == (if cn.halted {
                cn
            } else {
                step_model(m, cn).0
            })
            &&& trace_model(m, c, n + 1) == (if cn.halted {
                trace_model(m, c, n)
            } else {
                trace_model(m, c, n) + event_seq(step_model(m, cn).1)
            })
        }),
    decreases n,
{
    if c.halted {
        assert(trace_model(m, c, n + 1) == trace_model(m, c, n));
    } else {
        let stepped = step_model(m, c);
        assert(run_model(m, c, n + 1) == run_model(m, stepped.0, n));
        assert(trace_model(m, c, n + 1) == event_seq(stepped.1) + trace_model(m, stepped.0, n));
        if n == 0 {
            assert(run_model(m, stepped.0, 0) == stepped.0);
            assert(trace_model(m, stepped.0, 0) == Seq::<StepEventModel>::empty());
            assert(trace_model(m, c, 0) == Seq::<StepEventModel>::empty());
            assert(event_seq(stepped.1) + Seq::<StepEventModel>::empty() =~= trace_model(m, c, 0)
                + event_seq(stepped.1));
        } else {
            lemma_run_snoc(m, stepped.0, (n - 1) as nat);
            assert(run_model(m, c, n) == run_model(m, stepped.0, (n - 1) as nat));
            assert(trace_model(m, c, n) == event_seq(stepped.1) + trace_model(
                m,
                stepped.0,
                (n - 1) as nat,
            ));
            let cn = run_model(m, c, n);
            if !cn.halted {
                assert(event_seq(stepped.1) + (trace_model(m, stepped.0, (n - 1) as nat)
                    + event_seq(step_model(m, cn).1)) =~= (event_seq(stepped.1) + trace_model(
                    m,
                    stepped.0,
                    (n - 1) as nat,
                )) + event_seq(step_model(m, cn).1));
            }
        }
    }
}

/// Once halted, a run no longer changes: more steps leave the configuration
/// and the trace as they are.
proof fn lemma_halted_stable(m: MachineModel, c: Config, s: nat, n: nat)
    requires
        s <= n,
        run_model(m, c, s).halted,
    ensures
        run_model(m, c, n) == run_model(m, c, s),
        trace_model(m, c, n) == trace_model(m, c, s),
    decreases s,
{
    if c.halted {
    } else if s == 0 {
        assert(false);
    } else {
        let stepped = step_model(m, c);
        lemma_halted_stable(m, stepped.0, (s - 1) as nat, (n - 1) as nat);
    }
}

/// Law: a run is deterministic. From one configuration, any two step counts at
/// which the machine has halted yield the same final configuration and the
/// same ordered trace of step events; together with the contracts of `new` and
/// `run`, two runs of the same machine on the same input agree on everything.
pub proof fn lemma_run_deterministic(m: MachineModel, c: Config, n1: nat, n2: nat)
    requires
        run_model(m, c, n1).halted,
        run_model(m, c, n2).halted,
    ensures
        run_model(m, c, n1) == run_model(m, c, n2),
        trace_model(m, c, n1) == trace_model(m, c, n2),
{
    if n1 <= n2 {
        lemma_halted_stable(m, c, n1, n2);
    } else {
        lemma_halted_stable(m, c, n2, n1);
    }
}

/// Law: a machine whose current state has no matching transition — in
/// particular one whose transition table has no entry for that state — halts
/// with reason `NoTransition` after zero applied transitions: the trace stays
/// empty however many steps are allowed.
pub proof fn lemma_halt_no_transition(m: MachineModel, c: Config, n: nat)
    requires
        !c.halted,
        0 <= c.cursor < c.cells.len(),
        first_match(lookup(m.transitions, c.state), c.cells[c.cursor]) is None,
        n >= 1,
    ensures
        run_model(m, c, n) == step_model(m, c).0,
        run_model(m, c, n).halted,
        run_model(m, c, n).reason == Option::Some(HaltReason::NoTransition),
        run_model(m, c, n).state == c.state,
        run_model(m, c, n).cells == c.cells,
        run_model(m, c, n).cursor == c.cursor,
        trace_model(m, c, n) == Seq::<StepEventModel>::empty(),
{
    let stepped = step_model(m, c);
    assert(run_model(m, c, n) == run_model(m, stepped.0, (n - 1) as nat));
    assert(trace_model(m, c, n) == event_seq(stepped.1) + trace_model(m, stepped.0, (n - 1) as nat));
    assert(trace_model(m, stepped.0, (n - 1) as nat) == Seq::<StepEventModel>::empty());
    assert(trace_model(m, c, n) =~= Seq::<StepEventModel>::empty());
}

proof fn lemma_first_match_mem(list: Seq<TransitionModel>, c: char)
    requires
        first_match(list, c) is Some,
    ensures
        list.contains(first_match(list, c)->Some_0),
    decreases list.len(),
{
    if list.len() > 0 && list[0].read != c {
        lemma_first_match_mem(list.drop_first(), c);
        let t = first_match(list, c)->Some_0;
        let k = choose|k: int| 0 <= k < list.drop_first().len() && list.drop_first()[k] == t;
        assert(list[k + 1] == t);
    }
}

proof fn lemma_lookup_mem(ts: Seq<(Seq<char>, Seq<TransitionModel>)>, s: Seq<char>)
    ensures
        lookup(ts, s) == Seq::<TransitionModel>::empty() || exists|i: int|
            0 <= i < ts.len() && lookup(ts, s) == #[trigger] ts[i].1,
    decreases ts.len(),
{
    if ts.len() > 0 && ts[0].0 != s {
        lemma_lookup_mem(ts.drop_first(), s);
        if lookup(ts, s) != Seq::<TransitionModel>::empty() {
            let i = choose|i: int|
                0 <= i < ts.drop_first().len() && lookup(ts.drop_first(), s) == #[trigger] ts
                    .drop_first()[i].1;
            assert(lookup(ts, s) == ts[i + 1].1);
        }
    }
}

/// Law: a valid machine never leaves its declared states. One step from a
/// declared state lands in a declared state: this is what validating every
/// transition's target buys the engine.
pub proof fn lemma_step_stays_declared(m: MachineModel, c: Config)
    requires
        m.valid(),
        m.states.contains(c.state),
    ensures
        m.states.contains(step_model(m, c).0.state),
{
    let list = lookup(m.transitions, c.state);
    match first_match(list, c.cells[c.cursor]) {
        Option::None => {},
        Option::Some(t) => {
            lemma_first_match_mem(list, c.cells[c.cursor]);
            lemma_lookup_mem(m.transitions, c.state);
            let i = choose|i: int|
                0 <= i < m.transitions.len() && list == #[trigger] m.transitions[i].1;
            assert(m.entry_ok(m.transitions[i]));
            let k = choose|k: int| 0 <= k < list.len() && list[k] == t;
            assert(m.transition_ok(list[k]));
        },
    }
}

/// Law: every state a run of a valid machine passes through is declared.
pub proof fn lemma_run_stays_declared(m: MachineModel, c: Config, n: nat)
    requires
        m.valid(),
        m.states.contains(c.state),
    ensures
        m.states.contains(run_model(m, c, n).state),
    decreases n,
{
    if n > 0 && !c.halted {
        lemma_step_stays_declared(m, c);
        lemma_run_stays_declared(m, step_model(m, c).0, (n - 1) as nat);
    }
}

/// The engine: a machine definition shared read-only for the whole run, and
/// the mutable execution state it drives.
pub struct TuringInterpret {
    pub config: TuringMachine,
    pub state: String,
    pub tape: Tape,
    pub halted: bool,
    pub halt_reason: Option<HaltReason>,
}

impl TuringInterpret {
    /// The engine's execution state as a mathematical value.
    pub open spec fn model(self) -> Config {
        Config {
            state: self.state@,
            cells: self.tape.cells@,
            cursor: self.tape.cursor as int,
            halted: self.halted,
            reason: self.halt_reason,
        }
    }

    /// The tape is well formed, grows with the machine's blank symbol, and the
    /// halt reason is recorded exactly when the engine has halted.
    pub open spec fn wf(self) -> bool {
        &&& self.tape.wf()
        &&& self.tape.blank == self.config.blank
        &&& (self.halted <==> self.halt_reason is Some)
    }

    /// Build an engine for `machine` with `input` on the band, in the
    /// machine's initial state.
    pub fn new(machine: TuringMachine, input: String) -> (e: TuringInterpret)
        ensures
            e.wf(),
            e.config == machine,
            e.model() == init_config(machine@, input@),
    {
        let cells = chars_of(&input);
        let blank = machine.blank;
        let tape = Tape::new(cells, blank);
        let state = machine.initial.clone();
        let e = TuringInterpret { config: machine, state, tape, halted: false, halt_reason: Option::None };
        proof {
            assert(e.model() =~= init_config(machine@, input@));
        }
        e
    }

    /// Whether the engine currently stands in a final state of its machine.
    pub fn is_in_final(&self) -> (b: bool)
        ensures
            b == self.config@.finals.contains(self.state@),
    {
        contains_string(&self.config.finals, &self.state)
    }

    /// The index of the first transition-table entry for the current state.
    #[verifier::loop_isolation(false)]
    fn find_entry(&self) -> (r: Option<usize>)
        ensures
            match r {
                Option::Some(i) => {
                    &&& i < self.config.transitions@.len()
                    &&& self.config@.transitions[i as int].0 == self.state@
                    &&& lookup(self.config@.transitions, self.state@)
                        == self.config@.transitions[i as int].1
                },
                Option::None => lookup(self.config@.transitions, self.state@)
                    == Seq::<TransitionModel>::empty(),
            },
    {
        let mut i: usize = 0;
        while i < self.config.transitions.len()
            invariant
                i <= self.config.transitions@.len(),
                forall|j: int| 0 <= j < i ==> self.config@.transitions[j].0 != self.state@,
            decreases self.config.transitions@.len() - i,
        {
            let key: &String = &self.config.transitions[i].0;
            proof {
                assert(self.config@.transitions[i as int].0 == key@);
            }
            if key.eq(&self.state) {
                proof {
                    lemma_lookup_at(self.config@.transitions, self.state@, i as int);
                }
                return Option::Some(i);
            }
            i = i + 1;
        }
        proof {
            lemma_lookup_none(self.config@.transitions, self.state@);
        }
        Option::None
    }

    /// The index of the first transition of `list` reading `sym`.
    #[verifier::loop_isolation(false)]
    fn find_transition(list: &Vec<Transition>, sym: char) -> (r: Option<usize>)
        ensures
            match r {
                Option::Some(j) => {
                    &&& j < list@.len()
                    &&& first_match(trans_views(list@), sym) == Option::Some(list@[j as int]@)
                },
                Option::None => first_match(trans_views(list@), sym) is None,
            },
    {
        let mut j: usize = 0;
        while j < list.len()
            invariant
                j <= list@.len(),
                forall|k: int| 0 <= k < j ==> trans_views(list@)[k].read != sym,
            decreases list@.len() - j,
        {
            let t: &Transition = &list[j];
            proof {
                assert(trans_views(list@)[j as int] == t@);
            }
            if t.read == sym {
                proof {
                    lemma_first_match_at(trans_views(list@), sym, j as int);
                }
                return Option::Some(j);
            }
            j = j + 1;
        }
        proof {
            lemma_first_match_none(trans_views(list@), sym);
        }
        Option::None
    }

    /// Execute one step: apply the first transition of the current state that
    /// reads the symbol under the cursor (write, change state, move, then
    /// check for a final state), or halt with `NoTransition` when none
    /// matches. Exactly `step_model` on the engine's model.
    pub fn step(&mut self) -> (out: StepOutcome)
        requires
            old(self).wf(),
            !old(self).halted,
        ensures
            final(self).wf(),
            final(self).config == old(self).config,
            final(self).model() == step_model(old(self).config@, old(self).model()).0,
            match out {
                StepOutcome::Step(e) => step_model(old(self).config@, old(self).model()).1
                    == Option::Some(e@),
                StepOutcome::Halt(r) => {
                    &&& step_model(old(self).config@, old(self).model()).1 is None
                    &&& r == HaltReason::NoTransition
                },
            },
    {
        let ghost m = self.config@;
        let ghost c0 = self.model();
        let sym = self.tape.read();
        let entry = self.find_entry();
        let tr = match entry {
            Option::None => Option::None,
            Option::Some(i) => {
                proof {
                    assert(self.config@.transitions[i as int] == crate::machine::entry_view(
                        self.config.transitions@[i as int],
                    ));
                }
                match Self::find_transition(&self.config.transitions[i].1, sym) {
                    Option::None => Option::None,
                    Option::Some(j) => Option::Some((i, j)),
                }
            },
        };
        match tr {
            Option::None => {
                self.halted = true;
                self.halt_reason = Option::Some(HaltReason::NoTransition);
                proof {
                    assert(self.model() =~= step_model(m, c0).0);
                }
                StepOutcome::Halt(HaltReason::NoTransition)
            },
            Option::Some((i, j)) => {
                let t: &Transition = &self.config.transitions[i].1[j];
                let t_read = t.read;
                let t_write = t.write;
                let t_act = t.action;
                let t_to = t.to_state.clone();
                let ghost tm = t@;
                proof {
                    assert(first_match(lookup(m.transitions, c0.state), sym) == Option::Some(tm));
                }
                self.tape.write(t_write);
                let from_state = self.state.clone();
                self.state = t_to;
                match t_act {
                    Action::LEFT => self.tape.move_left(),
                    Action::RIGHT => self.tape.move_right(),
                }
                let entered_final = self.is_in_final();
                if entered_final {
                    self.halted = true;
                    self.halt_reason = Option::Some(HaltReason::Final);
                }
                let band = self.tape.contents();
                let cursor = self.tape.cursor;
                let ev = StepEvent {
                    from: from_state,
                    read: t_read,
                    to: self.state.clone(),
                    write: t_write,
                    action: t_act,
                    band,
                    cursor,
                };
                proof {
                    assert(self.model() =~= step_model(m, c0).0);
                    assert(step_model(m, c0).1 == Option::Some(ev@)) by {
                        assert(ev@ =~= step_model(m, c0).1->Some_0);
                    }
                }
                StepOutcome::Step(ev)
            },
        }
    }

    /// Run until the machine halts or the step budget runs out, whichever
    /// comes first; in the latter case the engine is stopped where it stands
    /// with reason `BudgetExceeded`. Iterative, so a definition without a
    /// reachable final state does not grow the call stack; the budget bounds
    /// it — a caller that wants an unbounded, step-by-step run drives `step`
    /// itself. Returns the halt reason and every step event in execution
    /// order, pinned to `run_model` and `trace_model` of the starting
    /// configuration.
    #[verifier::loop_isolation(false)]
    pub fn run(&mut self, budget: usize) -> (out: RunOutcome)
        requires
            old(self).wf(),
        ensures
            final(self).wf(),
            final(self).config == old(self).config,
            final(self).halted,
            final(self).halt_reason == Option::Some(out.reason),
            events_model(out.events@) == trace_model(
                old(self).config@,
                old(self).model(),
                budget as nat,
            ),
            final(self).model() == ({
                let last = run_model(old(self).config@, old(self).model(), budget as nat);
                if last.halted {
                    last
                } else {
                    budget_stopped(last)
                }
            }),
    {
        let ghost m = self.config@;
        let ghost c0 = self.model();
        let mut events: Vec<StepEvent> = Vec::new();
        let mut steps: usize = 0;
        while steps < budget && !self.halted
            invariant
                steps <= budget,
                self.wf(),
                self.config == old(self).config,
                self.model() == run_model(m, c0, steps as nat),
                events_model(events@) == trace_model(m, c0, steps as nat),
            decreases budget - steps,
        {
            let ghost evs_before = events@;
            let out = self.step();
            proof {
                lemma_run_snoc(m, c0, steps as nat);
            }
            match out {
                StepOutcome::Step(e) => {
                    events.push(e);
                    proof {
                        assert(events_model(events@) =~= events_model(evs_before).push(e@));
                        assert(trace_model(m, c0, (steps + 1) as nat) =~= events_model(events@));
                    }
                },
                StepOutcome::Halt(_) => {
                    proof {
                        assert(trace_model(m, c0, (steps + 1) as nat) =~= events_model(events@));
                    }
                },
            }
            steps = steps + 1;
        }
        if self.halted {
            proof {
                lemma_halted_stable(m, c0, steps as nat, budget as nat);
            }
        } else {
            self.halted = true;
            self.halt_reason = Option::Some(HaltReason::BudgetExceeded);
            proof {
                assert(self.model() =~= budget_stopped(run_model(m, c0, budget as nat)));
            }
        }
        let reason = self.halt_reason.unwrap();
        RunOutcome { reason, events }
    }
}

/// The characters of a string, as a vector of symbols.
#[verifier::loop_isolation(false)]
fn chars_of(s: &String) -> (v: Vec<char>)
    ensures
        v@ == s@,
{
    let n = s.as_str().unicode_len();
    let mut v: Vec<char> = Vec::new();
    let mut i: usize = 0;
    while i < n
        invariant
            i <= s@.len(),
            n == s@.len(),
            v@ == s@.take(i as int),
        decreases s@.len() - i,
    {
        let c = s.as_str().get_char(i);
        v.push(c);
        proof {
            assert(v@ =~= s@.take(i + 1));
        }
        i = i + 1;
    }
    proof {
        assert(v@ =~= s@);
    }
    v
}

} // verus!
