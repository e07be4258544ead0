//! The machine: its tape, head, state and transition table, a model of one
//! execution step, and the run loop built from that step.
use vstd::prelude::*;

use crate::text::{copy_chars, same_chars, str_chars};

verus! {

/// The content of one tape cell.
#[derive(Debug, PartialEq, Eq, Structural, Copy, Clone)]
pub enum TapeCharacter {
    Blank,
    Symbol(char),
}

/// What a transition does to the tape or the head.
#[derive(Debug, PartialEq, Eq, Structural, Copy, Clone)]
pub enum Action {
    MoveLeft,
    MoveRight,
    Write(TapeCharacter),
}

/// How a step or a run ended.
#[derive(Debug, PartialEq, Eq, Structural, Copy, Clone)]
pub enum Status {
    /// The machine entered an accepting state.
    Accepted,
    /// No transition matched the current state and cell.
    Rejected,
    /// The machine may go on.
    Running,
}

/// A rule: in `state`, reading `read`, perform `action` and go to `next_state`.
/// State labels are the characters of their names.
#[derive(Debug, Clone)]
pub struct Transition {
    pub state: Vec<char>,
    pub read: TapeCharacter,
    pub action: Action,
    pub next_state: Vec<char>,
}

/// The mathematical value of a [`Transition`].
pub struct TransitionModel {
    pub state: Seq<char>,
    pub read: TapeCharacter,
    pub action: Action,
    pub next_state: Seq<char>,
}

impl View for Transition {
    type V = TransitionModel;

    open spec fn view(&self) -> TransitionModel {
        TransitionModel {
            state: self.state@,
            read: self.read,
            action: self.action,
            next_state: self.next_state@,
        }
    }
}

/// A single-tape machine. `head` indexes `tape`; `transitions` is consulted in
/// order and the first match applies.
#[derive(Debug, Clone)]
pub struct TuringMachine {
    pub tape: Vec<TapeCharacter>,
    pub head: usize,
    pub state: Vec<char>,
    pub transitions: Vec<Transition>,
    pub accepting_states: Vec<Vec<char>>,
}

/// The mathematical value of a [`TuringMachine`].
pub struct MachineModel {
    pub tape: Seq<TapeCharacter>,
    pub head: int,
    pub state: Seq<char>,
    pub transitions: Seq<TransitionModel>,
    pub accepting: Seq<Seq<char>>,
}

impl View for TuringMachine {
    type V = MachineModel;

    open spec fn view(&self) -> MachineModel {
        MachineModel {
            tape: self.tape@,
            head: self.head as int,
            state: self.state@,
            transitions: self.transitions@.map_values(|t: Transition| t@),
            accepting: self.accepting_states@.map_values(|l: Vec<char>| l@),
        }
    }
}

impl MachineModel {
    /// The head stands on a cell of the tape.
    pub open spec fn wf(self) -> bool {
        0 <= self.head < self.tape.len()
    }

    pub open spec fn is_accepting(self, s: Seq<char>) -> bool {
        self.accepting.contains(s)
    }

    /// The cell under the head.
    pub open spec fn scanned(self) -> TapeCharacter {
        self.tape[self.head]
    }

    /// The same machine with tape, head and state replaced.
    pub open spec fn with(self, tape: Seq<TapeCharacter>, head: int, state: Seq<char>) -> MachineModel {
        MachineModel { tape, head, state, transitions: self.transitions, accepting: self.accepting }
    }
}

pub open spec fn matches(t: TransitionModel, state: Seq<char>, read: TapeCharacter) -> bool {
    t.state == state && t.read == read
}

/// The index of the first transition of `ts` that applies to `state` and `read`.
pub open spec fn first_match(ts: Seq<TransitionModel>, state: Seq<char>, read: TapeCharacter) -> Option<int>
    decreases ts.len(),
{
    if ts.len() == 0 {
        None
    } else {
        match first_match(ts.drop_last(), state, read) {
            Some(i) => Some(i),
            None => if matches(ts.last(), state, read) {
                Some(ts.len() - 1)
            } else {
                None
            },
        }
    }
}

/// The machine after entering its new state, and whether that state accepts.
pub open spec fn settle(m: MachineModel) -> (MachineModel, Status) {
    (m, if m.is_accepting(m.state) { Status::Accepted } else { Status::Running })
}

/// One execution step. A move left from the first cell prepends a blank cell
/// and keeps the state, so that the lookup is made again on the new cell.
pub open spec fn step_spec(m: MachineModel) -> (MachineModel, Status) {
    match first_match(m.transitions, m.state, m.scanned()) {
        None => (m, Status::Rejected),
        Some(i) => {
            let t = m.transitions[i];
            match t.action {
                Action::MoveLeft => if m.head == 0 {
                    (m.with(m.tape.insert(0, TapeCharacter::Blank), 0, m.state), Status::Running)
                } else {
                    settle(m.with(m.tape, m.head - 1, t.next_state))
                },
                Action::MoveRight => {
                    let tape = if m.head + 1 == m.tape.len() {
                        m.tape.push(TapeCharacter::Blank)
                    } else {
                        m.tape
                    };
                    settle(m.with(tape, m.head + 1, t.next_state))
                },
                Action::Write(c) => settle(m.with(m.tape.update(m.head, c), m.head, t.next_state)),
            }
        },
    }
}

/// At most `fuel` steps from `m`, stopping at acceptance or rejection.
pub open spec fn run_spec(m: MachineModel, fuel: nat) -> (MachineModel, Status)
    decreases fuel,
{
    if fuel == 0 {
        (m, Status::Running)
    } else {
        let (n, s) = step_spec(m);
        if s == Status::Running {
            run_spec(n, (fuel - 1) as nat)
        } else {
            (n, s)
        }
    }
}

/// `t` is the tape that `input` is laid on: the input's symbols between two
/// blank cells.
pub open spec fn is_initial_tape(t: Seq<TapeCharacter>, input: Seq<char>) -> bool {
    &&& t.len() == input.len() + 2
    &&& t[0] == TapeCharacter::Blank
    &&& t[t.len() - 1] == TapeCharacter::Blank
    &&& forall|j: int| 0 <= j < input.len() ==> t[j + 1] == TapeCharacter::Symbol(#[trigger] input[j])
}

/// How a cell is drawn: a blank as `Δ`, a symbol as itself.
pub open spec fn glyph(c: TapeCharacter) -> char {
    match c {
        TapeCharacter::Blank => 'Δ',
        TapeCharacter::Symbol(s) => s,
    }
}

/// The cells of `tape` drawn in order, with `|` before the cell at `head`.
pub open spec fn render(tape: Seq<TapeCharacter>, head: int) -> Seq<char>
    decreases tape.len(),
{
    if tape.len() == 0 {
        Seq::empty()
    } else {
        let mark: Seq<char> = if head == tape.len() - 1 { seq!['|'] } else { Seq::empty() };
        render(tape.drop_last(), head) + mark + seq![glyph(tape.last())]
    }
}

fn glyph_of(c: TapeCharacter) -> (r: char)
    ensures
        r == glyph(c),
{
    match c {
        TapeCharacter::Blank => 'Δ',
        TapeCharacter::Symbol(s) => s,
    }
}

/// The model of `first_match`: the least index whose transition applies.
pub proof fn lemma_first_match(ts: Seq<TransitionModel>, state: Seq<char>, read: TapeCharacter)
    ensures
        match first_match(ts, state, read) {
            Some(i) => 0 <= i < ts.len() && matches(ts[i], state, read) && forall|j: int|
                0 <= j < i ==> !matches(#[trigger] ts[j], state, read),
            None => forall|j: int| 0 <= j < ts.len() ==> !matches(#[trigger] ts[j], state, read),
        },
    decreases ts.len(),
{
    if ts.len() > 0 {
        lemma_first_match(ts.drop_last(), state, read);
        assert(forall|j: int| 0 <= j < ts.len() - 1 ==> ts.drop_last()[j] == ts[j]);
    }
}

fn symbol_cell(c: char) -> (r: TapeCharacter)
    ensures
        r == TapeCharacter::Symbol(c),
{
    TapeCharacter::Symbol(c)
}

/// What one step keeps and what it guarantees of its outcome.
pub proof fn lemma_step(m: MachineModel)
    requires
        m.wf(),
    ensures
        ({
            let (n, s) = step_spec(m);
            &&& n.wf()
            &&& n.tape.len() >= m.tape.len()
            &&& n.transitions == m.transitions
            &&& n.accepting == m.accepting
            &&& s == Status::Accepted ==> n.is_accepting(n.state)
            &&& s == Status::Rejected ==> n == m && first_match(
                m.transitions,
                m.state,
                m.scanned(),
            ) is None
            &&& s == Status::Running ==> !n.is_accepting(n.state) || n.state == m.state
        }),
{
    lemma_first_match(m.transitions, m.state, m.scanned());
}

/// A run ends in acceptance only in an accepting state, and in rejection
/// only where no transition matches; and it ends rejected in an accepting
/// state only where it started in one.
pub proof fn lemma_run_outcome(m: MachineModel, fuel: nat)
    requires
        m.wf(),
    ensures
        ({
            let (f, s) = run_spec(m, fuel);
            &&& f.wf()
            &&& f.transitions == m.transitions
            &&& f.accepting == m.accepting
            &&& s == Status::Accepted ==> f.is_accepting(f.state)
            &&& s == Status::Rejected ==> first_match(f.transitions, f.state, f.scanned()) is None
            &&& s == Status::Rejected && !m.is_accepting(m.state) ==> !f.is_accepting(f.state)
        }),
    decreases fuel,
{
    if fuel > 0 {
        lemma_step(m);
        let (n, s) = step_spec(m);
        if s == Status::Running {
            lemma_run_outcome(n, (fuel - 1) as nat);
        }
    }
}

/// The tape never shrinks during a run.
pub proof fn lemma_tape_never_shrinks(m: MachineModel, fuel: nat)
    requires
        m.wf(),
    ensures
        run_spec(m, fuel).0.tape.len() >= m.tape.len(),
    decreases fuel,
{
    if fuel > 0 {
        lemma_step(m);
        let (n, s) = step_spec(m);
        if s == Status::Running {
            lemma_tape_never_shrinks(n, (fuel - 1) as nat);
        }
    }
}

/// Once a run has halted, a larger step budget changes nothing.
pub proof fn lemma_halted_run_is_final(m: MachineModel, fuel: nat, more: nat)
    requires
        run_spec(m, fuel).1 != Status::Running,
        fuel <= more,
    ensures
        run_spec(m, more) == run_spec(m, fuel),
    decreases fuel,
{
    if fuel > 0 {
        let (n, s) = step_spec(m);
        if s == Status::Running {
            lemma_halted_run_is_final(n, (fuel - 1) as nat, (more - 1) as nat);
        }
    }
}

/// Two machines with the same transitions, accepting states and state, given
/// the same input, run alike: same outcome, same final tape, head and state.
pub proof fn lemma_run_deterministic(
    m1: MachineModel,
    m2: MachineModel,
    t1: Seq<TapeCharacter>,
    t2: Seq<TapeCharacter>,
    input: Seq<char>,
    fuel: nat,
)
    requires
        m1.transitions == m2.transitions,
        m1.accepting == m2.accepting,
        m1.state == m2.state,
        is_initial_tape(t1, input),
        is_initial_tape(t2, input),
    ensures
        run_spec(m1.with(t1, 0, m1.state), fuel) == run_spec(m2.with(t2, 0, m2.state), fuel),
{
    assert(t1 =~= t2) by {
        assert forall|k: int| 0 <= k < t1.len() implies t1[k] == t2[k] by {
            if 1 <= k < t1.len() - 1 {
                let j = k - 1;
                assert(t1[j + 1] == TapeCharacter::Symbol(input[j]));
                assert(t2[j + 1] == TapeCharacter::Symbol(input[j]));
            }
        }
    }
    assert(m1.with(t1, 0, m1.state) == m2.with(t2, 0, m2.state));
}

/// Of two transitions that apply to the same state and cell, the later one
/// never fires: the transition that fires stands at or before the earlier one.
pub proof fn lemma_earlier_transition_fires(
    ts: Seq<TransitionModel>,
    state: Seq<char>,
    read: TapeCharacter,
    i: int,
    j: int,
)
    requires
        0 <= i < j < ts.len(),
        matches(ts[i], state, read),
        matches(ts[j], state, read),
    ensures
        first_match(ts, state, read) matches Some(k) && k <= i && k != j,
{
    lemma_first_match(ts, state, read);
}

impl TuringMachine {
    /// A machine in `init_state` with a tape of one blank cell and no transitions.
    pub fn new(init_state: Vec<char>, accepting_states: Vec<Vec<char>>) -> (r: Self)
        ensures
            r@.tape == seq![TapeCharacter::Blank],
            r@.head == 0,
            r@.state == init_state@,
            r@.transitions.len() == 0,
            r@.accepting == accepting_states@.map_values(|l: Vec<char>| l@),
    {
        TuringMachine {
            tape: vec![TapeCharacter::Blank],
            head: 0,
            state: init_state,
            transitions: Vec::new(),
            accepting_states,
        }
    }

    /// Lays `tape` on the tape between two blank cells and puts the head on
    /// the leading blank.
    pub fn set_tape(&mut self, tape: &str)
        ensures
            is_initial_tape(final(self)@.tape, tape@),
            final(self)@ == old(self)@.with(final(self)@.tape, 0, old(self)@.state),
    {
        let chars = str_chars(tape);
        let mut cells: Vec<TapeCharacter> = Vec::new();
        cells.push(TapeCharacter::Blank);
        let n = chars.len();
        let mut i: usize = 0;
        while i < n
            invariant
                n == chars@.len(),
                i <= n,
                cells@.len() == i + 1,
                cells@[0] == TapeCharacter::Blank,
                forall|j: int| 0 <= j < i ==> cells@[j + 1] == TapeCharacter::Symbol(#[trigger] chars@[j]),
            decreases n - i,
        {
            cells.push(symbol_cell(chars[i]));
            i = i + 1;
        }
        cells.push(TapeCharacter::Blank);
        self.head = 0;
        self.tape = cells;
    }

    fn find_transition(&self) -> (r: Option<usize>)
        requires
            self@.wf(),
        ensures
            r matches Some(i) ==> i < self.transitions.len(),
            r matches Some(i) ==> first_match(self@.transitions, self@.state, self@.scanned())
                == Some(i as int),
            r is None ==> first_match(self@.transitions, self@.state, self@.scanned()) is None,
    {
        let read = self.tape[self.head];
        let n = self.transitions.len();
        for i in 0..n
            invariant
                n == self.transitions@.len(),
                read == self@.scanned(),
                first_match(self@.transitions.take(i as int), self@.state, read) is None,
        {
            let t = &self.transitions[i];
            assert(self@.transitions.take(i + 1).drop_last() == self@.transitions.take(i as int));
            if t.read == read && same_chars(&t.state, &self.state) {
                assert(self@.transitions.take(i + 1).last() == t@);
                proof {
                    self.lemma_first_match_prefix(i + 1);
                }
                proof {
                    lemma_first_match(self@.transitions, self@.state, read);
                }
                return Some(i);
            }
        }
        assert(self@.transitions.take(n as int) == self@.transitions);
        None
    }

    proof fn lemma_first_match_prefix(&self, k: int)
        requires
            0 <= k <= self@.transitions.len(),
            first_match(self@.transitions.take(k), self@.state, self@.scanned()) is Some,
        ensures
            first_match(self@.transitions, self@.state, self@.scanned()) == first_match(
                self@.transitions.take(k),
                self@.state,
                self@.scanned(),
            ),
    {
        let ts = self@.transitions;
        lemma_first_match(ts, self@.state, self@.scanned());
        lemma_first_match(ts.take(k), self@.state, self@.scanned());
        assert(forall|j: int| 0 <= j < k ==> ts.take(k)[j] == ts[j]);
    }

    fn is_accepting_state(&self, s: &Vec<char>) -> (r: bool)
        ensures
            r == self@.is_accepting(s@),
    {
        let n = self.accepting_states.len();
        for i in 0..n
            invariant
                n == self.accepting_states@.len(),
                forall|j: int| 0 <= j < i ==> self@.accepting[j] != s@,
        {
            if same_chars(&self.accepting_states[i], s) {
                assert(self@.accepting[i as int] == s@);
                return true;
            }
        }
        false
    }

    /// Performs one step: the first transition that matches the state and the
    /// scanned cell is applied.
    pub fn step(&mut self) -> (r: Status)
        requires
            old(self)@.wf(),
        ensures
            (final(self)@, r) == step_spec(old(self)@),
            final(self)@.wf(),
            final(self)@.tape.len() >= old(self)@.tape.len(),
    {
        match self.find_transition() {
            None => Status::Rejected,
            Some(i) => {
                let action = self.transitions[i].action;
                let next = copy_chars(&self.transitions[i].next_state);
                match action {
                    Action::MoveLeft => {
                        if self.head == 0 {
                            self.tape.insert(0, TapeCharacter::Blank);
                            return Status::Running;
                        }
                        self.head = self.head - 1;
                    },
                    Action::MoveRight => {
                        let len = self.tape.len();
                        self.head = self.head + 1;
                        if self.head == len {
                            self.tape.push(TapeCharacter::Blank);
                        }
                    },
                    Action::Write(c) => {
                        self.tape.set(self.head, c);
                    },
                }
                self.state = next;
                if self.is_accepting_state(&self.state) {
                    Status::Accepted
                } else {
                    Status::Running
                }
            },
        }
    }

    /// The tape drawn between single quotes, with `|` before the cell under
    /// the head and `Δ` for each blank cell.
    pub fn tape_picture(&self) -> (r: Vec<char>)
        ensures
            r@ == seq!['\''] + render(self@.tape, self@.head) + seq!['\''],
    {
        let mut out: Vec<char> = Vec::new();
        out.push('\'');
        let n = self.tape.len();
        let mut i: usize = 0;
        while i < n
            invariant
                n == self@.tape.len(),
                i <= n,
                out@ == seq!['\''] + render(self@.tape.take(i as int), self@.head),
            decreases n - i,
        {
            let ghost before = out@;
            assert(self@.tape.take(i + 1).drop_last() == self@.tape.take(i as int));
            if i == self.head {
                out.push('|');
            }
            out.push(glyph_of(self.tape[i]));
            assert(out@ =~= seq!['\''] + render(self@.tape.take(i + 1), self@.head));
            i = i + 1;
        }
        out.push('\'');
        assert(self@.tape.take(n as int) == self@.tape);
        out
    }

    /// Runs at most `max_steps` steps, stopping at acceptance or rejection.
    pub fn run_bounded(&mut self, max_steps: u64) -> (r: Status)
        requires
            old(self)@.wf(),
        ensures
            (final(self)@, r) == run_spec(old(self)@, max_steps as nat),
            final(self)@.wf(),
            final(self)@.tape.len() >= old(self)@.tape.len(),
            r == Status::Accepted ==> final(self)@.is_accepting(final(self)@.state),
            r == Status::Rejected ==> first_match(
                final(self)@.transitions,
                final(self)@.state,
                final(self)@.scanned(),
            ) is None,
    {
        let ghost start = self@;
        let mut fuel = max_steps;
        while fuel > 0
            invariant
                self@.wf(),
                start == old(self)@,
                start.wf(),
                run_spec(start, max_steps as nat) == run_spec(self@, fuel as nat),
                self@.tape.len() >= start.tape.len(),
            decreases fuel,
        {
            let ghost before = self@;
            let s = self.step();
            assert(run_spec(before, fuel as nat) == if s == Status::Running {
                run_spec(self@, (fuel - 1) as nat)
            } else {
                (self@, s)
            });
            if s != Status::Running {
                proof {
                    lemma_run_outcome(start, max_steps as nat);
                }
                return s;
            }
            fuel = fuel - 1;
        }
        proof {
            lemma_run_outcome(start, max_steps as nat);
        }
        Status::Running
    }

    /// Runs the machine until it accepts or rejects. The step budget is
    /// `u64::MAX`, which no execution reaches in practice; a run that
    /// exhausts it counts as not accepted.
    pub fn run(&mut self) -> (r: bool)
        requires
            old(self)@.wf(),
        ensures
            final(self)@ == run_spec(old(self)@, u64::MAX as nat).0,
            r == (run_spec(old(self)@, u64::MAX as nat).1 == Status::Accepted),
            final(self)@.wf(),
            final(self)@.tape.len() >= old(self)@.tape.len(),
            r ==> final(self)@.is_accepting(final(self)@.state),
    {
        let s = self.run_bounded(u64::MAX);
        s == Status::Accepted
    }
}

} // verus!
