//! The compiler from program text to a machine.
//!
//! The first non-blank line names the initial state, the second lists the
//! accepting states separated by single spaces, and each further non-blank
//! line is a rule: `ML`, `MR` or `WB` followed by the state, the next state
//! and an optional read symbol, or `WS` followed by the state, the next state,
//! an optional read symbol and the symbol written.
use vstd::prelude::*;

use crate::machine::{Action, MachineModel, TapeCharacter, Transition, TransitionModel, TuringMachine};
use crate::text::{
    copy_chars, drop_empty, non_empty, split, split_on, str_chars, trim, trimmed, views,
};

verus! {

/// Why a program text was refused.
#[derive(Debug, PartialEq, Eq, Structural, Copy, Clone)]
pub enum ParseErrorKind {
    /// Fewer than two non-blank lines: no initial or no accepting states.
    MissingHeader,
    /// A rule line with fewer than three tokens.
    TooFewTokens,
    /// A rule line whose first token is not `ML`, `MR`, `WS` or `WB`.
    UnknownAction,
    /// A `WS` rule without a symbol to write, or with more than five tokens.
    InvalidWrite,
}

/// A refused program text: the reason, and the offending line as written
/// (empty for [`ParseErrorKind::MissingHeader`]).
#[derive(Debug, Clone)]
pub struct ParseError {
    pub kind: ParseErrorKind,
    pub line: Vec<char>,
}

/// The tokens of a rule line: its space-separated words, empty ones dropped.
pub open spec fn tokens(line: Seq<char>) -> Seq<Seq<char>> {
    non_empty(split_on(trim(line), ' '))
}

/// The lines of a text that are not all white space, in order.
pub open spec fn non_blank(ls: Seq<Seq<char>>) -> Seq<Seq<char>>
    decreases ls.len(),
{
    if ls.len() == 0 {
        ls
    } else if trim(ls.last()).len() > 0 {
        non_blank(ls.drop_last()).push(ls.last())
    } else {
        non_blank(ls.drop_last())
    }
}

/// The action that a rule line's tokens name.
pub open spec fn rule_action(t: Seq<Seq<char>>) -> Result<Action, ParseErrorKind> {
    let code = trim(t[0]);
    if code == seq!['M', 'L'] {
        Ok(Action::MoveLeft)
    } else if code == seq!['M', 'R'] {
        Ok(Action::MoveRight)
    } else if code == seq!['W', 'S'] {
        if t.len() == 5 {
            Ok(Action::Write(TapeCharacter::Symbol(t[4][0])))
        } else if t.len() == 4 {
            Ok(Action::Write(TapeCharacter::Symbol(t[3][0])))
        } else {
            Err(ParseErrorKind::InvalidWrite)
        }
    } else if code == seq!['W', 'B'] {
        Ok(Action::Write(TapeCharacter::Blank))
    } else {
        Err(ParseErrorKind::UnknownAction)
    }
}

/// The cell that a rule line's tokens read: the fourth token's first
/// character in a five-token rule or a four-token rule other than `WS`, else
/// a blank cell.
pub open spec fn rule_read(t: Seq<Seq<char>>) -> TapeCharacter {
    if t.len() == 5 || (t.len() == 4 && trim(t[0]) != seq!['W', 'S']) {
        TapeCharacter::Symbol(t[3][0])
    } else {
        TapeCharacter::Blank
    }
}

/// The transition that one rule line denotes.
pub open spec fn parse_rule_spec(line: Seq<char>) -> Result<TransitionModel, ParseErrorKind> {
    let t = tokens(line);
    if t.len() < 3 {
        Err(ParseErrorKind::TooFewTokens)
    } else {
        match rule_action(t) {
            Err(k) => Err(k),
            Ok(a) => Ok(
                TransitionModel {
                    state: trim(t[1]),
                    read: rule_read(t),
                    action: a,
                    next_state: trim(t[2]),
                },
            ),
        }
    }
}

/// The transitions of the rule lines `ls`, in order, or the first refused
/// line with its reason.
pub open spec fn parse_rules(ls: Seq<Seq<char>>) -> Result<Seq<TransitionModel>, (ParseErrorKind, Seq<char>)>
    decreases ls.len(),
{
    if ls.len() == 0 {
        Ok(Seq::empty())
    } else {
        match parse_rules(ls.drop_last()) {
            Err(e) => Err(e),
            Ok(ts) => match parse_rule_spec(ls.last()) {
                Err(k) => Err((k, ls.last())),
                Ok(t) => Ok(ts.push(t)),
            },
        }
    }
}

/// The machine that a program text denotes, or why it is refused.
pub open spec fn compile_spec(code: Seq<char>) -> Result<MachineModel, (ParseErrorKind, Seq<char>)> {
    let lines = non_blank(split_on(code, '\n'));
    if lines.len() < 2 {
        Err((ParseErrorKind::MissingHeader, Seq::empty()))
    } else {
        match parse_rules(lines.subrange(2, lines.len() as int)) {
            Err(e) => Err(e),
            Ok(ts) => Ok(
                MachineModel {
                    tape: seq![TapeCharacter::Blank],
                    head: 0,
                    state: trim(lines[0]),
                    transitions: ts,
                    accepting: split_on(lines[1], ' '),
                },
            ),
        }
    }
}

pub proof fn lemma_non_empty_tokens(ps: Seq<Seq<char>>)
    ensures
        forall|i: int| 0 <= i < non_empty(ps).len() ==> (#[trigger] non_empty(ps)[i]).len() > 0,
    decreases ps.len(),
{
    if ps.len() > 0 {
        lemma_non_empty_tokens(ps.drop_last());
        let prev = non_empty(ps.drop_last());
        assert forall|i: int| 0 <= i < non_empty(ps).len() implies (#[trigger] non_empty(ps)[i]).len()
            > 0 by {
            if i < prev.len() {
                assert(prev[i].len() > 0);
            }
        }
    }
}

fn is_code(t: &Vec<char>, a: char, b: char) -> (r: bool)
    ensures
        r == (t@ == seq![a, b]),
{
    if t.len() == 2 && t[0] == a && t[1] == b {
        assert(t@ =~= seq![a, b]);
        true
    } else {
        false
    }
}

fn symbol_of(token: &Vec<char>) -> (r: TapeCharacter)
    requires
        token@.len() > 0,
    ensures
        r == TapeCharacter::Symbol(token@[0]),
{
    TapeCharacter::Symbol(token[0])
}

/// Parses one rule line.
pub fn parse_rule(line: &Vec<char>) -> (r: Result<Transition, ParseErrorKind>)
    ensures
        match r {
            Ok(t) => parse_rule_spec(line@) == Ok::<TransitionModel, ParseErrorKind>(t@),
            Err(k) => parse_rule_spec(line@) == Err::<TransitionModel, ParseErrorKind>(k),
        },
{
    let t = drop_empty(split(&trimmed(line), ' '));
    let ghost tv = views(t@);
    proof {
        lemma_non_empty_tokens(split_on(trim(line@), ' '));
    }
    assert(tv == tokens(line@));
    let n = t.len();
    if n < 3 {
        return Err(ParseErrorKind::TooFewTokens);
    }
    assert(forall|i: int| 0 <= i < n ==> t@[i]@ == tv[i] && tv[i].len() > 0);
    let code = trimmed(&t[0]);
    let action = if is_code(&code, 'M', 'L') {
        Action::MoveLeft
    } else if is_code(&code, 'M', 'R') {
        Action::MoveRight
    } else if is_code(&code, 'W', 'S') {
        if n == 5 {
            Action::Write(symbol_of(&t[4]))
        } else if n == 4 {
            Action::Write(symbol_of(&t[3]))
        } else {
            return Err(ParseErrorKind::InvalidWrite);
        }
    } else if is_code(&code, 'W', 'B') {
        Action::Write(TapeCharacter::Blank)
    } else {
        return Err(ParseErrorKind::UnknownAction);
    };
    let read = if n == 5 || (n == 4 && !is_code(&code, 'W', 'S')) {
        symbol_of(&t[3])
    } else {
        TapeCharacter::Blank
    };
    let state = trimmed(&t[1]);
    let next_state = trimmed(&t[2]);
    Ok(Transition { state, read, action, next_state })
}

/// The lines of `ls` that are not all white space, in order.
fn keep_non_blank(ls: &Vec<Vec<char>>) -> (r: Vec<Vec<char>>)
    ensures
        views(r@) == non_blank(views(ls@)),
{
    let ghost all = views(ls@);
    let n = ls.len();
    let mut out: Vec<Vec<char>> = Vec::new();
    let mut i: usize = 0;
    while i < n
        invariant
            n == all.len(),
            i <= n,
            all == views(ls@),
            views(out@) == non_blank(all.take(i as int)),
        decreases n - i,
    {
        assert(all.take(i + 1).drop_last() == all.take(i as int));
        assert(all.take(i + 1).last() == all[i as int]);
        if trimmed(&ls[i]).len() > 0 {
            out.push(copy_chars(&ls[i]));
            assert(views(out@) =~= non_blank(all.take(i as int)).push(all[i as int]));
        } else {
            assert(views(out@) =~= non_blank(all.take(i as int)));
        }
        i = i + 1;
    }
    assert(all.take(n as int) == all);
    out
}

/// Compiles a program text into a machine with a tape of one blank cell, its
/// head on that cell, in the initial state, with the rules as transitions in
/// the order of the text.
pub fn compile_turing_machine(code: &str) -> (r: Result<TuringMachine, ParseError>)
    ensures
        match r {
            Ok(m) => compile_spec(code@) == Ok::<MachineModel, (ParseErrorKind, Seq<char>)>(m@),
            Err(e) => compile_spec(code@) == Err::<MachineModel, (ParseErrorKind, Seq<char>)>(
                (e.kind, e.line@),
            ),
        },
{
    let chars = str_chars(code);
    let lines = keep_non_blank(&split(&chars, '\n'));
    let ghost lv = views(lines@);
    assert(lv == non_blank(split_on(code@, '\n')));
    let n = lines.len();
    if n < 2 {
        return Err(ParseError { kind: ParseErrorKind::MissingHeader, line: Vec::new() });
    }
    let init = trimmed(&lines[0]);
    let accepting = split(&lines[1], ' ');
    let mut tm = TuringMachine::new(init, accepting);
    assert(tm@.accepting =~= split_on(lv[1], ' '));
    let ghost rules = lv.subrange(2, n as int);
    let mut i: usize = 2;
    assert(rules.subrange(0, 0) == Seq::<Seq<char>>::empty());
    assert(tm@.transitions =~= Seq::<TransitionModel>::empty());
    while i < n
        invariant
            2 <= i <= n,
            n == lv.len(),
            lv == views(lines@),
            lv == non_blank(split_on(code@, '\n')),
            rules == lv.subrange(2, n as int),
            tm@.tape == seq![TapeCharacter::Blank],
            tm@.head == 0,
            tm@.state == trim(lv[0]),
            tm@.accepting == split_on(lv[1], ' '),
            parse_rules(rules.subrange(0, i - 2)) == Ok::<
                Seq<TransitionModel>,
                (ParseErrorKind, Seq<char>),
            >(tm@.transitions),
        decreases n - i,
    {
        let ghost k = i - 2;
        assert(rules.subrange(0, k + 1).drop_last() == rules.subrange(0, k));
        assert(rules.subrange(0, k + 1).last() == lines@[i as int]@);
        let ghost before = tm@.transitions;
        match parse_rule(&lines[i]) {
            Ok(t) => {
                tm.transitions.push(t);
                assert(tm@.transitions =~= before.push(t@));
            },
            Err(kind) => {
                proof {
                    lemma_parse_rules_prefix_err(rules, k + 1);
                }
                assert(parse_rules(rules) == Err::<Seq<TransitionModel>, (ParseErrorKind, Seq<char>)>((kind, lines@[i as int]@)));
                return Err(ParseError { kind, line: copy_chars(&lines[i]) });
            },
        }
        i = i + 1;
    }
    assert(rules.subrange(0, n - 2) == rules);
    Ok(tm)
}

/// Whether `code` is one of the action codes `ML`, `MR`, `WS`, `WB`.
pub open spec fn is_action_code(code: Seq<char>) -> bool {
    code == seq!['M', 'L'] || code == seq!['M', 'R'] || code == seq!['W', 'S'] || code == seq![
        'W',
        'B',
    ]
}

/// A rule line with fewer than three tokens, or with an unknown action code,
/// makes the whole program fail to compile.
pub proof fn lemma_bad_rule_line_refused(code: Seq<char>, j: int)
    requires
        2 <= j < non_blank(split_on(code, '\n')).len(),
        ({
            let t = tokens(non_blank(split_on(code, '\n'))[j]);
            t.len() < 3 || !is_action_code(trim(t[0]))
        }),
    ensures
        compile_spec(code) is Err,
{
    let lines = non_blank(split_on(code, '\n'));
    let rules = lines.subrange(2, lines.len() as int);
    lemma_refused_line_refuses_all(rules, j - 2);
}

proof fn lemma_refused_line_refuses_all(ls: Seq<Seq<char>>, j: int)
    requires
        0 <= j < ls.len(),
        parse_rule_spec(ls[j]) is Err,
    ensures
        parse_rules(ls) is Err,
    decreases ls.len(),
{
    if j < ls.len() - 1 {
        lemma_refused_line_refuses_all(ls.drop_last(), j);
    }
}

/// A refusal among the first `k` rule lines is the refusal of them all.
proof fn lemma_parse_rules_prefix_err(ls: Seq<Seq<char>>, k: int)
    requires
        0 <= k <= ls.len(),
        parse_rules(ls.subrange(0, k)) is Err,
    ensures
        parse_rules(ls) == parse_rules(ls.subrange(0, k)),
    decreases ls.len() - k,
{
    if k < ls.len() {
        assert(ls.subrange(0, k + 1).drop_last() == ls.subrange(0, k));
        lemma_parse_rules_prefix_err(ls, k + 1);
    } else {
        assert(ls.subrange(0, k) == ls);
    }
}

} // verus!
