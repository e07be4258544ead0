use turing_machine::compiler::compile_turing_machine;
use turing_machine::machine::{Status, TapeCharacter, TuringMachine};

const BINARY_INVERT: &str = "q0
done
MR q0 q1
WS q1 q2 0 1
WS q1 q2 1 0
MR q2 q1 0
MR q2 q1 1
MR q1 done
";

const PALINDROME: &str = "q0
acc

MR q0 q1
WB q1 acc
WB q1 ra a
WB q1 rb b
WB q1 rc c
MR ra sa
MR rb sb
MR rc sc
MR sa sa a
MR sa sa b
MR sa sa c
ML sa ca
MR sb sb a
MR sb sb b
MR sb sb c
ML sb cb
MR sc sc a
MR sc sc b
MR sc sc c
ML sc cc
WB ca ba a
WB cb ba b
WB cc ba c
WB ca acc
WB cb acc
WB cc acc
ML ba back
ML back back a
ML back back b
ML back back c
MR back q1
";

const A_N_TO_A_N_B_N: &str = "q0
acc
MR q0 v
MR v v a
ML v back
ML back back a
MR back q1
WB q1 acc
WS q1 r a x
MR r r x
MR r r a
MR r r b
WS r l b
ML l l b
ML l l a
MR l q1 x
ML q1 fix b
WS fix fix2 x a
ML fix2 fix a
WB fix acc
";

fn compiled(text: &str) -> TuringMachine {
    match compile_turing_machine(text) {
        Ok(m) => m,
        Err(e) => panic!("refused: {:?}", e),
    }
}

fn symbols(tm: &TuringMachine) -> String {
    tm.tape
        .iter()
        .filter_map(|c| match c {
            TapeCharacter::Blank => None,
            TapeCharacter::Symbol(s) => Some(*s),
        })
        .collect()
}

fn label(v: &[char]) -> String {
    v.iter().collect()
}

fn run_on(text: &str, input: &str) -> (bool, TuringMachine) {
    let mut tm = compiled(text);
    tm.set_tape(input);
    let r = tm.run();
    (r, tm)
}

#[test]
fn binary_inversion_flips_every_bit() {
    let (r, tm) = run_on(BINARY_INVERT, "0101");
    assert!(r);
    assert_eq!(symbols(&tm), "1010");
    assert_eq!(label(&tm.state), "done");
}

#[test]
fn palindrome_accepts_abba() {
    let (r, _) = run_on(PALINDROME, "abba");
    assert!(r);
}

#[test]
fn palindrome_rejects_abc() {
    let (r, tm) = run_on(PALINDROME, "abc");
    assert!(!r);
    assert_eq!(label(&tm.state), "ca");
}

#[test]
fn palindrome_accepts_odd_and_empty() {
    assert!(run_on(PALINDROME, "aba").0);
    assert!(run_on(PALINDROME, "c").0);
    assert!(run_on(PALINDROME, "").0);
    assert!(!run_on(PALINDROME, "ab").0);
}

#[test]
fn a_n_becomes_a_n_b_n() {
    let (r, tm) = run_on(A_N_TO_A_N_B_N, "aaa");
    assert!(r);
    assert_eq!(symbols(&tm), "aaabbb");
}

#[test]
fn a_n_b_n_rejects_malformed_input() {
    let (r, _) = run_on(A_N_TO_A_N_B_N, "aab");
    assert!(!r);
}

#[test]
fn empty_input_gives_two_blank_cells() {
    let mut tm = compiled("q0\ndone\nWS q0 done z\n");
    tm.set_tape("");
    assert_eq!(tm.tape, vec![TapeCharacter::Blank, TapeCharacter::Blank]);
    assert_eq!(tm.head, 0);
    assert!(tm.run());
    assert_eq!(tm.tape, vec![TapeCharacter::Symbol('z'), TapeCharacter::Blank]);
}

#[test]
fn set_tape_puts_head_on_leading_blank() {
    let mut tm = compiled("q0\ndone\n");
    tm.set_tape("ab");
    assert_eq!(
        tm.tape,
        vec![
            TapeCharacter::Blank,
            TapeCharacter::Symbol('a'),
            TapeCharacter::Symbol('b'),
            TapeCharacter::Blank
        ]
    );
    assert_eq!(tm.head, 0);
    assert_eq!(label(&tm.state), "q0");
}

#[test]
fn earlier_transition_wins() {
    let mut tm = compiled("q0\ndone\nWS q0 done x\nWS q0 done y\n");
    tm.set_tape("");
    assert!(tm.run());
    assert_eq!(tm.tape[0], TapeCharacter::Symbol('x'));
    let mut tm = compiled("q0\ndone\nWS q0 done y\nMR q1 q0\nWS q0 done x\n");
    tm.set_tape("");
    assert!(tm.run());
    assert_eq!(tm.tape[0], TapeCharacter::Symbol('y'));
}

#[test]
fn no_matching_transition_rejects() {
    let (r, tm) = run_on("q0\ndone\nMR q0 q1\n", "a");
    assert!(!r);
    assert_eq!(label(&tm.state), "q1");
    assert_eq!(tm.head, 1);
}

#[test]
fn rejected_in_accepting_start_state() {
    let (r, tm) = run_on("q0\nq0\nMR q1 q0\n", "a");
    assert!(!r);
    assert_eq!(label(&tm.state), "q0");
}

#[test]
fn move_left_at_edge_prepends_and_retries() {
    let mut tm = compiled("q0\ndone\nML q0 q1\n");
    tm.set_tape("");
    assert_eq!(tm.run_bounded(5), Status::Running);
    assert_eq!(tm.tape.len(), 7);
    assert_eq!(tm.head, 0);
    assert_eq!(label(&tm.state), "q0");
}

#[test]
fn move_left_at_edge_then_other_rule() {
    // After the blank is prepended, the rule for the new cell applies.
    let mut tm = compiled("q0\ndone\nML q0 q1 a\nWS q0 done z\n");
    tm.set_tape("");
    tm.tape[0] = TapeCharacter::Symbol('a');
    assert!(tm.run());
    assert_eq!(
        tm.tape,
        vec![TapeCharacter::Symbol('z'), TapeCharacter::Symbol('a'), TapeCharacter::Blank]
    );
}

#[test]
fn move_right_appends_blank_at_end() {
    let mut tm = compiled("q0\ndone\nMR q0 q0\n");
    tm.set_tape("");
    assert_eq!(tm.step(), Status::Running);
    assert_eq!(tm.head, 1);
    assert_eq!(tm.tape.len(), 2);
    assert_eq!(tm.step(), Status::Running);
    assert_eq!(tm.head, 2);
    assert_eq!(tm.tape.len(), 3);
}

#[test]
fn tape_never_shrinks_on_a_run() {
    let mut tm = compiled(A_N_TO_A_N_B_N);
    tm.set_tape("aa");
    let mut len = tm.tape.len();
    loop {
        let s = tm.step();
        assert!(tm.tape.len() >= len);
        len = tm.tape.len();
        if s != Status::Running {
            assert_eq!(s, Status::Accepted);
            break;
        }
    }
}

#[test]
fn clones_run_alike() {
    let tm = compiled(PALINDROME);
    let mut a = tm.clone();
    let mut b = tm.clone();
    a.set_tape("abcba");
    b.set_tape("abcba");
    assert_eq!(a.run(), b.run());
    assert_eq!(a.tape, b.tape);
    assert_eq!(a.head, b.head);
    assert_eq!(a.state, b.state);
}

#[test]
fn bounded_run_stops_at_budget() {
    let mut tm = compiled(BINARY_INVERT);
    tm.set_tape("0101");
    assert_eq!(tm.run_bounded(0), Status::Running);
    assert_eq!(tm.run_bounded(2), Status::Running);
    assert_eq!(symbols(&tm), "1101");
    assert_eq!(tm.run_bounded(1000), Status::Accepted);
    assert_eq!(symbols(&tm), "1010");
}

const POW2_A: &str = "q0
acc
MR q0 s
MR s s x
MR s one a
MR one one x
WB one acc
WS one even a x
MR even even x
MR even odd a
ML even back
MR odd odd x
WS odd even a x
ML back back x
ML back back a
MR back s
";

#[test]
fn power_of_two_count_of_a() {
    let expected = [false, true, true, false, true, false, false, false, true, false];
    for (n, want) in expected.iter().enumerate() {
        let input: String = std::iter::repeat('a').take(n).collect();
        assert_eq!(run_on(POW2_A, &input).0, *want, "n = {}", n);
    }
}

#[test]
fn tape_picture_marks_head_and_blanks() {
    let mut tm = compiled(BINARY_INVERT);
    tm.set_tape("01");
    assert_eq!(tm.tape_picture().iter().collect::<String>(), "'|Δ01Δ'");
    tm.run_bounded(1);
    assert_eq!(tm.tape_picture().iter().collect::<String>(), "'Δ|01Δ'");
}

#[test]
fn new_machine_is_blank() {
    let tm = TuringMachine::new(vec!['s'], vec![vec!['t']]);
    assert_eq!(tm.tape, vec![TapeCharacter::Blank]);
    assert_eq!(tm.head, 0);
    assert!(tm.transitions.is_empty());
}
