use turing_machine::compiler::{compile_turing_machine, parse_rule, ParseErrorKind};
use turing_machine::machine::{Action, TapeCharacter};

fn chars(s: &str) -> Vec<char> {
    s.chars().collect()
}

fn kind_of(text: &str) -> ParseErrorKind {
    match compile_turing_machine(text) {
        Ok(_) => panic!("accepted"),
        Err(e) => e.kind,
    }
}

#[test]
fn too_few_tokens_is_refused() {
    assert_eq!(kind_of("q0\ndone\nML q0\n"), ParseErrorKind::TooFewTokens);
}

#[test]
fn unknown_action_is_refused() {
    assert_eq!(kind_of("q0\ndone\nXX q0 q1\n"), ParseErrorKind::UnknownAction);
}

#[test]
fn write_symbol_without_symbol_is_refused() {
    assert_eq!(kind_of("q0\ndone\nWS q0 q1\n"), ParseErrorKind::InvalidWrite);
    assert_eq!(kind_of("q0\ndone\nWS q0 q1 a b c\n"), ParseErrorKind::InvalidWrite);
}

#[test]
fn missing_header_is_refused() {
    assert_eq!(kind_of(""), ParseErrorKind::MissingHeader);
    assert_eq!(kind_of("  \nq0\n\n"), ParseErrorKind::MissingHeader);
}

#[test]
fn error_reports_the_offending_line() {
    match compile_turing_machine("q0\ndone\nMR q0 q1\n  ML   q0 \nXX a b\n") {
        Ok(_) => panic!("accepted"),
        Err(e) => {
            assert_eq!(e.kind, ParseErrorKind::TooFewTokens);
            assert_eq!(e.line, chars("  ML   q0 "));
        }
    }
}

#[test]
fn header_and_rules_are_read() {
    let tm = compile_turing_machine("\n  q0 \n\nacc  other\r\nMR q0 q1 abc\nWS q1 q2 x\nWS q2 q3 a b\nWB q3 acc\nML  q3\tq4 c\n")
        .unwrap();
    assert_eq!(tm.state, chars("q0"));
    assert_eq!(
        tm.accepting_states,
        vec![chars("acc"), chars(""), chars("other\r")]
    );
    assert_eq!(tm.tape, vec![TapeCharacter::Blank]);
    assert_eq!(tm.head, 0);
    assert_eq!(tm.transitions.len(), 5);
    let t = &tm.transitions[0];
    assert_eq!(t.action, Action::MoveRight);
    assert_eq!(t.read, TapeCharacter::Symbol('a'));
    assert_eq!(t.state, chars("q0"));
    assert_eq!(t.next_state, chars("q1"));
    let t = &tm.transitions[1];
    assert_eq!(t.action, Action::Write(TapeCharacter::Symbol('x')));
    assert_eq!(t.read, TapeCharacter::Blank);
    let t = &tm.transitions[2];
    assert_eq!(t.action, Action::Write(TapeCharacter::Symbol('b')));
    assert_eq!(t.read, TapeCharacter::Symbol('a'));
    let t = &tm.transitions[3];
    assert_eq!(t.action, Action::Write(TapeCharacter::Blank));
    assert_eq!(t.read, TapeCharacter::Blank);
    let t = &tm.transitions[4];
    assert_eq!(t.action, Action::MoveLeft);
    assert_eq!(t.state, chars("q3\tq4"));
    assert_eq!(t.next_state, chars("c"));
    assert_eq!(t.read, TapeCharacter::Blank);
}

#[test]
fn six_token_move_reads_blank() {
    let t = parse_rule(&chars("MR q0 q1 a b c")).unwrap();
    assert_eq!(t.read, TapeCharacter::Blank);
    assert_eq!(t.action, Action::MoveRight);
}

#[test]
fn tokens_keep_only_first_symbol_character() {
    let t = parse_rule(&chars("WS q0 q1 xyz uvw")).unwrap();
    assert_eq!(t.read, TapeCharacter::Symbol('x'));
    assert_eq!(t.action, Action::Write(TapeCharacter::Symbol('u')));
    let t = parse_rule(&chars("WB q0 q1 Δ")).unwrap();
    assert_eq!(t.read, TapeCharacter::Symbol('Δ'));
}
