use thue::parser::ParseError;
use thue::parser::get_rule_params;
use thue::parser::parse_program;
use thue::parser::parse_rules;
use thue::parser::split_lines;
use thue::rules::Input;
use thue::rules::Output;
use thue::rules::Rule;
use thue::rules::Substitution;

fn lines_of(src: &[u8]) -> Vec<Vec<u8>> {
    split_lines(&src.to_vec())
}

#[test]
fn rule_params_split_at_first_delimiter() {
    let r = get_rule_params(&b"a::=b".to_vec());
    assert_eq!(r, Some((b"a".to_vec(), b"b".to_vec())));
    let r = get_rule_params(&b"x::=y::=z".to_vec());
    assert_eq!(r, Some((b"x".to_vec(), b"y::=z".to_vec())));
    let r = get_rule_params(&b"::=".to_vec());
    assert_eq!(r, Some((b"".to_vec(), b"".to_vec())));
}

#[test]
fn rule_params_need_the_delimiter() {
    assert_eq!(get_rule_params(&b"hello".to_vec()), None);
    assert_eq!(get_rule_params(&b"".to_vec()), None);
    assert_eq!(get_rule_params(&b"::".to_vec()), None);
    assert_eq!(get_rule_params(&b":=:=".to_vec()), None);
}

#[test]
fn split_lines_on_line_breaks() {
    let lines = lines_of(b"a\nbc\nd");
    assert_eq!(lines, vec![b"a".to_vec(), b"bc".to_vec(), b"d".to_vec()]);
}

#[test]
fn split_lines_trailing_break_closes_last_line() {
    let lines = lines_of(b"a\nbc\n");
    assert_eq!(lines, vec![b"a".to_vec(), b"bc".to_vec()]);
    assert_eq!(lines_of(b""), Vec::<Vec<u8>>::new());
    assert_eq!(lines_of(b"\n"), vec![b"".to_vec()]);
}

#[test]
fn substitution_rule_classified() {
    let prog = parse_program(&b"a::=b\n::=\n".to_vec()).unwrap();
    assert_eq!(prog.rules.len(), 1);
    match &prog.rules[0] {
        Rule::Substitution(s) => {
            assert_eq!(s.original, b"a".to_vec());
            assert_eq!(s.substitute, b"b".to_vec());
        },
        _ => panic!("expected a substitution rule"),
    }
}

#[test]
fn input_rule_classified() {
    let prog = parse_program(&b"X::=:::\n::=\n".to_vec()).unwrap();
    assert_eq!(prog.rules.len(), 1);
    match &prog.rules[0] {
        Rule::Input(i) => assert_eq!(i.original, b"X".to_vec()),
        _ => panic!("expected an input rule"),
    }
}

#[test]
fn output_rule_classified() {
    let prog = parse_program(&b"hello::=~HELLO\n::=\n".to_vec()).unwrap();
    assert_eq!(prog.rules.len(), 1);
    match &prog.rules[0] {
        Rule::Output(o) => {
            assert_eq!(o.original, b"hello".to_vec());
            assert_eq!(o.output, b"HELLO".to_vec());
        },
        _ => panic!("expected an output rule"),
    }
}

#[test]
fn output_empty_literal_defaults_to_line_break() {
    let prog = parse_program(&b"x::=~\n::=\n".to_vec()).unwrap();
    match &prog.rules[0] {
        Rule::Output(o) => assert_eq!(o.output, b"\n".to_vec()),
        _ => panic!("expected an output rule"),
    }
}

#[test]
fn input_marker_must_be_exact() {
    // A spec that merely contains the marker is an ordinary substitution.
    let prog = parse_program(&b"x::=::: \n::=\n".to_vec()).unwrap();
    match &prog.rules[0] {
        Rule::Substitution(s) => assert_eq!(s.substitute, b"::: ".to_vec()),
        _ => panic!("expected a substitution rule"),
    }
    let prog = parse_program(&b"x::=::::\n::=\n".to_vec()).unwrap();
    assert!(matches!(&prog.rules[0], Rule::Substitution(_)));
}

#[test]
fn lone_delimiter_terminates_rule_list() {
    let prog = parse_program(&b"::=\nbody".to_vec()).unwrap();
    assert_eq!(prog.rules.len(), 0);
    assert_eq!(prog.state, b"body".to_vec());
}

#[test]
fn blank_sides_terminate_rule_list() {
    let prog = parse_program(&b" ::= \t\nbody".to_vec()).unwrap();
    assert_eq!(prog.rules.len(), 0);
    assert_eq!(prog.state, b"body".to_vec());
}

#[test]
fn empty_pattern_with_replacement_is_rejected() {
    let r = parse_program(&b"::=x\n::=\n".to_vec());
    assert_eq!(r.err(), Some(ParseError::EmptyPattern));
    let r = parse_program(&b"  ::=y\n::=\n".to_vec());
    assert_eq!(r.err(), Some(ParseError::EmptyPattern));
}

#[test]
fn missing_terminator_is_rejected() {
    let r = parse_program(&b"a::=b".to_vec());
    assert_eq!(r.err(), Some(ParseError::MissingTerminator));
    let r = parse_program(&b"a::=b\n".to_vec());
    assert_eq!(r.err(), Some(ParseError::MissingTerminator));
    let r = parse_program(&b"".to_vec());
    assert_eq!(r.err(), Some(ParseError::MissingTerminator));
}

#[test]
fn line_without_delimiter_is_rejected() {
    let r = parse_program(&b"abc\n::=\n".to_vec());
    assert_eq!(r.err(), Some(ParseError::MissingDelimiter));
}

#[test]
fn state_strips_all_line_breaks() {
    let prog = parse_program(&b"::=\nab\ncd\n".to_vec()).unwrap();
    assert_eq!(prog.state, b"abcd".to_vec());
}

#[test]
fn state_empty_without_body() {
    let prog = parse_program(&b"::=\n".to_vec()).unwrap();
    assert_eq!(prog.state, b"".to_vec());
    let prog = parse_program(&b"::=".to_vec()).unwrap();
    assert_eq!(prog.state, b"".to_vec());
}

#[test]
fn parse_rules_reports_resume_index() {
    let lines = lines_of(b"a::=b\n::=\nbody\nmore");
    let (rules, rest) = parse_rules(&lines).unwrap();
    assert_eq!(rules.len(), 1);
    assert_eq!(rest, 2);
}

#[test]
fn substitution_production_is_pure() {
    let s = Substitution::new(&b"a".to_vec(), &b"b".to_vec());
    assert_eq!(s.original(), &b"a".to_vec());
    assert_eq!(s.substitution(), &b"b".to_vec());
    assert_eq!(s.substitution(), &b"b".to_vec());
}

#[test]
fn constructors_keep_their_fields() {
    let i = Input::new(&b"X".to_vec());
    assert_eq!(i.original(), &b"X".to_vec());
    let o = Output::new(&b"p".to_vec(), &b"lit".to_vec());
    assert_eq!(o.original(), &b"p".to_vec());
    assert_eq!(o.literal(), &b"lit".to_vec());
    let o = Output::new(&b"p".to_vec(), &b"".to_vec());
    assert_eq!(o.literal(), &b"\n".to_vec());
}
