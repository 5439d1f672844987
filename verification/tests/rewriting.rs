use thue::engine::Engine;
use thue::engine::StepOutcome;
use thue::parser::parse_program;
use thue::random::RandomSource;
use thue::rules::patterns_nonempty;
use thue::text::match_offsets;

fn engine_for(src: &[u8]) -> Engine {
    let prog = parse_program(&src.to_vec()).unwrap();
    assert!(patterns_nonempty(&prog.rules));
    Engine::new(prog)
}

#[test]
fn halts_when_no_pattern_occurs() {
    let mut eng = engine_for(b"zz::=y\n::=\nhello");
    let mut rng = RandomSource::new();
    assert!(matches!(eng.step(&mut rng), StepOutcome::Halted));
    assert_eq!(eng.state, b"hello".to_vec());
    // Halting is stable: a further pass finds nothing either.
    assert!(matches!(eng.step(&mut rng), StepOutcome::Halted));
    assert_eq!(eng.state, b"hello".to_vec());
}

#[test]
fn substitution_rewrites_the_occurrence() {
    let mut eng = engine_for(b"a::=b\n::=\na");
    let mut rng = RandomSource::new();
    assert!(matches!(eng.step(&mut rng), StepOutcome::Applied));
    assert_eq!(eng.state, b"b".to_vec());
    assert!(matches!(eng.step(&mut rng), StepOutcome::Halted));
}

#[test]
fn emit_scenario_deletes_and_reports_literal() {
    let mut eng = engine_for(b"hello::=~HELLO\n::=\nhello world");
    let mut rng = RandomSource::new();
    match eng.step(&mut rng) {
        StepOutcome::Emit { literal } => assert_eq!(literal, b"HELLO".to_vec()),
        _ => panic!("expected the output rule to apply"),
    }
    assert_eq!(eng.state, b" world".to_vec());
    assert!(matches!(eng.step(&mut rng), StepOutcome::Halted));
}

#[test]
fn input_capture_scenario_takes_one_line() {
    let mut eng = engine_for(b"X::=:::\n::=\nX");
    let mut rng = RandomSource::new();
    assert!(matches!(eng.step(&mut rng), StepOutcome::AwaitInput));
    assert!(eng.is_awaiting_input());
    eng.supply_input(&b"42".to_vec());
    assert!(!eng.is_awaiting_input());
    assert_eq!(eng.state, b"42".to_vec());
    assert!(matches!(eng.step(&mut rng), StepOutcome::Halted));
}

#[test]
fn random_offset_converges_after_two_passes() {
    let mut eng = engine_for(b"a::=b\n::=\naac");
    let mut rng = RandomSource::new();
    assert!(matches!(eng.step(&mut rng), StepOutcome::Applied));
    assert!(eng.state == b"bac".to_vec() || eng.state == b"abc".to_vec());
    assert!(matches!(eng.step(&mut rng), StepOutcome::Applied));
    assert_eq!(eng.state, b"bbc".to_vec());
    assert!(matches!(eng.step(&mut rng), StepOutcome::Halted));
}

#[test]
fn applied_span_is_a_non_overlapping_occurrence() {
    // The scan for "aa" in "aaaa" reports offsets 0 and 2 only; the overlap
    // at 1 is never rewritten, so one pass yields "xaa" or "aax", never "axa".
    let mut eng = engine_for(b"aa::=x\n::=\naaaa");
    let mut rng = RandomSource::new();
    assert!(matches!(eng.step(&mut rng), StepOutcome::Applied));
    assert!(eng.state == b"xaa".to_vec() || eng.state == b"aax".to_vec());
}

#[test]
fn offsets_scan_is_leftmost_non_overlapping() {
    let offs = match_offsets(&b"aaa".to_vec(), &b"aa".to_vec());
    assert_eq!(offs, vec![0]);
    let offs = match_offsets(&b"aaaa".to_vec(), &b"aa".to_vec());
    assert_eq!(offs, vec![0, 2]);
    let offs = match_offsets(&b"abcabc".to_vec(), &b"bc".to_vec());
    assert_eq!(offs, vec![1, 4]);
    let offs = match_offsets(&b"abc".to_vec(), &b"zz".to_vec());
    assert_eq!(offs, Vec::<usize>::new());
}

#[test]
fn empty_replacement_shrinks_state() {
    let mut eng = engine_for(b"ab::=\n::=\nxabz");
    let mut rng = RandomSource::new();
    assert!(matches!(eng.step(&mut rng), StepOutcome::Applied));
    assert_eq!(eng.state, b"xz".to_vec());
    assert!(matches!(eng.step(&mut rng), StepOutcome::Halted));
}

#[test]
fn seeded_runs_are_reproducible() {
    let mut first = engine_for(b"a::=b\n::=\naac");
    let mut second = engine_for(b"a::=b\n::=\naac");
    let mut rng_first = RandomSource::seeded(7);
    let mut rng_second = RandomSource::seeded(7);
    assert!(matches!(first.step(&mut rng_first), StepOutcome::Applied));
    assert!(matches!(second.step(&mut rng_second), StepOutcome::Applied));
    assert_eq!(first.state, second.state);
}

#[test]
fn several_rules_all_get_their_turn() {
    // Two rules whose patterns both occur; whatever order the shuffle
    // picks, the run ends with both spans rewritten.
    let mut eng = engine_for(b"p::=q\nu::=v\n::=\npu");
    let mut rng = RandomSource::new();
    loop {
        match eng.step(&mut rng) {
            StepOutcome::Halted => break,
            StepOutcome::Applied => {},
            _ => panic!("only substitutions were given"),
        }
    }
    assert_eq!(eng.state, b"qv".to_vec());
}
