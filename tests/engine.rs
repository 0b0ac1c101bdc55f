use tapevm::machine::{run, Machine, Step};
use tapevm::program::{preprocess, PreprocessError, Program};

fn load(src: &str) -> Program {
    match preprocess(src) {
        Ok(p) => p,
        Err(e) => panic!("unexpected error {:?}", e),
    }
}

fn output_of(src: &str, lines: &[&str]) -> (Vec<u8>, bool) {
    let p = load(src);
    let lines: Vec<Vec<u8>> = lines.iter().map(|l| l.as_bytes().to_vec()).collect();
    let (m, out) = run(&p, &lines, 100_000);
    (out, m.ip >= p.code.len())
}

#[test]
fn two_increments_then_output() {
    assert_eq!(output_of("++.", &[]), (vec![2u8], true));
}

#[test]
fn loop_clears_cell_and_terminates() {
    let p = load("+[-]");
    let (m, out) = run(&p, &vec![], 1000);
    assert!(out.is_empty());
    assert_eq!(m.ip, 4);
    assert_eq!(m.tape, vec![0u8]);
}

#[test]
fn input_line_is_echoed() {
    assert_eq!(output_of(",.", &["A\n"]), (vec![65u8], true));
}

#[test]
fn comments_are_transparent() {
    let a = load("+ hello +.");
    let b = load("++.");
    assert_eq!(a.code, b.code);
    assert_eq!(output_of("+ hello +.", &[]), output_of("++.", &[]));
}

#[test]
fn unmatched_closer_is_rejected() {
    assert_eq!(preprocess("]").err(), Some(PreprocessError::Unbalanced));
}

#[test]
fn unclosed_opener_is_rejected() {
    assert_eq!(preprocess("+[+").err(), Some(PreprocessError::Unbalanced));
    assert_eq!(preprocess("[]][").err(), Some(PreprocessError::Unbalanced));
}

#[test]
fn stripping_is_idempotent() {
    let p = load("a+b-c >x< [y] ., z\n");
    assert_eq!(p.code, b"+-><[].,".to_vec());
    let again = load(std::str::from_utf8(&p.code).unwrap());
    assert_eq!(again.code, p.code);
}

#[test]
fn stripping_removes_every_other_character() {
    let p = load("x+y");
    assert_eq!(p.code, vec![b'+']);
    let p = load("héllo wörld 123 !#$%&*/=?@^_{|}~");
    assert!(p.code.is_empty());
}

#[test]
fn jump_table_is_symmetric() {
    let p = load("+[>[-]<-]");
    assert_eq!(p.jumps[1], 8);
    assert_eq!(p.jumps[8], 1);
    assert_eq!(p.jumps[3], 5);
    assert_eq!(p.jumps[5], 3);
    for i in 0..p.code.len() {
        if p.code[i] == b'[' || p.code[i] == b']' {
            assert_eq!(p.jumps[p.jumps[i]], i);
        }
    }
}

#[test]
fn increment_wraps_to_zero() {
    let p = load("+");
    let mut m = Machine::new();
    m.tape[0] = 255;
    assert_eq!(m.step(&p), Step::Continue);
    assert_eq!(m.tape[0], 0);
}

#[test]
fn decrement_wraps_to_max() {
    assert_eq!(output_of("-.", &[]), (vec![255u8], true));
}

#[test]
fn moving_right_appends_one_zero_cell() {
    let p = load(">><>");
    let mut m = Machine::new();
    m.step(&p);
    assert_eq!(m.tape, vec![0u8, 0]);
    assert_eq!(m.dp, 1);
    m.step(&p);
    assert_eq!(m.tape, vec![0u8, 0, 0]);
    m.step(&p);
    assert_eq!(m.dp, 1);
    m.step(&p);
    assert_eq!(m.tape, vec![0u8, 0, 0]);
    assert_eq!(m.dp, 2);
}

#[test]
fn moving_left_at_zero_stays() {
    let p = load("<+.");
    let (m, out) = run(&p, &vec![], 10);
    assert_eq!(m.dp, 0);
    assert_eq!(out, vec![1u8]);
}

#[test]
fn loop_on_zero_cell_is_skipped() {
    assert_eq!(output_of("[+.]", &[]), (vec![], true));
}

#[test]
fn loop_runs_until_cell_is_zero() {
    assert_eq!(output_of("+++[.-]", &[]), (vec![3u8, 2, 1], true));
}

#[test]
fn nested_loops_multiply() {
    assert_eq!(output_of("++[>+++[>++<-]<-]>>.", &[]), (vec![12u8], true));
}

#[test]
fn input_at_end_leaves_cell() {
    assert_eq!(output_of("+,.", &[]), (vec![1u8], true));
}

#[test]
fn input_line_is_consumed_byte_by_byte() {
    assert_eq!(output_of(",.,.,.", &["hi\n"]), (b"hi\n".to_vec(), true));
    assert_eq!(output_of(",,.,.", &["a\n", "b\n"]), (b"\nb".to_vec(), true));
}

#[test]
fn step_asks_for_input_then_resumes() {
    let p = load(",.");
    let mut m = Machine::new();
    assert_eq!(m.step(&p), Step::NeedInput);
    assert_eq!(m.ip, 0);
    m.supply_input(&p, b"xy".to_vec());
    assert_eq!(m.ip, 1);
    assert_eq!(m.tape[0], b'x');
    assert_eq!(m.input, vec![b'y']);
    assert_eq!(m.step(&p), Step::Output(b'x'));
    assert_eq!(m.step(&p), Step::Halted);
}

#[test]
fn empty_line_completes_input() {
    let p = load(",");
    let mut m = Machine::new();
    assert_eq!(m.step(&p), Step::NeedInput);
    m.supply_input(&p, vec![]);
    assert_eq!(m.ip, 1);
    assert_eq!(m.tape, vec![0u8]);
}

#[test]
fn endless_loop_stops_at_step_budget() {
    let p = load("+[]");
    let (m, out) = run(&p, &vec![], 50);
    assert!(out.is_empty());
    assert!(m.ip < p.code.len());
}

#[test]
fn empty_program_halts_at_once() {
    let p = load("no instructions here");
    let mut m = Machine::new();
    assert_eq!(m.step(&p), Step::Halted);
}
