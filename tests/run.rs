use brainwasm::machine::{Action, Machine};
use brainwasm::parse::parse;

fn run(source: &str, input: &[u8]) -> (Vec<u8>, usize) {
    let mut m = Machine::new(parse(source).unwrap());
    let mut out = Vec::new();
    let mut input = input.iter();
    let mut steps = 0;
    loop {
        match m.step() {
            Action::Continue => {}
            Action::Output(b) => out.push(b),
            Action::Input => m.feed(*input.next().unwrap()),
            Action::Halt => return (out, steps),
        }
        steps += 1;
    }
}

#[test]
fn empty_program_halts_at_once() {
    let mut m = Machine::new(parse("").unwrap());
    assert_eq!(m.step(), Action::Halt);
    assert_eq!(m.cell(), 0);
    assert_eq!(m.cursor(), 0);
}

#[test]
fn program_without_io_halts_without_output() {
    let (out, _) = run("+++[->++<]>[-]<", &[]);
    assert!(out.is_empty());
}

#[test]
fn plus_plus_dot_writes_two() {
    let (out, _) = run("++.", &[]);
    assert_eq!(out, vec![2]);
}

#[test]
fn read_then_write_echoes() {
    let (out, _) = run(",.,+.", &[7, 40]);
    assert_eq!(out, vec![7, 41]);
}

#[test]
fn loops_multiply() {
    let (out, _) = run("++++[>+++<-]>.", &[]);
    assert_eq!(out, vec![12]);
}

#[test]
fn nested_loops_run() {
    let (out, _) = run("++[>++[>+++<-]<-]>>.", &[]);
    assert_eq!(out, vec![12]);
}

#[test]
fn cell_and_cursor_wrap_while_running() {
    let (out, _) = run("-.<+.>.", &[]);
    assert_eq!(out, vec![255, 1, 255]);
}

#[test]
fn hello_prints() {
    let src = "++++++++[>++++[>++>+++>+++>+<<<<-]>+>+>->>+[<]<-]>>.>---.+++++++..+++.>>.<-.<.+++.------.--------.>>+.";
    let (out, _) = run(src, &[]);
    assert_eq!(out, b"Hello World!".to_vec());
}

#[test]
fn step_reports_input_until_fed() {
    let mut m = Machine::new(parse(",").unwrap());
    assert_eq!(m.step(), Action::Input);
    m.feed(9);
    assert_eq!(m.cell(), 9);
    assert_eq!(m.step(), Action::Halt);
}
