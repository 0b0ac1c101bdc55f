//! The tape machine: one instruction per step, with input and output left to
//! the caller.
use crate::program::{matched, Program, CLOSE, COMMA, DOT, LEFT, MINUS, OPEN, PLUS, RIGHT};
use vstd::prelude::*;

verus! {

/// What a step asks of the caller.
#[derive(Clone, Copy, Debug, PartialEq, Eq, Structural)]
pub enum Step {
    /// An instruction ran; nothing to do.
    Continue,
    /// An output instruction ran: write this byte.
    Output(u8),
    /// An input instruction is due and no input is pending: read a line and
    /// hand it to `supply_input`.
    NeedInput,
    /// The instruction pointer is past the end of the stream.
    Halted,
}

/// The execution state: tape, data pointer, instruction pointer and the
/// pending input bytes.
pub struct Machine {
    pub tape: Vec<u8>,
    pub dp: usize,
    pub ip: usize,
    pub input: Vec<u8>,
}

/// A machine's state as mathematical values.
pub struct MachineView {
    pub tape: Seq<u8>,
    pub dp: int,
    pub ip: int,
    pub input: Seq<u8>,
}

impl View for Machine {
    type V = MachineView;

    open spec fn view(&self) -> MachineView {
        MachineView { tape: self.tape@, dp: self.dp as int, ip: self.ip as int, input: self.input@ }
    }
}

/// The data pointer names a cell and the instruction pointer is at most one
/// past the last instruction.
pub open spec fn valid(code: Seq<u8>, s: MachineView) -> bool {
    &&& 0 <= s.dp < s.tape.len()
    &&& 0 <= s.ip <= code.len()
}

/// A cell after `+`: one more, modulo 256.
pub open spec fn inc(c: u8) -> u8 {
    ((c + 1) % 256) as u8
}

/// A cell after `-`: one less, modulo 256.
pub open spec fn dec(c: u8) -> u8 {
    ((c + 255) % 256) as u8
}

/// What the instruction at the instruction pointer asks of the caller.
pub open spec fn event(code: Seq<u8>, s: MachineView) -> Step {
    if s.ip >= code.len() {
        Step::Halted
    } else if code[s.ip] == DOT {
        Step::Output(s.tape[s.dp])
    } else if code[s.ip] == COMMA && s.input.len() == 0 {
        Step::NeedInput
    } else {
        Step::Continue
    }
}

/// The state after the instruction at the instruction pointer; unchanged when
/// the machine has halted or waits for input.
pub open spec fn next(code: Seq<u8>, jumps: Seq<usize>, s: MachineView) -> MachineView {
    if s.ip >= code.len() {
        s
    } else {
        let op = code[s.ip];
        let cell = s.tape[s.dp];
        if op == PLUS {
            MachineView { tape: s.tape.update(s.dp, inc(cell)), ip: s.ip + 1, ..s }
        } else if op == MINUS {
            MachineView { tape: s.tape.update(s.dp, dec(cell)), ip: s.ip + 1, ..s }
        } else if op == RIGHT {
            let tape = if s.dp + 1 >= s.tape.len() {
                s.tape.push(0)
            } else {
                s.tape
            };
            MachineView { tape, dp: s.dp + 1, ip: s.ip + 1, ..s }
        } else if op == LEFT {
            MachineView { dp: if s.dp > 0 { s.dp - 1 } else { 0 }, ip: s.ip + 1, ..s }
        } else if op == COMMA {
            if s.input.len() == 0 {
                s
            } else {
                MachineView {
                    tape: s.tape.update(s.dp, s.input[0]),
                    input: s.input.drop_first(),
                    ip: s.ip + 1,
                    ..s
                }
            }
        } else if op == OPEN {
            MachineView { ip: if cell == 0 { jumps[s.ip] + 1 } else { s.ip + 1 }, ..s }
        } else if op == CLOSE {
            MachineView { ip: if cell != 0 { jumps[s.ip] + 1 } else { s.ip + 1 }, ..s }
        } else {
            MachineView { ip: s.ip + 1, ..s }
        }
    }
}

/// The state after an input instruction whose line was read as `line`: the
/// first byte of the line, if any, goes to the cell, the rest stays pending.
pub open spec fn after_line(code: Seq<u8>, jumps: Seq<usize>, s: MachineView, line: Seq<u8>) -> MachineView {
    let t = MachineView { input: line, ..s };
    if line.len() == 0 {
        MachineView { ip: s.ip + 1, ..t }
    } else {
        next(code, jumps, t)
    }
}

impl Machine {
    /// A tape of one zero cell, both pointers at 0, no pending input.
    pub fn new() -> (m: Machine)
        ensures
            m@ == initial(),
    {
        let m = Machine { tape: vec![0u8], dp: 0, ip: 0, input: Vec::new() };
        assert(m@.tape =~= initial().tape);
        assert(m@.input =~= initial().input);
        m
    }

    /// Executes the instruction at the instruction pointer, unless the machine
    /// has halted or the instruction needs input that is not pending.
    pub fn step(&mut self, p: &Program) -> (r: Step)
        requires
            p.wf(),
            valid(p.code@, old(self)@),
        ensures
            r == event(p.code@, old(self)@),
            final(self)@ == next(p.code@, p.jumps@, old(self)@),
            valid(p.code@, final(self)@),
    {
        if self.ip >= p.code.len() {
            return Step::Halted;
        }
        let op = p.code[self.ip];
        let dp = self.dp;
        let mut r = Step::Continue;
        if op == PLUS {
            if self.tape[dp] == 255 {
                self.tape.set(dp, 0);
            } else {
                let v = self.tape[dp] + 1;
                self.tape.set(dp, v);
            }
        } else if op == MINUS {
            if self.tape[dp] == 0 {
                self.tape.set(dp, 255);
            } else {
                let v = self.tape[dp] - 1;
                self.tape.set(dp, v);
            }
        } else if op == RIGHT {
            let len = self.tape.len();
            if dp + 1 >= len {
                self.tape.push(0);
            }
            self.dp = dp + 1;
        } else if op == LEFT {
            if dp > 0 {
                self.dp = dp - 1;
            }
        } else if op == DOT {
            r = Step::Output(self.tape[dp]);
        } else if op == COMMA {
            if self.input.len() == 0 {
                return Step::NeedInput;
            }
            let b = self.input.remove(0);
            self.tape.set(dp, b);
        } else if op == OPEN {
            if self.tape[dp] == 0 {
                self.ip = p.jumps[self.ip];
            }
        } else if op == CLOSE {
            if self.tape[dp] != 0 {
                self.ip = p.jumps[self.ip];
            }
        }
        self.ip = self.ip + 1;
        proof {
            assert(self@.tape =~= next(p.code@, p.jumps@, old(self)@).tape);
            assert(self@.input =~= next(p.code@, p.jumps@, old(self)@).input);
        }
        r
    }

    /// Completes an input instruction that was waiting, with `line` as the
    /// line that was read (empty at the end of input).
    pub fn supply_input(&mut self, p: &Program, line: Vec<u8>)
        requires
            p.wf(),
            valid(p.code@, old(self)@),
            event(p.code@, old(self)@) == Step::NeedInput,
        ensures
            final(self)@ == after_line(p.code@, p.jumps@, old(self)@, line@),
            valid(p.code@, final(self)@),
    {
        let n = p.code.len();
        assert(self.ip < n);
        self.input = line;
        if self.input.len() == 0 {
            self.ip = self.ip + 1;
        } else {
            self.step(p);
        }
    }
}

/// Cell arithmetic wraps: incrementing 255 gives 0 and decrementing 0 gives 255.
pub proof fn lemma_wraparound(code: Seq<u8>, jumps: Seq<usize>, s: MachineView)
    requires
        valid(code, s),
        s.ip < code.len(),
    ensures
        code[s.ip] == PLUS && s.tape[s.dp] == 255 ==> next(code, jumps, s).tape[s.dp] == 0,
        code[s.ip] == MINUS && s.tape[s.dp] == 0 ==> next(code, jumps, s).tape[s.dp] == 255,
{
}

/// The tape never shrinks. Moving right off its last cell appends exactly one
/// zero cell; no other step changes its length, completing an input
/// instruction included.
pub proof fn lemma_tape_growth(code: Seq<u8>, jumps: Seq<usize>, s: MachineView, line: Seq<u8>)
    requires
        valid(code, s),
    ensures
        event(code, s) == Step::NeedInput ==> after_line(code, jumps, s, line).tape.len()
            == s.tape.len(),
        next(code, jumps, s).tape.len() >= s.tape.len(),
        s.ip < code.len() && code[s.ip] == RIGHT && s.dp + 1 == s.tape.len() ==> next(
            code,
            jumps,
            s,
        ).tape == s.tape.push(0) && next(code, jumps, s).dp == s.dp + 1,
        !(s.ip < code.len() && code[s.ip] == RIGHT && s.dp + 1 == s.tape.len()) ==> next(
            code,
            jumps,
            s,
        ).tape.len() == s.tape.len(),
{
}

/// An opening bracket on a zero cell skips to just past its closing bracket,
/// so the body runs zero times; on a non-zero cell it enters the body. A
/// closing bracket re-checks the cell: non-zero goes back to the first
/// instruction of the body, zero leaves the loop. Brackets change no cell.
pub proof fn lemma_loop(p: &Program, s: MachineView)
    requires
        p.wf(),
        valid(p.code@, s),
        s.ip < p.code@.len(),
    ensures
        next(p.code@, p.jumps@, s).tape == s.tape || !(p.code@[s.ip] == OPEN || p.code@[s.ip]
            == CLOSE),
        p.code@[s.ip] == OPEN && s.tape[s.dp] == 0 ==> matched(
            p.code@,
            s.ip,
            next(p.code@, p.jumps@, s).ip - 1,
        ),
        p.code@[s.ip] == OPEN && s.tape[s.dp] != 0 ==> next(p.code@, p.jumps@, s).ip == s.ip + 1,
        p.code@[s.ip] == CLOSE && s.tape[s.dp] != 0 ==> matched(
            p.code@,
            next(p.code@, p.jumps@, s).ip - 1,
            s.ip,
        ),
        p.code@[s.ip] == CLOSE && s.tape[s.dp] == 0 ==> next(p.code@, p.jumps@, s).ip == s.ip + 1,
{
}

/// The state of a fresh machine.
pub open spec fn initial() -> MachineView {
    MachineView { tape: seq![0u8], dp: 0, ip: 0, input: Seq::empty() }
}

/// The line that an input instruction reads when `k` lines have been read:
/// the next one, or an empty line once they have run out.
pub open spec fn line_at(lines: Seq<Vec<u8>>, k: int) -> Seq<u8> {
    if 0 <= k < lines.len() {
        lines[k]@
    } else {
        Seq::empty()
    }
}

/// At most `fuel` steps from `s`, with `k` of `lines` already read: the state
/// reached and the bytes written.
pub open spec fn run_from(
    code: Seq<u8>,
    jumps: Seq<usize>,
    s: MachineView,
    lines: Seq<Vec<u8>>,
    k: int,
    fuel: nat,
) -> (MachineView, Seq<u8>)
    decreases fuel,
{
    if fuel == 0 || s.ip >= code.len() {
        (s, Seq::empty())
    } else {
        match event(code, s) {
            Step::NeedInput => run_from(
                code,
                jumps,
                after_line(code, jumps, s, line_at(lines, k)),
                lines,
                k + 1,
                (fuel - 1) as nat,
            ),
            Step::Output(b) => {
                let r = run_from(code, jumps, next(code, jumps, s), lines, k, (fuel - 1) as nat);
                (r.0, seq![b] + r.1)
            },
            _ => run_from(code, jumps, next(code, jumps, s), lines, k, (fuel - 1) as nat),
        }
    }
}

/// Runs `p` on a fresh machine for at most `fuel` steps, reading input lines
/// from `lines` (an empty line once they run out). Returns the machine, which
/// has halted when its instruction pointer is past the stream, and the bytes
/// written.
pub fn run(p: &Program, lines: &Vec<Vec<u8>>, fuel: usize) -> (r: (Machine, Vec<u8>))
    requires
        p.wf(),
    ensures
        valid(p.code@, r.0@),
        (r.0@, r.1@) == run_from(p.code@, p.jumps@, initial(), lines@, 0, fuel as nat),
{
    let mut m = Machine::new();
    let mut out: Vec<u8> = Vec::new();
    let mut k: usize = 0;
    let mut left: usize = fuel;
    proof {
        assert(out@ + run_from(p.code@, p.jumps@, m@, lines@, 0, fuel as nat).1 =~= run_from(
            p.code@,
            p.jumps@,
            m@,
            lines@,
            0,
            fuel as nat,
        ).1);
    }
    while left > 0 && m.ip < p.code.len()
        invariant
            p.wf(),
            valid(p.code@, m@),
            k + left <= fuel,
            run_from(p.code@, p.jumps@, initial(), lines@, 0, fuel as nat) == (
                run_from(p.code@, p.jumps@, m@, lines@, k as int, left as nat).0,
                out@ + run_from(p.code@, p.jumps@, m@, lines@, k as int, left as nat).1,
            ),
        decreases left,
    {
        let ghost s = m@;
        let ghost out0 = out@;
        let ghost k0 = k as int;
        let e = m.step(p);
        match e {
            Step::NeedInput => {
                let line = if k < lines.len() {
                    let l = lines[k].clone();
                    assert(l@ =~= lines@[k as int]@);
                    l
                } else {
                    Vec::new()
                };
                assert(line@ =~= line_at(lines@, k0));
                k = k + 1;
                m.supply_input(p, line);
            },
            Step::Output(b) => {
                out.push(b);
                proof {
                    let rest = run_from(p.code@, p.jumps@, m@, lines@, k0, (left - 1) as nat).1;
                    assert(out@ + rest =~= out0 + (seq![b] + rest));
                }
            },
            _ => {},
        }
        left = left - 1;
    }
    (m, out)
}

} // verus!
