use vstd::prelude::*;

use crate::bf::{Address, Ast, CELL_MODULUS, Instr, Op, TAPE_SIZE, add_signed, wrap_add};

verus! {

/// What a step asks of the world around the machine.
#[derive(Copy, Clone, Debug, PartialEq, Eq, Structural)]
pub enum Action {
    /// Nothing to do outside; step again.
    Continue,
    /// Write this byte to the output.
    Output(u8),
    /// The current instruction reads: hand one input byte to `feed`.
    Input,
    /// The program has finished.
    Halt,
}

/// The mathematical state of a run: the tape, the cursor, and the position in the
/// program as one index per open loop, the root's first.
pub struct RunState {
    pub tape: Seq<u8>,
    pub cursor: int,
    pub path: Seq<int>,
}

/// The sequence that the first `k` indices of `path` lead into.
pub open spec fn frame(prog: Seq<Instr>, path: Seq<int>, k: int) -> Seq<Instr>
    decreases k,
{
    if k <= 0 {
        prog
    } else {
        frame(prog, path, k - 1)[path[k - 1]]->Loop_0
    }
}

/// `path` leads through loops of `prog` to a position within a sequence.
pub open spec fn path_ok(prog: Seq<Instr>, path: Seq<int>) -> bool {
    &&& path.len() >= 1
    &&& forall|k: int|
        0 <= k < path.len() - 1 ==> 0 <= #[trigger] path[k] < frame(prog, path, k).len()
            && frame(prog, path, k)[path[k]] is Loop
    &&& 0 <= path.last() <= frame(prog, path, path.len() - 1).len()
}

pub open spec fn state_ok(prog: Seq<Instr>, s: RunState) -> bool {
    &&& s.tape.len() == TAPE_SIZE
    &&& 0 <= s.cursor < TAPE_SIZE
    &&& path_ok(prog, s.path)
}

/// The sequence being run.
pub open spec fn current(prog: Seq<Instr>, s: RunState) -> Seq<Instr> {
    frame(prog, s.path, s.path.len() - 1)
}

pub open spec fn advance(s: RunState) -> RunState {
    RunState { path: s.path.update(s.path.len() - 1, s.path.last() + 1), ..s }
}

/// One step of execution: the state after it and what it asks of the world.
pub open spec fn step_spec(prog: Seq<Instr>, s: RunState) -> (RunState, Action) {
    let body = current(prog, s);
    let pc = s.path.last();
    let cell = s.tape[s.cursor];
    if pc >= body.len() {
        if s.path.len() == 1 {
            (s, Action::Halt)
        } else if cell != 0 {
            (RunState { path: s.path.update(s.path.len() - 1, 0), ..s }, Action::Continue)
        } else {
            (advance(RunState { path: s.path.drop_last(), ..s }), Action::Continue)
        }
    } else {
        match body[pc] {
            Instr::Add(d) => (
                advance(
                    RunState {
                        tape: s.tape.update(
                            s.cursor,
                            wrap_add(cell as int, d, CELL_MODULUS as int) as u8,
                        ),
                        ..s
                    },
                ),
                Action::Continue,
            ),
            Instr::Go(d) => (
                advance(RunState { cursor: wrap_add(s.cursor, d, TAPE_SIZE as int), ..s }),
                Action::Continue,
            ),
            Instr::SetConstant(v) => (
                advance(RunState { tape: s.tape.update(s.cursor, v as u8), ..s }),
                Action::Continue,
            ),
            Instr::Loop(_) => if cell == 0 {
                (advance(s), Action::Continue)
            } else {
                (RunState { path: s.path.push(0), ..s }, Action::Continue)
            },
            Instr::Read => (s, Action::Input),
            Instr::Write => (advance(s), Action::Output(cell)),
        }
    }
}

/// The state after the pending read receives `byte`.
pub open spec fn read_spec(s: RunState, byte: u8) -> RunState {
    advance(RunState { tape: s.tape.update(s.cursor, byte), ..s })
}

proof fn lemma_frame_agree(prog: Seq<Instr>, p1: Seq<int>, p2: Seq<int>, k: int)
    requires
        0 <= k <= p1.len(),
        k <= p2.len(),
        forall|j: int| 0 <= j < k ==> p1[j] == p2[j],
    ensures
        frame(prog, p1, k) == frame(prog, p2, k),
    decreases k,
{
    if k > 0 {
        lemma_frame_agree(prog, p1, p2, k - 1);
    }
}

/// Where the first `k` indices of `p` stay in place, so do the frames and the
/// conditions that `path_ok` puts on those indices.
proof fn lemma_prefix_ok(prog: Seq<Instr>, p: Seq<int>, q: Seq<int>, k: int)
    requires
        path_ok(prog, p),
        0 <= k <= p.len() - 1,
        k <= q.len(),
        forall|j: int| 0 <= j < k ==> p[j] == q[j],
    ensures
        forall|j: int| 0 <= j <= k ==> frame(prog, q, j) == frame(prog, p, j),
        forall|j: int|
            0 <= j < k ==> 0 <= #[trigger] q[j] < frame(prog, q, j).len() && frame(prog, q, j)[q[j]] is Loop,
{
    assert forall|j: int| 0 <= j <= k implies frame(prog, q, j) == frame(prog, p, j) by {
        lemma_frame_agree(prog, p, q, j);
    }
    assert forall|j: int| 0 <= j < k implies 0 <= #[trigger] q[j] < frame(prog, q, j).len() && frame(
        prog,
        q,
        j,
    )[q[j]] is Loop by {
        assert(p[j] == q[j]);
    }
}

/// A step keeps the state well formed.
proof fn lemma_step_ok(prog: Seq<Instr>, s: RunState)
    requires
        state_ok(prog, s),
    ensures
        state_ok(prog, step_spec(prog, s).0),
{
    let n = s.path.len();
    let body = current(prog, s);
    let pc = s.path.last();
    let cell = s.tape[s.cursor];
    let t = step_spec(prog, s).0;
    if pc >= body.len() {
        if n == 1 {
        } else if cell != 0 {
            lemma_prefix_ok(prog, s.path, t.path, n - 1);
        } else {
            assert(0 <= s.path[n - 2] < frame(prog, s.path, n - 2).len());
            lemma_prefix_ok(prog, s.path, t.path, n - 2);
        }
    } else {
        match body[pc] {
            Instr::Loop(_) => {
                if cell == 0 {
                    lemma_prefix_ok(prog, s.path, t.path, n - 1);
                } else {
                    lemma_prefix_ok(prog, s.path, t.path, n - 1);
                    assert(t.path[n - 1] == pc);
                    assert forall|k: int|
                        0 <= k < t.path.len() - 1 implies 0 <= #[trigger] t.path[k] < frame(
                        prog,
                        t.path,
                        k,
                    ).len() && frame(prog, t.path, k)[t.path[k]] is Loop by {
                        if k == n - 1 {
                            assert(frame(prog, t.path, k) == body);
                        }
                    }
                }
            },
            Instr::Read => {},
            _ => {
                lemma_prefix_ok(prog, s.path, t.path, n - 1);
            },
        }
    }
}

/// A pending read, once fed, keeps the state well formed.
proof fn lemma_read_ok(prog: Seq<Instr>, s: RunState, byte: u8)
    requires
        state_ok(prog, s),
        s.path.last() < current(prog, s).len(),
    ensures
        state_ok(prog, read_spec(s, byte)),
{
    lemma_prefix_ok(prog, s.path, read_spec(s, byte).path, s.path.len() - 1);
}

pub open spec fn path_view(path: Seq<usize>) -> Seq<int> {
    path.map_values(|x: usize| x as int)
}

/// The sequence that `path` leads into.
fn current_body<'a>(program: &'a Ast, path: &Vec<usize>) -> (r: &'a Ast)
    requires
        path_ok(program.view(), path_view(path@)),
    ensures
        r.view() == frame(program.view(), path_view(path@), path@.len() - 1),
{
    let ghost prog = program.view();
    let ghost pv = path_view(path@);
    let mut cur: &Ast = program;
    let mut k: usize = 0;
    while k < path.len() - 1
        invariant
            0 <= k < path@.len(),
            path_ok(prog, pv),
            prog == program.view(),
            pv == path_view(path@),
            cur.view() == frame(prog, pv, k as int),
        decreases path.len() - k,
    {
        let idx = path[k];
        assert(pv[k as int] == idx as int);
        match &cur.body[idx] {
            Op::Loop(inner) => {
                proof {
                    assert(inner.view() =~= frame(prog, pv, k + 1));
                }
                cur = inner;
            },
            _ => {
                proof {
                    assert(cur.view()[idx as int] == cur.body@[idx as int].view());
                }
                return cur;
            },
        }
        k += 1;
    }
    cur
}

/// `s` holds no read and no write, at any depth.
pub open spec fn no_io(s: Seq<Instr>) -> bool
    decreases s,
{
    forall|i: int|
        0 <= i < s.len() ==> !(#[trigger] s[i] is Read) && !(s[i] is Write) && (s[i] is Loop
            ==> no_io(s[i]->Loop_0))
}

proof fn lemma_frames_no_io(prog: Seq<Instr>, path: Seq<int>, k: int)
    requires
        path_ok(prog, path),
        no_io(prog),
        0 <= k <= path.len() - 1,
    ensures
        no_io(frame(prog, path, k)),
    decreases k,
{
    if k > 0 {
        lemma_frames_no_io(prog, path, k - 1);
        let f = frame(prog, path, k - 1);
        assert(0 <= path[k - 1] < f.len() && f[path[k - 1]] is Loop);
    }
}

/// A program that neither reads nor writes asks nothing of the world: each of its
/// steps either continues or halts, so it runs without input and output.
pub proof fn lemma_silent_program_steps_silently(prog: Seq<Instr>, s: RunState)
    requires
        state_ok(prog, s),
        no_io(prog),
    ensures
        step_spec(prog, s).1 == Action::Continue || step_spec(prog, s).1 == Action::Halt,
{
    lemma_frames_no_io(prog, s.path, s.path.len() - 1);
}

/// A program being run: the tape of `TAPE_SIZE` cells, all zero at the start, the
/// cursor, and the position in the program.
pub struct Machine {
    program: Ast,
    tape: Vec<u8>,
    cursor: Address,
    path: Vec<usize>,
}

impl Machine {
    pub closed spec fn program(self) -> Seq<Instr> {
        self.program.view()
    }

    pub closed spec fn state(self) -> RunState {
        RunState {
            tape: self.tape@,
            cursor: self.cursor.0 as int,
            path: self.path@.map_values(|x: usize| x as int),
        }
    }

    pub open spec fn wf(self) -> bool {
        state_ok(self.program(), self.state())
    }

    /// A machine at the start of `program`, on a tape of zeros, at address 0.
    pub fn new(program: Ast) -> (m: Machine)
        ensures
            m.wf(),
            m.program() == program.view(),
            m.state().tape == Seq::new(TAPE_SIZE as nat, |i: int| 0u8),
            m.state().cursor == 0,
            m.state().path == seq![0int],
    {
        let tape: Vec<u8> = vec![0u8; TAPE_SIZE];
        let mut path: Vec<usize> = Vec::new();
        path.push(0);
        let m = Machine { program, tape, cursor: Address(0), path };
        proof {
            assert(m.state().tape =~= Seq::new(TAPE_SIZE as nat, |i: int| 0u8));
            assert(m.state().path =~= seq![0int]);
        }
        m
    }
}

impl Machine {
    /// Runs one step; an `Input` action leaves the read pending until `feed`.
    #[verifier::rlimit(40)]
    pub fn step(&mut self) -> (r: Action)
        requires
            old(self).wf(),
        ensures
            final(self).wf(),
            final(self).program() == old(self).program(),
            (final(self).state(), r) == step_spec(old(self).program(), old(self).state()),
    {
        proof {
            lemma_step_ok(self.program(), self.state());
        }
        let ghost prog = self.program();
        let ghost s0 = self.state();
        let ghost t = step_spec(prog, s0).0;
        let n = self.path.len();
        let pc = self.path[n - 1];
        let c = self.cursor.0;
        let cell = self.tape[c];
        let body = current_body(&self.program, &self.path);
        assert(s0.path.last() == pc as int);
        if pc >= body.body.len() {
            if n == 1 {
                return Action::Halt;
            }
            if cell != 0 {
                self.path.set(n - 1, 0);
            } else {
                self.path.pop();
                proof {
                    let q = path_view(self.path@);
                    assert(q =~= s0.path.drop_last());
                    lemma_prefix_ok(prog, s0.path, q, n - 2);
                    assert(0 <= s0.path[n - 2] < frame(prog, s0.path, n - 2).len());
                    assert(frame(prog, q, n - 2) == frame(prog, s0.path, n - 2));
                }
                let up = self.path[n - 2];
                let outer = current_body(&self.program, &self.path);
                assert(s0.path[n - 2] == up as int);
                assert(up < outer.body.len());
                self.path.set(n - 2, up + 1);
            }
            proof {
                assert(self.state().path =~= t.path);
            }
            return Action::Continue;
        }
        assert(body.view()[pc as int] == body.body@[pc as int].view());
        let r = match &body.body[pc] {
            Op::Add(d) => {
                let v = add_signed(cell as usize, *d, CELL_MODULUS as isize) as u8;
                self.tape.set(c, v);
                self.path.set(n - 1, pc + 1);
                Action::Continue
            },
            Op::Go(d) => {
                self.cursor.add_assign(*d);
                self.path.set(n - 1, pc + 1);
                Action::Continue
            },
            Op::SetConstant(b) => {
                self.tape.set(c, b.0);
                self.path.set(n - 1, pc + 1);
                Action::Continue
            },
            Op::Loop(_) => {
                if cell == 0 {
                    self.path.set(n - 1, pc + 1);
                } else {
                    self.path.push(0);
                }
                Action::Continue
            },
            Op::Read => Action::Input,
            Op::Write => {
                self.path.set(n - 1, pc + 1);
                Action::Output(cell)
            },
        };
        proof {
            assert(self.state().path =~= t.path);
            assert(self.state().tape =~= t.tape);
        }
        r
    }

    /// The state's instruction is a read that is waiting for its byte.
    pub open spec fn reading(self) -> bool {
        let s = self.state();
        &&& s.path.last() < current(self.program(), s).len()
        &&& current(self.program(), s)[s.path.last()] is Read
    }

    /// Completes a pending read with `byte`: the cell at the cursor takes it.
    pub fn feed(&mut self, byte: u8)
        requires
            old(self).wf(),
            old(self).reading(),
        ensures
            final(self).wf(),
            final(self).program() == old(self).program(),
            final(self).state() == read_spec(old(self).state(), byte),
    {
        proof {
            lemma_read_ok(self.program(), self.state(), byte);
        }
        let ghost t = read_spec(self.state(), byte);
        let n = self.path.len();
        let pc = self.path[n - 1];
        let body = current_body(&self.program, &self.path);
        assert(pc < body.body.len());
        let c = self.cursor.0;
        self.tape.set(c, byte);
        self.path.set(n - 1, pc + 1);
        proof {
            assert(self.state().path =~= t.path);
            assert(self.state().tape =~= t.tape);
        }
    }

    /// The value of the cell at the cursor.
    pub fn cell(&self) -> (r: u8)
        requires
            self.wf(),
        ensures
            r == self.state().tape[self.state().cursor],
    {
        self.tape[self.cursor.0]
    }

    /// The cursor's address.
    pub fn cursor(&self) -> (r: usize)
        ensures
            r as int == self.state().cursor,
    {
        self.cursor.0
    }
}

} // verus!
