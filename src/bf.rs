use vstd::prelude::*;
use vstd::arithmetic::div_mod::{lemma_add_mod_noop, lemma_mod_add_multiples_vanish, lemma_sub_mod_noop};
use vstd::string::StringExecFns;

use crate::c::{decimal, push_decimal};

verus! {

/// The number of cells on the tape; cursor arithmetic wraps modulo this size.
pub const TAPE_SIZE: usize = 65536;

/// The number of distinct cell values; cell arithmetic wraps modulo this size.
pub const CELL_MODULUS: usize = 256;

/// One cell of the tape: an 8-bit value with wrapping arithmetic.
#[derive(Copy, Clone, Debug, Default, PartialEq, Eq, Structural)]
pub struct Byte(pub u8);

/// A position on the circular tape.
#[derive(Copy, Clone, Debug, Default, PartialEq, Eq, Structural)]
pub struct Address(pub usize);

/// `(lhs + rhs) mod max`, with the result in `0 .. max` also for a negative sum.
pub open spec fn wrap_add(lhs: int, rhs: int, max: int) -> int {
    (lhs + rhs) % max
}

proof fn lemma_wrap_parts(lhs: int, rhs: int, m: int, base: int, r: int)
    requires
        m > 0,
        lhs >= 0,
        base == lhs % m,
        rhs >= 0 ==> r == (base + rhs % m) % m,
        rhs < 0 ==> r == (base + (m - (-rhs) % m)) % m,
    ensures
        r == (lhs + rhs) % m,
{
    if rhs >= 0 {
        lemma_add_mod_noop(lhs, rhs, m);
    } else {
        let down = (-rhs) % m;
        assert(base + (m - down) == m + (base - down));
        lemma_mod_add_multiples_vanish(base - down, m);
        lemma_sub_mod_noop(lhs, -rhs, m);
        assert(lhs - (-rhs) == lhs + rhs);
    }
}

/// Adds a signed offset to an unsigned value modulo `max`, reducing first and then
/// normalising into `0 .. max`, so that negative sums come out right.
pub fn add_signed(lhs: usize, rhs: isize, max: isize) -> (r: usize)
    requires
        max > 0,
    ensures
        r as int == wrap_add(lhs as int, rhs as int, max as int),
{
    let m: u128 = max as u128;
    let base: u128 = lhs as u128 % m;
    let r: u128 = if rhs >= 0 {
        (base + rhs as u128 % m) % m
    } else {
        let down: u128 = (0 - rhs as i128) as u128 % m;
        (base + (m - down)) % m
    };
    proof {
        lemma_wrap_parts(lhs as int, rhs as int, max as int, base as int, r as int);
    }
    r as usize
}

impl Byte {
    pub fn as_i32(self) -> (r: i32)
        ensures
            r == self.0 as i32,
    {
        self.0 as i32
    }

    /// Sum of two cell values, wrapping at the cell modulus.
    pub fn add(self, rhs: Byte) -> (r: Byte)
        ensures
            r.0 as int == wrap_add(self.0 as int, rhs.0 as int, CELL_MODULUS as int),
    {
        Byte(self.0.wrapping_add(rhs.0))
    }

    /// This value moved by a signed delta, wrapping at the cell modulus.
    pub fn add_signed(self, rhs: isize) -> (r: Byte)
        ensures
            r.0 as int == wrap_add(self.0 as int, rhs as int, CELL_MODULUS as int),
    {
        let mut b = self;
        b.add_assign(rhs);
        b
    }

    pub fn add_assign(&mut self, rhs: isize)
        ensures
            final(self).0 as int == wrap_add(old(self).0 as int, rhs as int, CELL_MODULUS as int),
    {
        self.0 = add_signed(self.0 as usize, rhs, CELL_MODULUS as isize) as u8;
    }
}

impl Address {
    /// Moves the address by a signed delta around the tape.
    pub fn add_assign(&mut self, rhs: isize)
        ensures
            final(self).0 as int == wrap_add(old(self).0 as int, rhs as int, TAPE_SIZE as int),
    {
        self.0 = add_signed(self.0, rhs, TAPE_SIZE as isize);
    }
}

/// A program: the instructions of one sequence, in execution order.
#[derive(Debug, Default, PartialEq, Eq)]
pub struct Ast {
    pub body: Vec<Op>,
}

/// One instruction; `Loop` owns the program of its body.
#[derive(Debug, PartialEq, Eq)]
pub enum Op {
    Add(isize),
    Go(isize),
    SetConstant(Byte),
    Loop(Ast),
    Read,
    Write,
}

/// Errors that parsing reports.
#[derive(Copy, Clone, Debug, PartialEq, Eq, Structural)]
pub enum Error {
    UnbalancedLeftBrackets { depth: usize },
    UnbalancedRightBracket { index: usize },
}

impl Error {
    /// The text that describes this error to a user.
    pub open spec fn message_spec(self) -> Seq<char> {
        match self {
            Error::UnbalancedLeftBrackets { depth } => "Found "@ + decimal(depth as nat)
                + " unclosed left brackets"@,
            Error::UnbalancedRightBracket { index } => "Found unbalanced right bracket at "@
                + decimal(index as nat),
        }
    }

    /// Describes this error to a user, with the count or index it carries.
    pub fn message(&self) -> (r: String)
        ensures
            r@ == self.message_spec(),
    {
        match self {
            Error::UnbalancedLeftBrackets { depth } => {
                let mut r = String::from_str("Found ");
                push_decimal(&mut r, *depth as u128);
                r.append(" unclosed left brackets");
                r
            },
            Error::UnbalancedRightBracket { index } => {
                let mut r = String::from_str("Found unbalanced right bracket at ");
                push_decimal(&mut r, *index as u128);
                r
            },
        }
    }
}

/// The mathematical form of an instruction: deltas as integers, bodies as sequences.
pub enum Instr {
    Add(int),
    Go(int),
    SetConstant(int),
    Loop(Seq<Instr>),
    Read,
    Write,
}

impl Op {
    pub open spec fn view(self) -> Instr
        decreases self,
    {
        match self {
            Op::Add(n) => Instr::Add(n as int),
            Op::Go(n) => Instr::Go(n as int),
            Op::SetConstant(b) => Instr::SetConstant(b.0 as int),
            Op::Loop(a) => Instr::Loop(
                Seq::new(
                    a.body@.len(),
                    |i: int|
                        if 0 <= i < a.body@.len() {
                            a.body@[i].view()
                        } else {
                            Instr::Read
                        },
                ),
            ),
            Op::Read => Instr::Read,
            Op::Write => Instr::Write,
        }
    }
}

impl Clone for Op {
    fn clone(&self) -> (r: Op)
        ensures
            r.view() == self.view(),
        decreases self,
    {
        let r = match self {
            Op::Add(n) => Op::Add(*n),
            Op::Go(n) => Op::Go(*n),
            Op::SetConstant(b) => Op::SetConstant(*b),
            Op::Loop(a) => {
                let c = a.clone();
                proof {
                    assert(Op::Loop(c).view()->Loop_0 =~= c.view());
                    assert(self.view()->Loop_0 =~= a.view());
                }
                Op::Loop(c)
            },
            Op::Read => Op::Read,
            Op::Write => Op::Write,
        };
        r
    }
}

impl Clone for Ast {
    fn clone(&self) -> (r: Ast)
        ensures
            r.view() == self.view(),
        decreases self,
    {
        let mut body: Vec<Op> = Vec::new();
        let mut i: usize = 0;
        while i < self.body.len()
            invariant
                0 <= i <= self.body@.len(),
                body@.len() == i,
                forall|j: int| 0 <= j < i ==> #[trigger] body@[j].view() == self.body@[j].view(),
            decreases self.body.len() - i,
        {
            body.push(self.body[i].clone());
            i += 1;
        }
        let r = Ast { body };
        proof {
            assert(r.view() =~= self.view());
        }
        r
    }
}

/// The mathematical form of a sequence of instructions.
pub open spec fn ops_view(s: Seq<Op>) -> Seq<Instr> {
    Seq::new(s.len(), |i: int| s[i].view())
}

impl Ast {
    pub open spec fn view(self) -> Seq<Instr> {
        ops_view(self.body@)
    }

    pub fn new() -> (r: Ast)
        ensures
            r.body@.len() == 0,
    {
        Ast { body: Vec::new() }
    }
}

pub open spec fn fits_isize(v: int) -> bool {
    isize::MIN <= v <= isize::MAX
}

/// The fold rule: what an instruction `a` followed directly by `b` merges into, if
/// anything. Deltas merge only while their sum fits the machine's signed width.
pub open spec fn merged(a: Instr, b: Instr) -> Option<Instr> {
    match a {
        Instr::Add(x) => match b {
            Instr::Add(y) => if fits_isize(x + y) {
                Some(Instr::Add(x + y))
            } else {
                None
            },
            Instr::SetConstant(v) => Some(Instr::SetConstant(v)),
            Instr::Read => Some(Instr::Read),
            _ => if x == 0 {
                Some(b)
            } else {
                None
            },
        },
        Instr::Go(x) => match b {
            Instr::Go(y) => if fits_isize(x + y) {
                Some(Instr::Go(x + y))
            } else {
                None
            },
            _ => if x == 0 {
                Some(b)
            } else {
                None
            },
        },
        Instr::SetConstant(v) => match b {
            Instr::Add(y) => Some(Instr::SetConstant(wrap_add(v, y, CELL_MODULUS as int))),
            Instr::SetConstant(w) => Some(Instr::SetConstant(w)),
            Instr::Read => Some(Instr::Read),
            _ => None,
        },
        Instr::Loop(body) => match b {
            Instr::Loop(_) => Some(Instr::Loop(body)),
            _ => if body.len() == 0 {
                Some(b)
            } else {
                None
            },
        },
        _ => None,
    }
}

impl Op {
    /// Merges `self` followed by `rhs` into one instruction, or hands both back
    /// unchanged where the fold rule has no entry for the pair.
    pub fn merge(self, rhs: Op) -> (r: Result<Op, (Op, Op)>)
        ensures
            match r {
                Ok(m) => merged(self.view(), rhs.view()) == Some(m.view()),
                Err((a, b)) => merged(self.view(), rhs.view()) is None && a == self && b == rhs,
            },
    {
        match self {
            Op::Add(x) => match rhs {
                Op::Add(y) => {
                    let sum: i128 = x as i128 + y as i128;
                    if isize::MIN as i128 <= sum && sum <= isize::MAX as i128 {
                        Ok(Op::Add(sum as isize))
                    } else {
                        Err((Op::Add(x), Op::Add(y)))
                    }
                },
                Op::SetConstant(v) => Ok(Op::SetConstant(v)),
                Op::Read => Ok(Op::Read),
                other => if x == 0 {
                    Ok(other)
                } else {
                    Err((Op::Add(x), other))
                },
            },
            Op::Go(x) => match rhs {
                Op::Go(y) => {
                    let sum: i128 = x as i128 + y as i128;
                    if isize::MIN as i128 <= sum && sum <= isize::MAX as i128 {
                        Ok(Op::Go(sum as isize))
                    } else {
                        Err((Op::Go(x), Op::Go(y)))
                    }
                },
                other => if x == 0 {
                    Ok(other)
                } else {
                    Err((Op::Go(x), other))
                },
            },
            Op::SetConstant(v) => match rhs {
                Op::Add(y) => Ok(Op::SetConstant(v.add_signed(y))),
                Op::SetConstant(w) => Ok(Op::SetConstant(w)),
                Op::Read => Ok(Op::Read),
                other => Err((Op::SetConstant(v), other)),
            },
            Op::Loop(body) => match rhs {
                Op::Loop(_) => Ok(Op::Loop(body)),
                other => if body.body.len() == 0 {
                    Ok(other)
                } else {
                    Err((Op::Loop(body), other))
                },
            },
            Op::Read => Err((Op::Read, rhs)),
            Op::Write => Err((Op::Write, rhs)),
        }
    }
}

} // verus!
