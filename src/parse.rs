use vstd::prelude::*;

use vstd::std_specs::iter::IteratorSpec;

use crate::bf::{Ast, Byte, Error, Instr, Op, merged, ops_view};

verus! {

/// An instruction that does nothing: a fold that produces one leaves nothing behind.
pub open spec fn is_no_op(x: Instr) -> bool {
    x == Instr::Add(0) || x == Instr::Go(0)
}

/// Appends `x` to `s`, folding it into the tail as long as the fold rule applies.
pub open spec fn fold_in(s: Seq<Instr>, x: Instr) -> Seq<Instr>
    decreases s.len(),
{
    if s.len() == 0 {
        seq![x]
    } else {
        match merged(s.last(), x) {
            Some(m) => if is_no_op(m) {
                s.drop_last()
            } else {
                fold_in(s.drop_last(), m)
            },
            None => s.push(x),
        }
    }
}

/// The instruction that a closed loop with this body becomes: a body of a single
/// unit step is the zeroing idiom.
pub open spec fn close_loop(body: Seq<Instr>) -> Instr {
    if body == seq![Instr::Add(-1)] || body == seq![Instr::Add(1)] {
        Instr::SetConstant(0)
    } else {
        Instr::Loop(body)
    }
}

/// The open sequences while parsing: the root first, then one per open bracket.
pub open spec fn emit_top(stack: Seq<Seq<Instr>>, x: Instr) -> Seq<Seq<Instr>> {
    stack.update(stack.len() - 1, fold_in(stack.last(), x))
}

/// One character's effect on the open sequences; `None` for a `]` that closes nothing.
pub open spec fn step(stack: Seq<Seq<Instr>>, c: char) -> Option<Seq<Seq<Instr>>> {
    if c == ',' {
        Some(emit_top(stack, Instr::Read))
    } else if c == '.' {
        Some(emit_top(stack, Instr::Write))
    } else if c == '+' {
        Some(emit_top(stack, Instr::Add(1)))
    } else if c == '-' {
        Some(emit_top(stack, Instr::Add(-1)))
    } else if c == '>' {
        Some(emit_top(stack, Instr::Go(1)))
    } else if c == '<' {
        Some(emit_top(stack, Instr::Go(-1)))
    } else if c == '[' {
        Some(stack.push(Seq::empty()))
    } else if c == ']' {
        if stack.len() > 1 {
            Some(emit_top(stack.drop_last(), close_loop(stack.last())))
        } else {
            None
        }
    } else {
        Some(stack)
    }
}

/// The open sequences after reading all of `chars`, or the index of the first `]`
/// that closes nothing.
pub open spec fn scan(chars: Seq<char>) -> Result<Seq<Seq<Instr>>, int>
    decreases chars.len(),
{
    if chars.len() == 0 {
        Ok(seq![Seq::empty()])
    } else {
        match scan(chars.drop_last()) {
            Ok(st) => match step(st, chars.last()) {
                Some(next) => Ok(next),
                None => Err(chars.len() - 1),
            },
            Err(i) => Err(i),
        }
    }
}

/// What parsing `chars` yields.
pub open spec fn parse_spec(chars: Seq<char>) -> Result<Seq<Instr>, Error> {
    match scan(chars) {
        Ok(st) => if st.len() == 1 {
            Ok(st[0])
        } else {
            Err(Error::UnbalancedLeftBrackets { depth: (st.len() - 1) as usize })
        },
        Err(i) => Err(Error::UnbalancedRightBracket { index: i as usize }),
    }
}

pub open spec fn stack_view(s: Seq<Ast>) -> Seq<Seq<Instr>> {
    Seq::new(s.len(), |i: int| s[i].view())
}

proof fn lemma_view_push(s: Seq<Op>, x: Op)
    ensures
        ops_view(s.push(x)) == ops_view(s).push(x.view()),
{
    assert(ops_view(s.push(x)) =~= ops_view(s).push(x.view()));
}

impl Ast {
    /// Appends `instr`, merging it with the tail for as long as the fold rule
    /// applies; a merge that yields a no-op removes the tail instead.
    pub fn emit(&mut self, instr: Op)
        ensures
            final(self).view() == fold_in(old(self).view(), instr.view()),
    {
        let ghost goal = fold_in(self.view(), instr.view());
        let mut op = instr;
        loop
            invariant
                fold_in(self.view(), op.view()) == goal,
                goal == fold_in(old(self).view(), instr.view()),
            decreases self.body.len(),
        {
            let ghost before = self.body@;
            match self.body.pop() {
                None => {
                    proof {
                        assert(ops_view(self.body@) =~= Seq::<Instr>::empty());
                        lemma_view_push(self.body@, op);
                    }
                    self.body.push(op);
                    return;
                },
                Some(last) => {
                    proof {
                        assert(before == self.body@.push(last));
                        lemma_view_push(self.body@, last);
                        assert(ops_view(self.body@) =~= ops_view(before).drop_last());
                    }
                    match last.merge(op) {
                        Ok(m) => {
                            let no_op = match &m {
                                Op::Add(n) => *n == 0,
                                Op::Go(n) => *n == 0,
                                _ => false,
                            };
                            if no_op {
                                return;
                            }
                            op = m;
                        },
                        Err((a, b)) => {
                            proof {
                                lemma_view_push(self.body@, a);
                                lemma_view_push(self.body@.push(a), b);
                            }
                            self.body.push(a);
                            self.body.push(b);
                            return;
                        },
                    }
                },
            }
        }
    }

    /// Turns a finished loop body into its instruction: the zeroing idiom becomes
    /// `SetConstant(0)`, anything else a `Loop`.
    pub fn into_loop(self) -> (r: Op)
        ensures
            r.view() == close_loop(self.view()),
    {
        let ghost v = self.view();
        if self.body.len() == 1 {
            let unit = match &self.body[0] {
                Op::Add(n) => *n == 1 || *n == -1,
                _ => false,
            };
            if unit {
                proof {
                    assert(v =~= seq![self.body@[0].view()]);
                }
                return Op::SetConstant(Byte(0));
            }
            proof {
                assert(v[0] == self.body@[0].view());
            }
        }
        let r = Op::Loop(self);
        proof {
            assert(r.view()->Loop_0 =~= v);
        }
        r
    }
}

/// The characters of `s`, in order.
fn chars_of(s: &str) -> (r: Vec<char>)
    ensures
        r@ == s@,
{
    broadcast use vstd::string::group_string_axioms;

    let mut it = s.chars();
    let mut r: Vec<char> = Vec::new();
    loop
        invariant
            r@ + IteratorSpec::remaining(&it) == s@,
        decreases s@.len() - r@.len(),
    {
        let ghost before = it;
        match it.next() {
            Some(c) => {
                proof {
                    assert(IteratorSpec::remaining(&before).len() > 0);
                    assert(r@.push(c) + IteratorSpec::remaining(&it) =~= r@ + IteratorSpec::remaining(
                        &before,
                    ));
                }
                r.push(c);
            },
            None => {
                proof {
                    assert(r@ =~= s@);
                }
                return r;
            },
        }
    }
}

fn emit_into_top(stack: &mut Vec<Ast>, op: Op)
    requires
        old(stack)@.len() >= 1,
    ensures
        stack_view(final(stack)@) == emit_top(stack_view(old(stack)@), op.view()),
        final(stack)@.len() == old(stack)@.len(),
{
    let mut top = stack.pop().unwrap();
    top.emit(op);
    stack.push(top);
    proof {
        assert(stack_view(stack@) =~= emit_top(stack_view(old(stack)@), op.view()));
    }
}

proof fn lemma_scan_error_stays(chars: Seq<char>, i: int, j: int)
    requires
        0 <= i < j <= chars.len(),
        scan(chars.subrange(0, i + 1)) == Err::<Seq<Seq<Instr>>, int>(i),
    ensures
        scan(chars.subrange(0, j)) == Err::<Seq<Seq<Instr>>, int>(i),
    decreases j - i,
{
    if j > i + 1 {
        lemma_scan_error_stays(chars, i, j - 1);
        assert(chars.subrange(0, j).drop_last() =~= chars.subrange(0, j - 1));
    }
}

/// Parses source text into a folded program. Characters other than the eight
/// commands are ignored.
pub fn parse(source: &str) -> (r: Result<Ast, Error>)
    ensures
        match r {
            Ok(ast) => parse_spec(source@) == Ok::<Seq<Instr>, Error>(ast.view()),
            Err(e) => parse_spec(source@) == Err::<Seq<Instr>, Error>(e),
        },
{
    let chars = chars_of(source);
    let mut stack: Vec<Ast> = Vec::new();
    stack.push(Ast::new());
    proof {
        assert(stack@[0].view() =~= Seq::<Instr>::empty());
        assert(stack_view(stack@) =~= seq![Seq::<Instr>::empty()]);
        assert(chars@.subrange(0, 0) =~= Seq::<char>::empty());
    }
    let mut i: usize = 0;
    while i < chars.len()
        invariant
            0 <= i <= chars@.len(),
            chars@ == source@,
            stack@.len() >= 1,
            scan(chars@.subrange(0, i as int)) == Ok::<Seq<Seq<Instr>>, int>(stack_view(stack@)),
        decreases chars.len() - i,
    {
        let ch = chars[i];
        let ghost before = stack_view(stack@);
        proof {
            assert(chars@.subrange(0, i + 1).drop_last() =~= chars@.subrange(0, i as int));
        }
        if ch == ',' {
            emit_into_top(&mut stack, Op::Read);
        } else if ch == '.' {
            emit_into_top(&mut stack, Op::Write);
        } else if ch == '+' {
            emit_into_top(&mut stack, Op::Add(1));
        } else if ch == '-' {
            emit_into_top(&mut stack, Op::Add(-1));
        } else if ch == '>' {
            emit_into_top(&mut stack, Op::Go(1));
        } else if ch == '<' {
            emit_into_top(&mut stack, Op::Go(-1));
        } else if ch == '[' {
            stack.push(Ast::new());
            proof {
                assert(stack@.last().view() =~= Seq::<Instr>::empty());
                assert(stack_view(stack@) =~= before.push(Seq::empty()));
            }
        } else if ch == ']' {
            if stack.len() > 1 {
                let body = stack.pop().unwrap();
                proof {
                    assert(stack_view(stack@) =~= before.drop_last());
                }
                emit_into_top(&mut stack, body.into_loop());
            } else {
                proof {
                    lemma_scan_error_stays(chars@, i as int, chars@.len() as int);
                    assert(chars@.subrange(0, chars@.len() as int) =~= chars@);
                }
                return Err(Error::UnbalancedRightBracket { index: i });
            }
        }
        i += 1;
    }
    proof {
        assert(chars@.subrange(0, chars@.len() as int) =~= chars@);
    }
    if stack.len() == 1 {
        let root = stack.pop().unwrap();
        Ok(root)
    } else {
        Err(Error::UnbalancedLeftBrackets { depth: stack.len() - 1 })
    }
}

/// A sequence at the fold rule's fixed point: no two neighbours merge, at any depth.
pub open spec fn folded(s: Seq<Instr>) -> bool
    decreases s,
{
    &&& forall|i: int| 0 <= i < s.len() - 1 ==> merged(#[trigger] s[i], s[i + 1]) is None
    &&& forall|i: int|
        0 <= i < s.len() ==> (#[trigger] s[i] is Loop ==> folded(s[i]->Loop_0))
}

/// An instruction whose body, if it has one, is folded.
pub open spec fn body_folded(x: Instr) -> bool {
    x is Loop ==> folded(x->Loop_0)
}

/// Open brackets minus close brackets in `chars`.
pub open spec fn depth(chars: Seq<char>) -> int
    decreases chars.len(),
{
    if chars.len() == 0 {
        0
    } else {
        depth(chars.drop_last()) + if chars.last() == '[' {
            1int
        } else if chars.last() == ']' {
            -1int
        } else {
            0int
        }
    }
}

/// No prefix of `chars` closes more brackets than it opened.
pub open spec fn never_negative(chars: Seq<char>) -> bool {
    forall|j: int| 0 <= j <= chars.len() ==> depth(#[trigger] chars.subrange(0, j)) >= 0
}

/// Every bracket of `chars` is matched.
pub open spec fn balanced(chars: Seq<char>) -> bool {
    never_negative(chars) && depth(chars) == 0
}

proof fn lemma_merged_body_folded(a: Instr, b: Instr)
    requires
        body_folded(a),
        body_folded(b),
        merged(a, b) is Some,
    ensures
        body_folded(merged(a, b)->Some_0),
{
}

proof fn lemma_fold_in_folded(s: Seq<Instr>, x: Instr)
    requires
        folded(s),
        body_folded(x),
    ensures
        folded(fold_in(s, x)),
    decreases s.len(),
{
    if s.len() == 0 {
        assert(folded(seq![x]));
    } else {
        let init = s.drop_last();
        assert(body_folded(s[s.len() - 1]));
        match merged(s.last(), x) {
            Some(m) => {
                assert forall|i: int| 0 <= i < init.len() - 1 implies merged(
                    #[trigger] init[i],
                    init[i + 1],
                ) is None by {
                    assert(init[i] == s[i] && init[i + 1] == s[i + 1]);
                }
                assert forall|i: int| 0 <= i < init.len() implies (#[trigger] init[i] is Loop
                    ==> folded(init[i]->Loop_0)) by {
                    assert(init[i] == s[i]);
                }
                assert(folded(init));
                if !is_no_op(m) {
                    lemma_merged_body_folded(s.last(), x);
                    lemma_fold_in_folded(init, m);
                }
            },
            None => {
                let t = s.push(x);
                assert forall|i: int| 0 <= i < t.len() - 1 implies merged(
                    #[trigger] t[i],
                    t[i + 1],
                ) is None by {
                    if i < s.len() - 1 {
                        assert(t[i] == s[i] && t[i + 1] == s[i + 1]);
                    } else {
                        assert(t[i] == s.last() && t[i + 1] == x);
                    }
                }
                assert forall|i: int| 0 <= i < t.len() implies (#[trigger] t[i] is Loop ==> folded(
                    t[i]->Loop_0,
                )) by {
                    if i < s.len() {
                        assert(t[i] == s[i]);
                    }
                }
                assert(folded(t));
            },
        }
    }
}

/// All open sequences of a parse in progress are folded.
pub open spec fn frames_folded(st: Seq<Seq<Instr>>) -> bool {
    forall|k: int| 0 <= k < st.len() ==> folded(#[trigger] st[k])
}

proof fn lemma_emit_top_folded(st: Seq<Seq<Instr>>, x: Instr)
    requires
        st.len() >= 1,
        frames_folded(st),
        body_folded(x),
    ensures
        frames_folded(emit_top(st, x)),
{
    lemma_fold_in_folded(st.last(), x);
    let t = emit_top(st, x);
    assert forall|k: int| 0 <= k < t.len() implies folded(#[trigger] t[k]) by {
        if k < st.len() - 1 {
            assert(t[k] == st[k]);
        }
    }
}

proof fn lemma_scan_shape(chars: Seq<char>)
    requires
        never_negative(chars),
    ensures
        scan(chars) is Ok,
        scan(chars)->Ok_0.len() == depth(chars) + 1,
        frames_folded(scan(chars)->Ok_0),
    decreases chars.len(),
{
    assert(chars.subrange(0, chars.len() as int) =~= chars);
    assert(depth(chars.subrange(0, chars.len() as int)) >= 0);
    if chars.len() == 0 {
        let st = seq![Seq::<Instr>::empty()];
        assert(folded(st[0]));
        assert(frames_folded(st));
    } else {
        let init = chars.drop_last();
        assert forall|j: int| 0 <= j <= init.len() implies depth(
            #[trigger] init.subrange(0, j),
        ) >= 0 by {
            assert(init.subrange(0, j) =~= chars.subrange(0, j));
        }
        lemma_scan_shape(init);
        let st = scan(init)->Ok_0;
        let c = chars.last();
        if c == '[' {
            let t = st.push(Seq::empty());
            assert(folded(t[t.len() - 1]));
            assert forall|k: int| 0 <= k < t.len() implies folded(#[trigger] t[k]) by {
                if k < st.len() {
                    assert(t[k] == st[k]);
                }
            }
        } else if c == ']' {
            let rest = st.drop_last();
            assert(frames_folded(rest)) by {
                assert forall|k: int| 0 <= k < rest.len() implies folded(#[trigger] rest[k]) by {
                    assert(rest[k] == st[k]);
                }
            }
            assert(folded(st[st.len() - 1]));
            lemma_emit_top_folded(rest, close_loop(st.last()));
        } else if c == ',' {
            lemma_emit_top_folded(st, Instr::Read);
        } else if c == '.' {
            lemma_emit_top_folded(st, Instr::Write);
        } else if c == '+' {
            lemma_emit_top_folded(st, Instr::Add(1));
        } else if c == '-' {
            lemma_emit_top_folded(st, Instr::Add(-1));
        } else if c == '>' {
            lemma_emit_top_folded(st, Instr::Go(1));
        } else if c == '<' {
            lemma_emit_top_folded(st, Instr::Go(-1));
        }
    }
}

/// Balanced input always parses, and the program is at the fold rule's fixed point:
/// no two neighbouring instructions merge, in the root or in any loop body.
pub proof fn lemma_balanced_parses_folded(chars: Seq<char>)
    requires
        balanced(chars),
    ensures
        parse_spec(chars) is Ok,
        folded(parse_spec(chars)->Ok_0),
{
    lemma_scan_shape(chars);
}

/// Input that never closes an unopened bracket but leaves `k > 0` brackets open
/// fails with `UnbalancedLeftBrackets` carrying `k`.
pub proof fn lemma_open_brackets_reported(chars: Seq<char>)
    requires
        never_negative(chars),
        depth(chars) > 0,
    ensures
        parse_spec(chars) == Err::<Seq<Instr>, Error>(
            Error::UnbalancedLeftBrackets { depth: depth(chars) as usize },
        ),
{
    lemma_scan_shape(chars);
}

/// The first `]` that closes no open bracket makes parsing fail with
/// `UnbalancedRightBracket` carrying its index.
pub proof fn lemma_stray_bracket_reported(chars: Seq<char>, i: int)
    requires
        0 <= i < chars.len(),
        chars[i] == ']',
        never_negative(chars.subrange(0, i)),
        depth(chars.subrange(0, i)) == 0,
    ensures
        parse_spec(chars) == Err::<Seq<Instr>, Error>(
            Error::UnbalancedRightBracket { index: i as usize },
        ),
{
    lemma_scan_shape(chars.subrange(0, i));
    assert(chars.subrange(0, i + 1).drop_last() =~= chars.subrange(0, i));
    lemma_scan_error_stays(chars, i, chars.len() as int);
    assert(chars.subrange(0, chars.len() as int) =~= chars);
}

} // verus!
