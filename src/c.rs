use vstd::prelude::*;
use vstd::string::StringExecFns;

use crate::bf::{Ast, Instr, Op};

verus! {

pub open spec fn digit_char(d: int) -> char {
    if d == 0 {
        '0'
    } else if d == 1 {
        '1'
    } else if d == 2 {
        '2'
    } else if d == 3 {
        '3'
    } else if d == 4 {
        '4'
    } else if d == 5 {
        '5'
    } else if d == 6 {
        '6'
    } else if d == 7 {
        '7'
    } else if d == 8 {
        '8'
    } else {
        '9'
    }
}

/// The decimal digits of `n`, most significant first, without leading zeros.
pub open spec fn decimal(n: nat) -> Seq<char>
    decreases n,
{
    if n < 10 {
        seq![digit_char(n as int)]
    } else {
        decimal(n / 10) + seq![digit_char((n % 10) as int)]
    }
}

/// One unit of indentation in the generated code.
pub open spec fn indent_unit() -> Seq<char> {
    "    "@
}

/// A compound assignment's operator and operand for a signed delta: `+=` for a
/// positive delta, `-=` with the magnitude otherwise.
pub open spec fn delta_text(n: int) -> Seq<char> {
    if n > 0 {
        " += "@ + decimal(n as nat) + ";\n"@
    } else {
        " -= "@ + decimal((-n) as nat) + ";\n"@
    }
}

/// The C statements for `s`, each line starting with `indent`. A read at the end of
/// input stores 0.
pub open spec fn c_lines(s: Seq<Instr>, indent: Seq<char>) -> Seq<char>
    decreases s,
{
    if s.len() == 0 {
        Seq::empty()
    } else {
        let x = s[s.len() - 1];
        c_lines(s.subrange(0, s.len() - 1), indent) + indent + match x {
            Instr::Add(n) => "mem[p]"@ + delta_text(n),
            Instr::Go(n) => "p"@ + delta_text(n),
            Instr::SetConstant(v) => "mem[p] = "@ + decimal(v as nat) + ";\n"@,
            Instr::Loop(body) => "while (mem[p]) {\n"@ + c_lines(body, indent + indent_unit())
                + indent + "}\n"@,
            Instr::Read => "{ int c = getchar(); mem[p] = c == EOF ? 0 : c; }\n"@,
            Instr::Write => "putchar(mem[p]);\n"@,
        }
    }
}

/// The whole C program for `prog`: `TAPE_SIZE` cells of `unsigned char`, so that a
/// cell wraps modulo 256 as `wrap_add` does, a cursor of 16-bit `unsigned short`, so
/// that moves wrap modulo `TAPE_SIZE` as `Address` does, and `main`.
pub open spec fn c_program(prog: Seq<Instr>) -> Seq<char> {
    "#include <stdio.h>\n\n"@ + "unsigned char mem[65536] = {0};\nunsigned short p = 0;\n\n"@
        + "int main(int argc, char **argv) {\n"@ + c_lines(prog, indent_unit()) + "}\n"@
}

/// Rendering follows the sequence: the text for `s` followed by `t` is the text for
/// `s` followed by the text for `t`.
pub proof fn lemma_lines_concat(s: Seq<Instr>, t: Seq<Instr>, indent: Seq<char>)
    ensures
        c_lines(s + t, indent) == c_lines(s, indent) + c_lines(t, indent),
    decreases t.len(),
{
    if t.len() == 0 {
        assert(s + t =~= s);
        assert(c_lines(s, indent) + c_lines(t, indent) =~= c_lines(s, indent));
    } else {
        let u = s + t;
        let tl = t.subrange(0, t.len() - 1);
        assert(u.subrange(0, u.len() - 1) =~= s + tl);
        assert(u[u.len() - 1] == t[t.len() - 1]);
        lemma_lines_concat(s, tl, indent);
        assert(c_lines(u, indent) =~= c_lines(s, indent) + c_lines(t, indent));
    }
}

/// A loop renders as exactly one `while` construct testing the current cell, around
/// its body rendered one level deeper.
pub proof fn lemma_loop_renders_as_while(body: Seq<Instr>, indent: Seq<char>)
    ensures
        c_lines(seq![Instr::Loop(body)], indent) == indent + "while (mem[p]) {\n"@ + c_lines(
            body,
            indent + indent_unit(),
        ) + indent + "}\n"@,
{
    let s = seq![Instr::Loop(body)];
    assert(s.subrange(0, 0) =~= Seq::<Instr>::empty());
    assert(c_lines(s.subrange(0, 0), indent) == Seq::<char>::empty());
    assert(s[s.len() - 1] == Instr::Loop(body));
    assert(c_lines(s, indent) =~= indent + "while (mem[p]) {\n"@ + c_lines(
        body,
        indent + indent_unit(),
    ) + indent + "}\n"@);
}

/// Rendering is a function of the program: two trees with the same instructions give
/// the same text, byte for byte.
pub proof fn lemma_generation_deterministic(a: Ast, b: Ast)
    requires
        a.view() == b.view(),
    ensures
        c_program(a.view()) == c_program(b.view()),
{
}

fn digit(d: u128) -> (r: &'static str)
    requires
        d < 10,
    ensures
        r@ == seq![digit_char(d as int)],
{
    proof {
        reveal_strlit("0");
        reveal_strlit("1");
        reveal_strlit("2");
        reveal_strlit("3");
        reveal_strlit("4");
        reveal_strlit("5");
        reveal_strlit("6");
        reveal_strlit("7");
        reveal_strlit("8");
        reveal_strlit("9");
    }
    if d == 0 {
        "0"
    } else if d == 1 {
        "1"
    } else if d == 2 {
        "2"
    } else if d == 3 {
        "3"
    } else if d == 4 {
        "4"
    } else if d == 5 {
        "5"
    } else if d == 6 {
        "6"
    } else if d == 7 {
        "7"
    } else if d == 8 {
        "8"
    } else {
        "9"
    }
}

/// Appends the decimal digits of `n`.
pub(crate) fn push_decimal(buf: &mut String, n: u128)
    ensures
        final(buf)@ == old(buf)@ + decimal(n as nat),
    decreases n,
{
    if n >= 10 {
        push_decimal(buf, n / 10);
    }
    buf.append(digit(n % 10));
    proof {
        assert(final(buf)@ =~= old(buf)@ + decimal(n as nat));
    }
}

/// Appends `"<sign>= <magnitude>;\n"` for a signed delta, the sign being `+` for a
/// positive delta and `-` otherwise.
fn push_delta(buf: &mut String, n: isize)
    ensures
        final(buf)@ == old(buf)@ + delta_text(n as int),
{
    if n > 0 {
        buf.append(" += ");
        push_decimal(buf, n as u128);
    } else {
        buf.append(" -= ");
        push_decimal(buf, (0 - n as i128) as u128);
    }
    buf.append(";\n");
    proof {
        assert(final(buf)@ =~= old(buf)@ + delta_text(n as int));
    }
}

/// Appends the statements for `ast`, each line starting with `indent`.
fn print(buf: &mut String, ast: &Ast, indent: &String)
    ensures
        final(buf)@ == old(buf)@ + c_lines(ast.view(), indent@),
    decreases ast,
{
    let ghost v = ast.view();
    let mut i: usize = 0;
    proof {
        assert(v.subrange(0, 0) =~= Seq::<Instr>::empty());
        assert(buf@ =~= old(buf)@ + c_lines(v.subrange(0, 0), indent@));
    }
    while i < ast.body.len()
        invariant
            0 <= i <= ast.body@.len(),
            v == ast.view(),
            buf@ == old(buf)@ + c_lines(v.subrange(0, i as int), indent@),
        decreases ast.body.len() - i,
    {
        let ghost before = buf@;
        let ghost prefix = v.subrange(0, i as int);
        proof {
            assert(v.subrange(0, i + 1).subrange(0, i as int) =~= prefix);
            assert(v.subrange(0, i + 1)[i as int] == ast.body@[i as int].view());
        }
        buf.append(indent.as_str());
        match &ast.body[i] {
            Op::Add(n) => {
                buf.append("mem[p]");
                push_delta(buf, *n);
            },
            Op::Go(n) => {
                buf.append("p");
                push_delta(buf, *n);
            },
            Op::SetConstant(b) => {
                buf.append("mem[p] = ");
                push_decimal(buf, b.0 as u128);
                buf.append(";\n");
            },
            Op::Loop(inner) => {
                buf.append("while (mem[p]) {\n");
                let mut deeper = indent.clone();
                deeper.append("    ");
                proof {
                    assert(inner.view() =~= v[i as int]->Loop_0);
                }
                print(buf, inner, &deeper);
                buf.append(indent.as_str());
                buf.append("}\n");
            },
            Op::Read => {
                buf.append("{ int c = getchar(); mem[p] = c == EOF ? 0 : c; }\n");
            },
            Op::Write => {
                buf.append("putchar(mem[p]);\n");
            },
        }
        proof {
            assert(buf@ =~= old(buf)@ + c_lines(v.subrange(0, i + 1), indent@));
        }
        i += 1;
    }
    proof {
        assert(v.subrange(0, v.len() as int) =~= v);
    }
}

impl Ast {
    /// Renders the program as a self-contained C program.
    pub fn into_c(self) -> (r: String)
        ensures
            r@ == c_program(self.view()),
    {
        let mut buf = String::new();
        buf.append("#include <stdio.h>\n\n");
        buf.append("unsigned char mem[65536] = {0};\nunsigned short p = 0;\n\n");
        buf.append("int main(int argc, char **argv) {\n");
        let indent = String::from_str("    ");
        print(&mut buf, &self, &indent);
        buf.append("}\n");
        proof {
            assert(buf@ =~= c_program(self.view()));
        }
        buf
    }
}

} // verus!
