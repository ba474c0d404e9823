use vstd::prelude::*;

use crate::bf::{Ast, Instr, Op};

verus! {

/// Errors of the wasm backend. Lowering cannot fail yet; the variant stands for a
/// failure to encode the module, which later framing and encoding may report.
#[derive(Copy, Clone, Debug, PartialEq, Eq, Structural)]
pub enum Error {
    Encoding,
}

/// The wasm instructions that the backend emits, with their immediates.
#[derive(Copy, Clone, Debug, PartialEq, Eq, Structural)]
pub enum WasmInstr {
    I32Const(i32),
    I32Add,
    GetGlobal(u32),
    SetGlobal(u32),
    I32Load8U(u32, u32),
    I32Store8(u32, u32),
    Loop,
    End,
}

/// The global that holds the tape's base address.
pub const MEM_GLOBAL: u32 = 0;

/// The global that holds the cursor.
pub const PTR_GLOBAL: u32 = 1;

pub open spec fn tape_address() -> Seq<WasmInstr> {
    seq![WasmInstr::GetGlobal(MEM_GLOBAL), WasmInstr::GetGlobal(PTR_GLOBAL), WasmInstr::I32Add]
}

pub open spec fn read_tape_seq() -> Seq<WasmInstr> {
    tape_address().push(WasmInstr::I32Load8U(0, 0))
}

pub open spec fn write_tape_seq() -> Seq<WasmInstr> {
    tape_address().push(WasmInstr::I32Store8(0, 0))
}

/// The instructions for `s`, in order. Loops and I/O emit their structure only.
pub open spec fn wasm_of(s: Seq<Instr>) -> Seq<WasmInstr>
    decreases s,
{
    if s.len() == 0 {
        Seq::empty()
    } else {
        wasm_of(s.subrange(0, s.len() - 1)) + match s[s.len() - 1] {
            Instr::Add(n) => read_tape_seq() + seq![WasmInstr::I32Const(n as i32), WasmInstr::I32Add]
                + write_tape_seq(),
            Instr::Go(n) => seq![
                WasmInstr::GetGlobal(PTR_GLOBAL),
                WasmInstr::I32Const(n as i32),
                WasmInstr::I32Add,
                WasmInstr::SetGlobal(PTR_GLOBAL),
            ],
            Instr::SetConstant(v) => seq![WasmInstr::I32Const(v as i32)] + write_tape_seq(),
            Instr::Loop(body) => seq![WasmInstr::Loop] + wasm_of(body) + seq![WasmInstr::End],
            Instr::Read => write_tape_seq(),
            Instr::Write => read_tape_seq(),
        }
    }
}

struct Builder {
    buf: Vec<WasmInstr>,
}

impl Builder {
    fn emit(&mut self, i: WasmInstr) -> (r: Result<(), Error>)
        ensures
            final(self).buf@ == old(self).buf@.push(i),
            r is Ok,
    {
        self.buf.push(i);
        Ok(())
    }

    fn read_mem(&mut self) -> (r: Result<(), Error>)
        ensures
            final(self).buf@ == old(self).buf@.push(WasmInstr::GetGlobal(MEM_GLOBAL)),
            r is Ok,
    {
        self.emit(WasmInstr::GetGlobal(MEM_GLOBAL))
    }

    fn read_ptr(&mut self) -> (r: Result<(), Error>)
        ensures
            final(self).buf@ == old(self).buf@.push(WasmInstr::GetGlobal(PTR_GLOBAL)),
            r is Ok,
    {
        self.emit(WasmInstr::GetGlobal(PTR_GLOBAL))
    }

    fn write_ptr(&mut self) -> (r: Result<(), Error>)
        ensures
            final(self).buf@ == old(self).buf@.push(WasmInstr::SetGlobal(PTR_GLOBAL)),
            r is Ok,
    {
        self.emit(WasmInstr::SetGlobal(PTR_GLOBAL))
    }

    fn read_tape(&mut self) -> (r: Result<(), Error>)
        ensures
            final(self).buf@ == old(self).buf@ + read_tape_seq(),
            r is Ok,
    {
        self.read_mem()?;
        self.read_ptr()?;
        self.emit(WasmInstr::I32Add)?;
        let r = self.emit(WasmInstr::I32Load8U(0, 0));
        proof {
            assert(self.buf@ =~= old(self).buf@ + read_tape_seq());
        }
        r
    }

    fn write_tape(&mut self) -> (r: Result<(), Error>)
        ensures
            final(self).buf@ == old(self).buf@ + write_tape_seq(),
            r is Ok,
    {
        self.read_mem()?;
        self.read_ptr()?;
        self.emit(WasmInstr::I32Add)?;
        let r = self.emit(WasmInstr::I32Store8(0, 0));
        proof {
            assert(self.buf@ =~= old(self).buf@ + write_tape_seq());
        }
        r
    }

    /// Appends the instructions for `ast`.
    fn translate(&mut self, ast: &Ast) -> (r: Result<(), Error>)
        ensures
            final(self).buf@ == old(self).buf@ + wasm_of(ast.view()),
            r is Ok,
        decreases ast,
    {
        let ghost v = ast.view();
        let mut i: usize = 0;
        proof {
            assert(v.subrange(0, 0) =~= Seq::<Instr>::empty());
            assert(self.buf@ =~= old(self).buf@ + wasm_of(v.subrange(0, 0)));
        }
        while i < ast.body.len()
            invariant
                0 <= i <= ast.body@.len(),
                v == ast.view(),
                self.buf@ == old(self).buf@ + wasm_of(v.subrange(0, i as int)),
            decreases ast.body.len() - i,
        {
            proof {
                assert(v.subrange(0, i + 1).subrange(0, i as int) =~= v.subrange(0, i as int));
                assert(v.subrange(0, i + 1)[i as int] == ast.body@[i as int].view());
            }
            match &ast.body[i] {
                Op::Add(n) => {
                    self.read_tape()?;
                    self.emit(WasmInstr::I32Const(*n as i32))?;
                    self.emit(WasmInstr::I32Add)?;
                    self.write_tape()?;
                },
                Op::Go(n) => {
                    self.read_ptr()?;
                    self.emit(WasmInstr::I32Const(*n as i32))?;
                    self.emit(WasmInstr::I32Add)?;
                    self.write_ptr()?;
                },
                Op::SetConstant(b) => {
                    self.emit(WasmInstr::I32Const(b.as_i32()))?;
                    self.write_tape()?;
                },
                Op::Loop(body) => {
                    self.emit(WasmInstr::Loop)?;
                    proof {
                        assert(body.view() =~= v[i as int]->Loop_0);
                    }
                    self.translate(body)?;
                    self.emit(WasmInstr::End)?;
                },
                Op::Read => {
                    self.write_tape()?;
                },
                Op::Write => {
                    self.read_tape()?;
                },
            }
            proof {
                assert(self.buf@ =~= old(self).buf@ + wasm_of(v.subrange(0, i + 1)));
            }
            i += 1;
        }
        proof {
            assert(v.subrange(0, v.len() as int) =~= v);
        }
        Ok(())
    }

    /// The encoded module; no encoding is produced yet.
    fn finish(self) -> (r: Result<Vec<u8>, Error>)
        ensures
            r is Ok && r->Ok_0@.len() == 0,
    {
        Ok(Vec::new())
    }
}

impl Ast {
    /// Lowers the program to wasm instructions. The module framing and encoding
    /// are not written yet, so the bytes come back empty.
    pub fn into_wasm(self) -> (r: Result<Vec<u8>, Error>)
        ensures
            r is Ok && r->Ok_0@.len() == 0,
    {
        let mut builder = Builder { buf: Vec::new() };
        builder.translate(&self)?;
        builder.finish()
    }
}

} // verus!
