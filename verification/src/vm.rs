//! The virtual machine: a stack interpreter for bytecode chunks.

use vstd::prelude::*;
use crate::chunk::{Chunk, Instruction, OpCode, balanced_from, chunk_wf};
use crate::compiler::{ErrModel, ParserError, compile, spec_compile};
use crate::scanner::{Token, TokenModel, TokenType, TokenV, opt_token_model};
use crate::interner::{Interner, Symbol, interner_wf, spec_intern};
use crate::num::{add_bits, sub_bits, mul_bits, div_bits, ieee_lt, ieee_neg, render_bits, num_add,
    num_sub, num_mul, num_div, num_lt, num_gt, num_neg, num_render};
use crate::value::{Value, spec_value_eq, spec_is_falsey, syms_valid};

verus! {

/// The two ways an interpretation can fail: the compiler rejected the
/// source, or execution hit an operand of the wrong type or an exhausted
/// resource.
#[derive(Debug, PartialEq)]
pub enum InterpretError {
    CompileError(String),
    RuntimeError(String),
}

/// The rendered result of a successful run, or the error that stopped it.
pub type InterpretResult = Result<String, InterpretError>;

/// Capacity of the operand stack.
pub const STACK_MAX: usize = 256;

/// The mathematical state of a running machine: instruction pointer,
/// operand stack, interner contents, global bindings keyed by symbol, and
/// the lines printed so far.
#[verifier::ext_equal]
pub struct VmState {
    pub ip: int,
    pub stack: Seq<Value>,
    pub interner: Seq<Seq<char>>,
    pub globals: Map<int, Value>,
    pub output: Seq<Seq<char>>,
}

/// How a run ends: `Done` carries the rendered result, the stack as the
/// `Return` instruction found it, and the final state; `Failed` carries
/// the runtime error message and the state at the failure.
#[verifier::ext_equal]
pub enum RunOutcome {
    Done { result: Seq<char>, stack_at_return: Seq<Value>, st: VmState },
    Failed { msg: Seq<char>, st: VmState },
}

/// How a value is rendered: booleans and nil by their keywords, numbers
/// by their decimal rendering, strings by their interned content.
pub open spec fn spec_render(v: Value, interner: Seq<Seq<char>>) -> Seq<char> {
    match v {
        Value::Bool(b) => if b {
            "true"@
        } else {
            "false"@
        },
        Value::Nil => "nil"@,
        Value::Number(n) => render_bits(n),
        Value::String(s) => interner[s as int],
    }
}

/// The interpreter, one instruction per recursive step. The semantics of
/// every opcode of the machine lives here.
pub open spec fn run_model(instrs: Seq<Instruction>, consts: Seq<Value>, st: VmState) -> RunOutcome
    decreases instrs.len() - st.ip,
{
    if !(0 <= st.ip < instrs.len()) {
        RunOutcome::Failed { msg: "Chunk ended without a return."@, st }
    } else {
        let code = instrs[st.ip].code;
        let st1 = VmState { ip: st.ip + 1, ..st };
        match code {
            OpCode::Constant(c) => match step_push(st1, consts[c as int]) {
                Ok(s2) => run_model(instrs, consts, s2),
                Err(o) => o,
            },
            OpCode::Nil => match step_push(st1, Value::Nil) {
                Ok(s2) => run_model(instrs, consts, s2),
                Err(o) => o,
            },
            OpCode::True => match step_push(st1, Value::Bool(true)) {
                Ok(s2) => run_model(instrs, consts, s2),
                Err(o) => o,
            },
            OpCode::False => match step_push(st1, Value::Bool(false)) {
                Ok(s2) => run_model(instrs, consts, s2),
                Err(o) => o,
            },
            OpCode::Pop => {
                if st1.stack.len() < 1 {
                    RunOutcome::Failed { msg: "Stack underflow."@, st: st1 }
                } else {
                    run_model(instrs, consts, VmState { stack: st1.stack.drop_last(), ..st1 })
                }
            },
            OpCode::Equal => {
                if st1.stack.len() < 2 {
                    RunOutcome::Failed { msg: "Stack underflow."@, st: st1 }
                } else {
                    let b = st1.stack.last();
                    let a = st1.stack[st1.stack.len() - 2];
                    run_model(
                        instrs,
                        consts,
                        VmState {
                            stack: st1.stack.take(st1.stack.len() - 2).push(
                                Value::Bool(spec_value_eq(a, b)),
                            ),
                            ..st1
                        },
                    )
                }
            },
            OpCode::Greater => match step_cmp(st1, true) {
                Ok(s2) => run_model(instrs, consts, s2),
                Err(o) => o,
            },
            OpCode::Less => match step_cmp(st1, false) {
                Ok(s2) => run_model(instrs, consts, s2),
                Err(o) => o,
            },
            OpCode::Add => {
                if st1.stack.len() < 2 {
                    RunOutcome::Failed { msg: "Stack underflow."@, st: st1 }
                } else {
                    let b = st1.stack.last();
                    let a = st1.stack[st1.stack.len() - 2];
                    match (a, b) {
                        (Value::String(x), Value::String(y)) => {
                            let cat = st1.interner[x as int] + st1.interner[y as int];
                            let (m2, sym) = spec_intern(st1.interner, cat);
                            run_model(
                                instrs,
                                consts,
                                VmState {
                                    stack: st1.stack.take(st1.stack.len() - 2).push(
                                        Value::String(sym as usize),
                                    ),
                                    interner: m2,
                                    ..st1
                                },
                            )
                        },
                        (Value::Number(x), Value::Number(y)) => run_model(
                            instrs,
                            consts,
                            VmState {
                                stack: st1.stack.take(st1.stack.len() - 2).push(
                                    Value::Number(add_bits(x, y)),
                                ),
                                ..st1
                            },
                        ),
                        _ => RunOutcome::Failed {
                            msg: "Operands must be numbers or strings."@,
                            st: st1,
                        },
                    }
                }
            },
            OpCode::Subtract => match step_arith(st1, OpCode::Subtract) {
                Ok(s2) => run_model(instrs, consts, s2),
                Err(o) => o,
            },
            OpCode::Multiply => match step_arith(st1, OpCode::Multiply) {
                Ok(s2) => run_model(instrs, consts, s2),
                Err(o) => o,
            },
            OpCode::Divide => match step_arith(st1, OpCode::Divide) {
                Ok(s2) => run_model(instrs, consts, s2),
                Err(o) => o,
            },
            OpCode::Negate => {
                if st1.stack.len() < 1 {
                    RunOutcome::Failed { msg: "Stack underflow."@, st: st1 }
                } else {
                    match st1.stack.last() {
                        Value::Number(n) => run_model(
                            instrs,
                            consts,
                            VmState {
                                stack: st1.stack.drop_last().push(Value::Number(ieee_neg(n))),
                                ..st1
                            },
                        ),
                        _ => RunOutcome::Failed { msg: "Operand must be number."@, st: st1 },
                    }
                }
            },
            OpCode::Not => {
                if st1.stack.len() < 1 {
                    RunOutcome::Failed { msg: "Stack underflow."@, st: st1 }
                } else {
                    let v = st1.stack.last();
                    run_model(
                        instrs,
                        consts,
                        VmState {
                            stack: st1.stack.drop_last().push(Value::Bool(spec_is_falsey(v))),
                            ..st1
                        },
                    )
                }
            },
            OpCode::Print => {
                if st1.stack.len() < 1 {
                    RunOutcome::Failed { msg: "Stack underflow."@, st: st1 }
                } else {
                    let v = st1.stack.last();
                    run_model(
                        instrs,
                        consts,
                        VmState {
                            stack: st1.stack.drop_last(),
                            output: st1.output.push(spec_render(v, st1.interner)),
                            ..st1
                        },
                    )
                }
            },
            OpCode::DefineGlobal(c) => {
                if st1.stack.len() < 1 {
                    RunOutcome::Failed { msg: "Stack underflow."@, st: st1 }
                } else {
                    match consts[c as int] {
                        Value::String(sym) => run_model(
                            instrs,
                            consts,
                            VmState {
                                stack: st1.stack.drop_last(),
                                globals: st1.globals.insert(
                                    sym as int,
                                    st1.stack.last(),
                                ),
                                ..st1
                            },
                        ),
                        _ => RunOutcome::Failed {
                            msg: "Global name must be a string."@,
                            st: st1,
                        },
                    }
                }
            },
            OpCode::Return => {
                if st1.stack.len() == 0 {
                    RunOutcome::Done {
                        result: spec_render(Value::Nil, st1.interner),
                        stack_at_return: st1.stack,
                        st: st1,
                    }
                } else {
                    RunOutcome::Done {
                        result: spec_render(st1.stack.last(), st1.interner),
                        stack_at_return: st1.stack,
                        st: VmState { stack: st1.stack.drop_last(), ..st1 },
                    }
                }
            },
        }
    }
}

/// Push a value onto the stack, or fail on overflow.
pub open spec fn step_push(st: VmState, v: Value) -> Result<VmState, RunOutcome> {
    if st.stack.len() >= STACK_MAX {
        Err(RunOutcome::Failed { msg: "Stack overflow."@, st })
    } else {
        Ok(VmState { stack: st.stack.push(v), ..st })
    }
}

/// Pop two numbers and push their comparison, as `Greater` and `Less` do.
pub open spec fn step_cmp(st: VmState, greater: bool) -> Result<VmState, RunOutcome> {
    if st.stack.len() < 2 {
        Err(RunOutcome::Failed { msg: "Stack underflow."@, st })
    } else {
        let b = st.stack.last();
        let a = st.stack[st.stack.len() - 2];
        match (a, b) {
            (Value::Number(x), Value::Number(y)) => Ok(
                VmState {
                    stack: st.stack.take(st.stack.len() - 2).push(
                        Value::Bool(
                            if greater {
                                ieee_lt(y, x)
                            } else {
                                ieee_lt(x, y)
                            },
                        ),
                    ),
                    ..st
                },
            ),
            _ => Err(RunOutcome::Failed { msg: "Operands must be numbers."@, st }),
        }
    }
}

/// Pop two numbers and push the arithmetic result, as `Subtract`,
/// `Multiply` and `Divide` do.
pub open spec fn step_arith(st: VmState, code: OpCode) -> Result<VmState, RunOutcome> {
    if st.stack.len() < 2 {
        Err(RunOutcome::Failed { msg: "Stack underflow."@, st })
    } else {
        let b = st.stack.last();
        let a = st.stack[st.stack.len() - 2];
        match (a, b) {
            (Value::Number(x), Value::Number(y)) => Ok(
                VmState {
                    stack: st.stack.take(st.stack.len() - 2).push(
                        Value::Number(
                            match code {
                                OpCode::Subtract => sub_bits(x, y),
                                OpCode::Multiply => mul_bits(x, y),
                                _ => div_bits(x, y),
                            },
                        ),
                    ),
                    ..st
                },
            ),
            _ => Err(RunOutcome::Failed { msg: "Operands must be numbers."@, st }),
        }
    }
}

/// The global bindings that a shadowing association list denotes: later
/// entries win.
pub open spec fn assoc_map(s: Seq<(Symbol, Value)>) -> Map<int, Value>
    decreases s.len(),
{
    if s.len() == 0 {
        Map::empty()
    } else {
        assoc_map(s.drop_last()).insert(s.last().0 as int, s.last().1)
    }
}

/// The lines a vector of strings holds, as character sequences.
pub open spec fn lines_view(v: Seq<String>) -> Seq<Seq<char>> {
    v.map_values(|s: String| s@)
}

/// The virtual machine: a chunk, an instruction pointer, a bounded
/// operand stack, the shared interner, the global bindings, and the
/// lines printed so far.
#[derive(Debug)]
pub struct VM {
    chunk: Chunk,
    ip: usize,
    stack: Vec<Value>,
    interner: Interner,
    globals: Vec<(Symbol, Value)>,
    output: Vec<String>,
}

impl VM {
    /// The machine's mathematical state.
    pub closed spec fn state(&self) -> VmState {
        VmState {
            ip: self.ip as int,
            stack: self.stack@,
            interner: self.interner@,
            globals: assoc_map(self.globals@),
            output: lines_view(self.output@),
        }
    }

    /// The chunk the machine currently holds.
    pub closed spec fn spec_chunk(&self) -> (Seq<Instruction>, Seq<Value>) {
        (self.chunk.instructions@, self.chunk.constants@)
    }

    /// The machine's invariant: a distinct interner, a bounded stack whose
    /// string values the interner knows, and in-range constant references.
    pub closed spec fn inv(&self) -> bool {
        &&& interner_wf(self.interner@)
        &&& self.stack@.len() <= STACK_MAX
        &&& syms_valid(self.stack@, self.interner@.len() as int)
        &&& chunk_wf(self.chunk.instructions@, self.chunk.constants@)
        &&& syms_valid(self.chunk.constants@, self.interner@.len() as int)
    }

    /// A machine with an empty chunk, an empty stack, a fresh interner,
    /// no globals and no output.
    pub fn new() -> (r: VM)
        ensures
            r.inv(),
            r.state() == (VmState {
                ip: 0,
                stack: Seq::<Value>::empty(),
                interner: Seq::<Seq<char>>::empty(),
                globals: Map::<int, Value>::empty(),
                output: Seq::<Seq<char>>::empty(),
            }),
            r.spec_chunk().0.len() == 0,
            r.spec_chunk().1.len() == 0,
    {
        let r = VM {
            chunk: Chunk::new(),
            ip: 0,
            stack: Vec::new(),
            interner: Interner::new(),
            globals: Vec::new(),
            output: Vec::new(),
        };
        proof {
            assert(r.state().stack =~= Seq::<Value>::empty());
            assert(assoc_map(r.globals@) =~= Map::<int, Value>::empty());
            assert(lines_view(r.output@) =~= Seq::<Seq<char>>::empty());
            assert(r.state() =~= (VmState {
                ip: 0,
                stack: Seq::<Value>::empty(),
                interner: Seq::<Seq<char>>::empty(),
                globals: Map::<int, Value>::empty(),
                output: Seq::<Seq<char>>::empty(),
            }));
        }
        r
    }

    /// Install a chunk for the next run.
    pub fn load_chunk(&mut self, chunk: Chunk)
        requires
            old(self).inv(),
            chunk_wf(chunk.instructions@, chunk.constants@),
            syms_valid(chunk.constants@, old(self).state().interner.len() as int),
        ensures
            final(self).inv(),
            final(self).state() == old(self).state(),
            final(self).spec_chunk() == (chunk.instructions@, chunk.constants@),
    {
        self.chunk = chunk;
    }

    /// The shared interner.
    pub fn interner(&self) -> (r: &Interner)
        ensures
            r@ == self.state().interner,
    {
        &self.interner
    }

    /// The lines the machine has printed so far.
    pub fn output(&self) -> (r: &Vec<String>)
        ensures
            lines_view(r@) == self.state().output,
    {
        &self.output
    }

    /// A fresh runtime error carrying the message.
    fn rt_err(msg: &str) -> (r: InterpretError)
        ensures
            r matches InterpretError::RuntimeError(m) && m@ == msg@,
    {
        InterpretError::RuntimeError(String::from_str(msg))
    }

    /// Render a value for output, consulting the interner for strings.
    fn render_value(&self, v: Value) -> (r: String)
        requires
            v matches Value::String(s) ==> (s as int) < self.state().interner.len(),
        ensures
            r@ == spec_render(v, self.state().interner),
    {
        match v {
            Value::Bool(b) => {
                if b {
                    String::from_str("true")
                } else {
                    String::from_str("false")
                }
            },
            Value::Nil => String::from_str("nil"),
            Value::Number(n) => num_render(n),
            Value::String(s) => self.interner.lookup(s).to_owned(),
        }
    }

    /// Reset the instruction pointer and the operand stack.
    fn reset_stack(&mut self)
        ensures
            final(self).state() == (VmState {
                ip: 0,
                stack: Seq::<Value>::empty(),
                ..old(self).state()
            }),
            final(self).spec_chunk() == old(self).spec_chunk(),
            old(self).inv() ==> final(self).inv(),
    {
        self.ip = 0;
        self.stack = Vec::new();
        proof {
            assert(self.stack@ =~= Seq::<Value>::empty());
            assert(self.state() =~= (VmState {
                ip: 0,
                stack: Seq::<Value>::empty(),
                ..old(self).state()
            }));
        }
    }

    /// Execute the loaded chunk from the start: reset, then fetch and
    /// dispatch instructions until a `Return` or a runtime error, exactly
    /// as `run_model` describes.
    pub fn run(&mut self) -> (r: InterpretResult)
        requires
            old(self).inv(),
        ensures
            final(self).inv(),
            final(self).spec_chunk() == old(self).spec_chunk(),
            ({
                let init = VmState {
                    ip: 0,
                    stack: Seq::<Value>::empty(),
                    ..old(self).state()
                };
                let o = run_model(old(self).spec_chunk().0, old(self).spec_chunk().1, init);
                match r {
                    Ok(s) => o matches RunOutcome::Done { result, stack_at_return, st } && s@
                        == result && final(self).state() == st,
                    Err(InterpretError::RuntimeError(m)) => o matches RunOutcome::Failed {
                        msg,
                        st,
                    } && m@ == msg && final(self).state() == st,
                    Err(InterpretError::CompileError(_)) => false,
                }
            }),
    {
        self.reset_stack();
        let ghost i0 = self.spec_chunk().0;
        let ghost c0 = self.spec_chunk().1;
        let ghost init = self.state();
        loop
            invariant
                self.inv(),
                i0 == old(self).spec_chunk().0,
                c0 == old(self).spec_chunk().1,
                init == (VmState {
                    ip: 0,
                    stack: Seq::<Value>::empty(),
                    ..old(self).state()
                }),
                self.spec_chunk() == old(self).spec_chunk(),
                run_model(i0, c0, init) == run_model(i0, c0, self.state()),
            decreases i0.len() - self.state().ip,
        {
            let ghost pre = self.state();
            if self.ip >= self.chunk.instructions.len() {
                proof {
                    assert(run_model(i0, c0, pre) == (RunOutcome::Failed {
                        msg: "Chunk ended without a return."@,
                        st: pre,
                    }));
                }
                return Err(VM::rt_err("Chunk ended without a return."));
            }
            let inst = self.chunk.instructions[self.ip];
            self.ip = self.ip + 1;
            let ghost st1 = VmState { ip: pre.ip + 1, ..pre };
            proof {
                assert(st1 =~= self.state());
            }
            let n = self.stack.len();
            match inst.code {
                OpCode::Constant(c) => {
                    let constant = self.chunk.constants[c];
                    if n >= STACK_MAX {
                        proof {
                            assert(run_model(i0, c0, pre) == (RunOutcome::Failed {
                                msg: "Stack overflow."@,
                                st: st1,
                            }));
                        }
                        return Err(VM::rt_err("Stack overflow."));
                    }
                    self.stack.push(constant);
                    proof {
                        assert((VmState { stack: st1.stack.push(constant), ..st1 })
                            =~= self.state());
                        assert(run_model(i0, c0, pre) == run_model(i0, c0, self.state()));
                    }
                },
                OpCode::Nil => {
                    if n >= STACK_MAX {
                        proof {
                            assert(run_model(i0, c0, pre) == (RunOutcome::Failed {
                                msg: "Stack overflow."@,
                                st: st1,
                            }));
                        }
                        return Err(VM::rt_err("Stack overflow."));
                    }
                    self.stack.push(Value::Nil);
                    proof {
                        assert((VmState { stack: st1.stack.push(Value::Nil), ..st1 })
                            =~= self.state());
                        assert(run_model(i0, c0, pre) == run_model(i0, c0, self.state()));
                    }
                },
                OpCode::True => {
                    if n >= STACK_MAX {
                        proof {
                            assert(run_model(i0, c0, pre) == (RunOutcome::Failed {
                                msg: "Stack overflow."@,
                                st: st1,
                            }));
                        }
                        return Err(VM::rt_err("Stack overflow."));
                    }
                    self.stack.push(Value::Bool(true));
                    proof {
                        assert((VmState { stack: st1.stack.push(Value::Bool(true)), ..st1 })
                            =~= self.state());
                        assert(run_model(i0, c0, pre) == run_model(i0, c0, self.state()));
                    }
                },
                OpCode::False => {
                    if n >= STACK_MAX {
                        proof {
                            assert(run_model(i0, c0, pre) == (RunOutcome::Failed {
                                msg: "Stack overflow."@,
                                st: st1,
                            }));
                        }
                        return Err(VM::rt_err("Stack overflow."));
                    }
                    self.stack.push(Value::Bool(false));
                    proof {
                        assert((VmState { stack: st1.stack.push(Value::Bool(false)), ..st1 })
                            =~= self.state());
                        assert(run_model(i0, c0, pre) == run_model(i0, c0, self.state()));
                    }
                },
                OpCode::Pop => {
                    if n < 1 {
                        proof {
                            assert(run_model(i0, c0, pre) == (RunOutcome::Failed {
                                msg: "Stack underflow."@,
                                st: st1,
                            }));
                        }
                        return Err(VM::rt_err("Stack underflow."));
                    }
                    self.stack.pop().unwrap();
                    proof {
                        assert((VmState { stack: st1.stack.drop_last(), ..st1 })
                            =~= self.state());
                        assert(run_model(i0, c0, pre) == run_model(i0, c0, self.state()));
                    }
                },
                OpCode::Equal => {
                    if n < 2 {
                        proof {
                            assert(run_model(i0, c0, pre) == (RunOutcome::Failed {
                                msg: "Stack underflow."@,
                                st: st1,
                            }));
                        }
                        return Err(VM::rt_err("Stack underflow."));
                    }
                    let b = self.stack.pop().unwrap();
                    let a = self.stack.pop().unwrap();
                    let eq = a.equals(&b);
                    self.stack.push(Value::Bool(eq));
                    proof {
                        assert(self.stack@ =~= st1.stack.take(st1.stack.len() - 2).push(
                            Value::Bool(spec_value_eq(a, b)),
                        ));
                        assert((VmState {
                            stack: st1.stack.take(st1.stack.len() - 2).push(
                                Value::Bool(spec_value_eq(a, b)),
                            ),
                            ..st1
                        }) =~= self.state());
                        assert(run_model(i0, c0, pre) == run_model(i0, c0, self.state()));
                    }
                },
                OpCode::Greater => {
                    if n < 2 {
                        proof {
                            assert(run_model(i0, c0, pre) == (RunOutcome::Failed {
                                msg: "Stack underflow."@,
                                st: st1,
                            }));
                        }
                        return Err(VM::rt_err("Stack underflow."));
                    }
                    let b = self.stack[n - 1];
                    let a = self.stack[n - 2];
                    match (a, b) {
                        (Value::Number(x), Value::Number(y)) => {
                            self.stack.truncate(n - 2);
                            self.stack.push(Value::Bool(num_gt(x, y)));
                            proof {
                                assert(self.stack@ =~= st1.stack.take(st1.stack.len() - 2).push(
                                    Value::Bool(ieee_lt(y, x)),
                                ));
                                assert((VmState {
                                    stack: st1.stack.take(st1.stack.len() - 2).push(
                                        Value::Bool(ieee_lt(y, x)),
                                    ),
                                    ..st1
                                }) =~= self.state());
                                assert(run_model(i0, c0, pre) == run_model(
                                    i0,
                                    c0,
                                    self.state(),
                                ));
                            }
                        },
                        _ => {
                            proof {
                                assert(run_model(i0, c0, pre) == (RunOutcome::Failed {
                                    msg: "Operands must be numbers."@,
                                    st: st1,
                                }));
                            }
                            return Err(VM::rt_err("Operands must be numbers."));
                        },
                    }
                },
                OpCode::Less => {
                    if n < 2 {
                        proof {
                            assert(run_model(i0, c0, pre) == (RunOutcome::Failed {
                                msg: "Stack underflow."@,
                                st: st1,
                            }));
                        }
                        return Err(VM::rt_err("Stack underflow."));
                    }
                    let b = self.stack[n - 1];
                    let a = self.stack[n - 2];
                    match (a, b) {
                        (Value::Number(x), Value::Number(y)) => {
                            self.stack.truncate(n - 2);
                            self.stack.push(Value::Bool(num_lt(x, y)));
                            proof {
                                assert(self.stack@ =~= st1.stack.take(st1.stack.len() - 2).push(
                                    Value::Bool(ieee_lt(x, y)),
                                ));
                                assert((VmState {
                                    stack: st1.stack.take(st1.stack.len() - 2).push(
                                        Value::Bool(ieee_lt(x, y)),
                                    ),
                                    ..st1
                                }) =~= self.state());
                                assert(run_model(i0, c0, pre) == run_model(
                                    i0,
                                    c0,
                                    self.state(),
                                ));
                            }
                        },
                        _ => {
                            proof {
                                assert(run_model(i0, c0, pre) == (RunOutcome::Failed {
                                    msg: "Operands must be numbers."@,
                                    st: st1,
                                }));
                            }
                            return Err(VM::rt_err("Operands must be numbers."));
                        },
                    }
                },
                OpCode::Add => {
                    if n < 2 {
                        proof {
                            assert(run_model(i0, c0, pre) == (RunOutcome::Failed {
                                msg: "Stack underflow."@,
                                st: st1,
                            }));
                        }
                        return Err(VM::rt_err("Stack underflow."));
                    }
                    let b = self.stack[n - 1];
                    let a = self.stack[n - 2];
                    match (a, b) {
                        (Value::String(x), Value::String(y)) => {
                            let sa = self.interner.lookup(x).to_owned();
                            let sb = self.interner.lookup(y).to_owned();
                            let cat = sa.concat(sb.as_str());
                            let sym = self.interner.intern(cat.as_str());
                            self.stack.truncate(n - 2);
                            self.stack.push(Value::String(sym));
                            proof {
                                let catv = st1.interner[x as int] + st1.interner[y as int];
                                let (m2, symv) = spec_intern(st1.interner, catv);
                                assert(self.stack@ =~= st1.stack.take(st1.stack.len() - 2).push(
                                    Value::String(symv as usize),
                                ));
                                assert((VmState {
                                    stack: st1.stack.take(st1.stack.len() - 2).push(
                                        Value::String(symv as usize),
                                    ),
                                    interner: m2,
                                    ..st1
                                }) =~= self.state());
                                assert(run_model(i0, c0, pre) == run_model(
                                    i0,
                                    c0,
                                    self.state(),
                                ));
                            }
                        },
                        (Value::Number(x), Value::Number(y)) => {
                            self.stack.truncate(n - 2);
                            self.stack.push(Value::Number(num_add(x, y)));
                            proof {
                                assert(self.stack@ =~= st1.stack.take(st1.stack.len() - 2).push(
                                    Value::Number(add_bits(x, y)),
                                ));
                                assert((VmState {
                                    stack: st1.stack.take(st1.stack.len() - 2).push(
                                        Value::Number(add_bits(x, y)),
                                    ),
                                    ..st1
                                }) =~= self.state());
                                assert(run_model(i0, c0, pre) == run_model(
                                    i0,
                                    c0,
                                    self.state(),
                                ));
                            }
                        },
                        _ => {
                            proof {
                                assert(run_model(i0, c0, pre) == (RunOutcome::Failed {
                                    msg: "Operands must be numbers or strings."@,
                                    st: st1,
                                }));
                            }
                            return Err(VM::rt_err("Operands must be numbers or strings."));
                        },
                    }
                },
                OpCode::Subtract => {
                    if n < 2 {
                        proof {
                            assert(run_model(i0, c0, pre) == (RunOutcome::Failed {
                                msg: "Stack underflow."@,
                                st: st1,
                            }));
                        }
                        return Err(VM::rt_err("Stack underflow."));
                    }
                    let b = self.stack[n - 1];
                    let a = self.stack[n - 2];
                    match (a, b) {
                        (Value::Number(x), Value::Number(y)) => {
                            self.stack.truncate(n - 2);
                            self.stack.push(Value::Number(num_sub(x, y)));
                            proof {
                                assert(self.stack@ =~= st1.stack.take(st1.stack.len() - 2).push(
                                    Value::Number(sub_bits(x, y)),
                                ));
                                assert((VmState {
                                    stack: st1.stack.take(st1.stack.len() - 2).push(
                                        Value::Number(sub_bits(x, y)),
                                    ),
                                    ..st1
                                }) =~= self.state());
                                assert(run_model(i0, c0, pre) == run_model(
                                    i0,
                                    c0,
                                    self.state(),
                                ));
                            }
                        },
                        _ => {
                            proof {
                                assert(run_model(i0, c0, pre) == (RunOutcome::Failed {
                                    msg: "Operands must be numbers."@,
                                    st: st1,
                                }));
                            }
                            return Err(VM::rt_err("Operands must be numbers."));
                        },
                    }
                },
                OpCode::Multiply => {
                    if n < 2 {
                        proof {
                            assert(run_model(i0, c0, pre) == (RunOutcome::Failed {
                                msg: "Stack underflow."@,
                                st: st1,
                            }));
                        }
                        return Err(VM::rt_err("Stack underflow."));
                    }
                    let b = self.stack[n - 1];
                    let a = self.stack[n - 2];
                    match (a, b) {
                        (Value::Number(x), Value::Number(y)) => {
                            self.stack.truncate(n - 2);
                            self.stack.push(Value::Number(num_mul(x, y)));
                            proof {
                                assert(self.stack@ =~= st1.stack.take(st1.stack.len() - 2).push(
                                    Value::Number(mul_bits(x, y)),
                                ));
                                assert((VmState {
                                    stack: st1.stack.take(st1.stack.len() - 2).push(
                                        Value::Number(mul_bits(x, y)),
                                    ),
                                    ..st1
                                }) =~= self.state());
                                assert(run_model(i0, c0, pre) == run_model(
                                    i0,
                                    c0,
                                    self.state(),
                                ));
                            }
                        },
                        _ => {
                            proof {
                                assert(run_model(i0, c0, pre) == (RunOutcome::Failed {
                                    msg: "Operands must be numbers."@,
                                    st: st1,
                                }));
                            }
                            return Err(VM::rt_err("Operands must be numbers."));
                        },
                    }
                },
                OpCode::Divide => {
                    if n < 2 {
                        proof {
                            assert(run_model(i0, c0, pre) == (RunOutcome::Failed {
                                msg: "Stack underflow."@,
                                st: st1,
                            }));
                        }
                        return Err(VM::rt_err("Stack underflow."));
                    }
                    let b = self.stack[n - 1];
                    let a = self.stack[n - 2];
                    match (a, b) {
                        (Value::Number(x), Value::Number(y)) => {
                            self.stack.truncate(n - 2);
                            self.stack.push(Value::Number(num_div(x, y)));
                            proof {
                                assert(self.stack@ =~= st1.stack.take(st1.stack.len() - 2).push(
                                    Value::Number(div_bits(x, y)),
                                ));
                                assert((VmState {
                                    stack: st1.stack.take(st1.stack.len() - 2).push(
                                        Value::Number(div_bits(x, y)),
                                    ),
                                    ..st1
                                }) =~= self.state());
                                assert(run_model(i0, c0, pre) == run_model(
                                    i0,
                                    c0,
                                    self.state(),
                                ));
                            }
                        },
                        _ => {
                            proof {
                                assert(run_model(i0, c0, pre) == (RunOutcome::Failed {
                                    msg: "Operands must be numbers."@,
                                    st: st1,
                                }));
                            }
                            return Err(VM::rt_err("Operands must be numbers."));
                        },
                    }
                },
                OpCode::Negate => {
                    if n < 1 {
                        proof {
                            assert(run_model(i0, c0, pre) == (RunOutcome::Failed {
                                msg: "Stack underflow."@,
                                st: st1,
                            }));
                        }
                        return Err(VM::rt_err("Stack underflow."));
                    }
                    let a = self.stack[n - 1];
                    match a {
                        Value::Number(x) => {
                            self.stack.pop().unwrap();
                            self.stack.push(Value::Number(num_neg(x)));
                            proof {
                                assert(self.stack@ =~= st1.stack.drop_last().push(
                                    Value::Number(ieee_neg(x)),
                                ));
                                assert((VmState {
                                    stack: st1.stack.drop_last().push(Value::Number(ieee_neg(x))),
                                    ..st1
                                }) =~= self.state());
                                assert(run_model(i0, c0, pre) == run_model(
                                    i0,
                                    c0,
                                    self.state(),
                                ));
                            }
                        },
                        _ => {
                            proof {
                                assert(run_model(i0, c0, pre) == (RunOutcome::Failed {
                                    msg: "Operand must be number."@,
                                    st: st1,
                                }));
                            }
                            return Err(VM::rt_err("Operand must be number."));
                        },
                    }
                },
                OpCode::Not => {
                    if n < 1 {
                        proof {
                            assert(run_model(i0, c0, pre) == (RunOutcome::Failed {
                                msg: "Stack underflow."@,
                                st: st1,
                            }));
                        }
                        return Err(VM::rt_err("Stack underflow."));
                    }
                    let a = self.stack.pop().unwrap();
                    let f = a.is_falsey();
                    self.stack.push(Value::Bool(f));
                    proof {
                        assert(self.stack@ =~= st1.stack.drop_last().push(
                            Value::Bool(spec_is_falsey(a)),
                        ));
                        assert((VmState {
                            stack: st1.stack.drop_last().push(Value::Bool(spec_is_falsey(a))),
                            ..st1
                        }) =~= self.state());
                        assert(run_model(i0, c0, pre) == run_model(i0, c0, self.state()));
                    }
                },
                OpCode::Print => {
                    if n < 1 {
                        proof {
                            assert(run_model(i0, c0, pre) == (RunOutcome::Failed {
                                msg: "Stack underflow."@,
                                st: st1,
                            }));
                        }
                        return Err(VM::rt_err("Stack underflow."));
                    }
                    let a = self.stack.pop().unwrap();
                    let line = self.render_value(a);
                    self.output.push(line);
                    proof {
                        assert(lines_view(self.output@) =~= st1.output.push(
                            spec_render(a, st1.interner),
                        ));
                        assert((VmState {
                            stack: st1.stack.drop_last(),
                            output: st1.output.push(spec_render(a, st1.interner)),
                            ..st1
                        }) =~= self.state());
                        assert(run_model(i0, c0, pre) == run_model(i0, c0, self.state()));
                    }
                },
                OpCode::DefineGlobal(c) => {
                    if n < 1 {
                        proof {
                            assert(run_model(i0, c0, pre) == (RunOutcome::Failed {
                                msg: "Stack underflow."@,
                                st: st1,
                            }));
                        }
                        return Err(VM::rt_err("Stack underflow."));
                    }
                    let name = self.chunk.constants[c];
                    match name {
                        Value::String(sym) => {
                            let a = self.stack.pop().unwrap();
                            let ghost gv0 = self.globals@;
                            self.globals.push((sym, a));
                            proof {
                                assert(self.globals@.drop_last() =~= gv0);
                                assert(assoc_map(self.globals@) == st1.globals.insert(
                                    sym as int,
                                    a,
                                ));
                                assert((VmState {
                                    stack: st1.stack.drop_last(),
                                    globals: st1.globals.insert(sym as int, a),
                                    ..st1
                                }) =~= self.state());
                                assert(run_model(i0, c0, pre) == run_model(
                                    i0,
                                    c0,
                                    self.state(),
                                ));
                            }
                        },
                        _ => {
                            proof {
                                assert(run_model(i0, c0, pre) == (RunOutcome::Failed {
                                    msg: "Global name must be a string."@,
                                    st: st1,
                                }));
                            }
                            return Err(VM::rt_err("Global name must be a string."));
                        },
                    }
                },
                OpCode::Return => {
                    if n == 0 {
                        let s = self.render_value(Value::Nil);
                        proof {
                            assert(run_model(i0, c0, pre) == (RunOutcome::Done {
                                result: spec_render(Value::Nil, st1.interner),
                                stack_at_return: st1.stack,
                                st: st1,
                            }));
                        }
                        return Ok(s);
                    }
                    let v = self.stack.pop().unwrap();
                    let s = self.render_value(v);
                    proof {
                        assert((VmState { stack: st1.stack.drop_last(), ..st1 })
                            =~= self.state());
                        assert(run_model(i0, c0, pre) == (RunOutcome::Done {
                            result: spec_render(v, st1.interner),
                            stack_at_return: st1.stack,
                            st: VmState { stack: st1.stack.drop_last(), ..st1 },
                        }));
                    }
                    return Ok(s);
                },
            }
        }
    }

    /// The formatted diagnostic for a compile error, as the rules in
    /// `spec_format_err` lay it out.
    pub fn format_err(error: &ParserError) -> (r: String)
        ensures
            r@ == spec_format_err(opt_token_model(error.token), error.message@),
    {
        match &error.token {
            Some(tok) => {
                let is_eof = match &tok.token_type {
                    TokenType::EOF => true,
                    _ => false,
                };
                let is_lex = match &tok.token_type {
                    TokenType::Error(_) => true,
                    _ => false,
                };
                if is_eof {
                    let mut out = String::from_str("[line ");
                    let num = usize_to_string(tok.line);
                    out.append(num.as_str());
                    out.append("] Error at end: ");
                    out.append(error.message.as_str());
                    out.append("\n");
                    proof {
                        assert(out@ =~= spec_format_err(
                            opt_token_model(error.token),
                            error.message@,
                        ));
                    }
                    out
                } else if is_lex {
                    let mut out = error.message.clone();
                    out.append("\n");
                    proof {
                        assert(out@ =~= spec_format_err(
                            opt_token_model(error.token),
                            error.message@,
                        ));
                    }
                    out
                } else {
                    let mut out = String::from_str("[line ");
                    let num = usize_to_string(tok.line);
                    out.append(num.as_str());
                    out.append("] Error at '");
                    let lex = token_lexeme(&tok.token_type);
                    out.append(lex.as_str());
                    out.append("': ");
                    out.append(error.message.as_str());
                    out.append("\n");
                    proof {
                        assert(out@ =~= spec_format_err(
                            opt_token_model(error.token),
                            error.message@,
                        ));
                    }
                    out
                }
            },
            None => {
                let mut out = String::from_str("Error: ");
                out.append(error.message.as_str());
                out.append("\n");
                proof {
                    assert(out@ =~= spec_format_err(
                        opt_token_model(error.token),
                        error.message@,
                    ));
                }
                out
            },
        }
    }

    /// Compile the source, sharing the interner, and run the chunk. A
    /// rejected source comes back as a `CompileError` carrying the
    /// formatted diagnostic; the compiled chunk stays loaded and is well
    /// formed, `Return`-terminated and stack-balanced.
    pub fn interpret(&mut self, contents: &str) -> (r: InterpretResult)
        requires
            old(self).inv(),
            contents@.len() < usize::MAX,
        ensures
            final(self).inv(),
            r matches Err(InterpretError::CompileError(_)) ==> final(self).spec_chunk() == old(
                self,
            ).spec_chunk(),
            !(r matches Err(InterpretError::CompileError(_))) ==> ({
                let c = final(self).spec_chunk();
                &&& chunk_wf(c.0, c.1)
                &&& c.0.len() >= 1
                &&& c.0.last().code == OpCode::Return
                &&& (balanced_from(c.0.drop_last(), 0) == Some(0int) || balanced_from(
                    c.0.drop_last(),
                    0,
                ) == Some(1int))
            }),
            ({
                let (cm, ce) = spec_compile(contents@, old(self).state().interner);
                let init = VmState {
                    ip: 0,
                    stack: Seq::<Value>::empty(),
                    interner: cm.interner,
                    globals: old(self).state().globals,
                    output: old(self).state().output,
                };
                let o = run_model(cm.instrs, cm.consts, init);
                match r {
                    Err(InterpretError::CompileError(m)) => {
                        &&& ce matches Some(er) && m@ == spec_format_err(er.token, er.message)
                        &&& final(self).state() == (VmState {
                            interner: cm.interner,
                            ..old(self).state()
                        })
                    },
                    Ok(s) => {
                        &&& ce matches Option::<ErrModel>::None
                        &&& final(self).spec_chunk() == (cm.instrs, cm.consts)
                        &&& o matches RunOutcome::Done { result, stack_at_return, st } && s@
                            == result && final(self).state() == st
                    },
                    Err(InterpretError::RuntimeError(msg)) => {
                        &&& ce matches Option::<ErrModel>::None
                        &&& final(self).spec_chunk() == (cm.instrs, cm.consts)
                        &&& o matches RunOutcome::Failed { msg: mm, st } && msg@ == mm
                            && final(self).state() == st
                    },
                }
            }),
    {
        let ghost n0 = self.interner@.len();
        match compile(contents, &mut self.interner) {
            Ok(c) => {
                self.chunk = c;
                proof {
                    assert(syms_valid(self.stack@, self.interner@.len() as int)) by {
                        assert(n0 <= self.interner@.len());
                    }
                }
                self.run()
            },
            Err(e) => {
                let msg = VM::format_err(&e);
                proof {
                    let (cm, ce) = spec_compile(contents@, old(self).state().interner);
                    assert(self.state() =~= (VmState {
                        interner: cm.interner,
                        ..old(self).state()
                    }));
                }
                Err(InterpretError::CompileError(msg))
            },
        }
    }

    /// The value bound to a global symbol, if any.
    pub fn get_global(&self, sym: Symbol) -> (r: Option<Value>)
        ensures
            match r {
                Some(v) => self.state().globals.contains_key(sym as int) && v
                    == self.state().globals[sym as int],
                None => !self.state().globals.contains_key(sym as int),
            },
    {
        let n = self.globals.len();
        let mut i: usize = n;
        while i > 0
            invariant
                0 <= i <= n,
                n == self.globals@.len(),
                assoc_map(self.globals@) == self.state().globals,
                forall|j: int| i <= j < n ==> (#[trigger] self.globals@[j]).0 != sym,
            decreases i,
        {
            i = i - 1;
            let entry = self.globals[i];
            if entry.0 == sym {
                proof {
                    lemma_assoc_map_found(self.globals@, i as int, sym as int);
                }
                return Some(entry.1);
            }
        }
        proof {
            lemma_assoc_map_missing(self.globals@, sym as int);
        }
        None
    }
}

/// The decimal digit character for a value below ten.
pub open spec fn dec_digit(d: int) -> char {
    if d == 0 {
        '0'
    } else if d == 1 {
        '1'
    } else if d == 2 {
        '2'
    } else if d == 3 {
        '3'
    } else if d == 4 {
        '4'
    } else if d == 5 {
        '5'
    } else if d == 6 {
        '6'
    } else if d == 7 {
        '7'
    } else if d == 8 {
        '8'
    } else {
        '9'
    }
}

/// The decimal numeral of a number, most significant digit first.
pub open spec fn dec_rep(n: nat) -> Seq<char>
    decreases n,
{
    if n < 10 {
        seq![dec_digit(n as int)]
    } else {
        dec_rep(n / 10).push(dec_digit((n % 10) as int))
    }
}

/// The source text a token stands for in a diagnostic; numbers are shown
/// by their decimal rendering.
pub open spec fn spec_token_lexeme(k: TokenV) -> Seq<char> {
    match k {
        TokenV::LeftParen => "("@,
        TokenV::RightParen => ")"@,
        TokenV::LeftBrace => "{"@,
        TokenV::RightBrace => "}"@,
        TokenV::Comma => ","@,
        TokenV::Dot => "."@,
        TokenV::Minus => "-"@,
        TokenV::Plus => "+"@,
        TokenV::Semicolon => ";"@,
        TokenV::Slash => "/"@,
        TokenV::Star => "*"@,
        TokenV::Bang => "!"@,
        TokenV::BangEqual => "!="@,
        TokenV::Equal => "="@,
        TokenV::EqualEqual => "=="@,
        TokenV::Greater => ">"@,
        TokenV::GreaterEqual => ">="@,
        TokenV::Less => "<"@,
        TokenV::LessEqual => "<="@,
        TokenV::Identifier(s) => s,
        TokenV::String(s) => s,
        TokenV::Number(n) => render_bits(n),
        TokenV::And => "and"@,
        TokenV::Class => "class"@,
        TokenV::Else => "else"@,
        TokenV::False => "false"@,
        TokenV::For => "for"@,
        TokenV::Fun => "fun"@,
        TokenV::If => "if"@,
        TokenV::Nil => "nil"@,
        TokenV::Or => "or"@,
        TokenV::Print => "print"@,
        TokenV::Return => "return"@,
        TokenV::Super => "super"@,
        TokenV::This => "this"@,
        TokenV::True => "true"@,
        TokenV::Var => "var"@,
        TokenV::While => "while"@,
        TokenV::Error(m) => m,
        TokenV::EOF => Seq::empty(),
    }
}

/// The formatted diagnostic for a compile error: `[line N] Error at
/// '<lexeme>': <message>` for interior tokens, `at end` at `EOF`, the
/// bare message for lexical errors, and `Error: <message>` when no token
/// is attached.
pub open spec fn spec_format_err(token: Option<TokenModel>, message: Seq<char>) -> Seq<char> {
    match token {
        Some(t) => {
            if (t.kind matches TokenV::EOF) {
                ("[line "@) + dec_rep(t.line as nat) + ("] Error at end: "@) + message + (
                "\n"@)
            } else if (t.kind matches TokenV::Error(_)) {
                message + ("\n"@)
            } else {
                ("[line "@) + dec_rep(t.line as nat) + ("] Error at '"@) + spec_token_lexeme(
                    t.kind,
                ) + ("': "@) + message + ("\n"@)
            }
        },
        None => ("Error: "@) + message + ("\n"@),
    }
}

/// The character of one decimal digit.
fn digit_str(d: usize) -> (r: &'static str)
    requires
        d < 10,
    ensures
        r@ == seq![dec_digit(d as int)],
{
    let r: &'static str = if d == 0 {
        "0"
    } else if d == 1 {
        "1"
    } else if d == 2 {
        "2"
    } else if d == 3 {
        "3"
    } else if d == 4 {
        "4"
    } else if d == 5 {
        "5"
    } else if d == 6 {
        "6"
    } else if d == 7 {
        "7"
    } else if d == 8 {
        "8"
    } else {
        "9"
    };
    proof {
        reveal_strlit("0");
        reveal_strlit("1");
        reveal_strlit("2");
        reveal_strlit("3");
        reveal_strlit("4");
        reveal_strlit("5");
        reveal_strlit("6");
        reveal_strlit("7");
        reveal_strlit("8");
        reveal_strlit("9");
        assert(r@ =~= seq![dec_digit(d as int)]);
    }
    r
}

/// The decimal numeral of a number.
fn usize_to_string(n: usize) -> (r: String)
    ensures
        r@ == dec_rep(n as nat),
    decreases n,
{
    if n < 10 {
        String::from_str(digit_str(n))
    } else {
        let mut s = usize_to_string(n / 10);
        s.append(digit_str(n % 10));
        proof {
            assert(s@ =~= dec_rep((n / 10) as nat).push(dec_digit((n % 10) as int)));
        }
        s
    }
}

/// The lexeme a token shows in a diagnostic.
fn token_lexeme(t: &TokenType) -> (r: String)
    ensures
        r@ == spec_token_lexeme(t@),
{
    match t {
        TokenType::LeftParen => String::from_str("("),
        TokenType::RightParen => String::from_str(")"),
        TokenType::LeftBrace => String::from_str("{"),
        TokenType::RightBrace => String::from_str("}"),
        TokenType::Comma => String::from_str(","),
        TokenType::Dot => String::from_str("."),
        TokenType::Minus => String::from_str("-"),
        TokenType::Plus => String::from_str("+"),
        TokenType::Semicolon => String::from_str(";"),
        TokenType::Slash => String::from_str("/"),
        TokenType::Star => String::from_str("*"),
        TokenType::Bang => String::from_str("!"),
        TokenType::BangEqual => String::from_str("!="),
        TokenType::Equal => String::from_str("="),
        TokenType::EqualEqual => String::from_str("=="),
        TokenType::Greater => String::from_str(">"),
        TokenType::GreaterEqual => String::from_str(">="),
        TokenType::Less => String::from_str("<"),
        TokenType::LessEqual => String::from_str("<="),
        TokenType::Identifier(s) => s.clone(),
        TokenType::String(s) => s.clone(),
        TokenType::Number(n) => num_render(*n),
        TokenType::And => String::from_str("and"),
        TokenType::Class => String::from_str("class"),
        TokenType::Else => String::from_str("else"),
        TokenType::False => String::from_str("false"),
        TokenType::For => String::from_str("for"),
        TokenType::Fun => String::from_str("fun"),
        TokenType::If => String::from_str("if"),
        TokenType::Nil => String::from_str("nil"),
        TokenType::Or => String::from_str("or"),
        TokenType::Print => String::from_str("print"),
        TokenType::Return => String::from_str("return"),
        TokenType::Super => String::from_str("super"),
        TokenType::This => String::from_str("this"),
        TokenType::True => String::from_str("true"),
        TokenType::Var => String::from_str("var"),
        TokenType::While => String::from_str("while"),
        TokenType::Error(m) => m.clone(),
        TokenType::EOF => String::new(),
    }
}

/// When entry `i` carries `sym` and no later entry does, the map holds
/// entry `i`'s value for it.
pub proof fn lemma_assoc_map_found(s: Seq<(Symbol, Value)>, i: int, k: int)
    requires
        0 <= i < s.len(),
        s[i].0 as int == k,
        forall|j: int| i < j < s.len() ==> (#[trigger] s[j]).0 as int != k,
    ensures
        assoc_map(s).contains_key(k),
        assoc_map(s)[k] == s[i].1,
    decreases s.len(),
{
    if i == s.len() - 1 {
    } else {
        lemma_assoc_map_found(s.drop_last(), i, k);
        assert(s.drop_last()[i] == s[i]);
    }
}

/// Truthiness: executing `Not` on a stack whose top is `v` replaces it
/// with `Bool(true)` exactly when `v` is `Nil` or `Bool(false)`, and with
/// `Bool(false)` for every other value.
pub proof fn lemma_not_truthiness(instrs: Seq<Instruction>, consts: Seq<Value>, st: VmState)
    requires
        0 <= st.ip < instrs.len(),
        instrs[st.ip].code == OpCode::Not,
        st.stack.len() >= 1,
    ensures
        run_model(instrs, consts, st) == run_model(
            instrs,
            consts,
            VmState {
                ip: st.ip + 1,
                stack: st.stack.drop_last().push(
                    Value::Bool(
                        st.stack.last() == Value::Nil || st.stack.last() == Value::Bool(false),
                    ),
                ),
                ..st
            },
        ),
{
}

/// Stack discipline: running a `Return`-terminated chunk whose body is
/// free of `Return` and stack-balanced to a net of `n` values, from any
/// point whose depth the balance accounts for, reaches the final `Return`
/// with exactly `n` values on the stack whenever it does not stop with a
/// runtime error. For a chunk compiled from a source that ends in a bare
/// expression the net is one, so the stack pointer at `Return` is
/// exactly 1.
pub proof fn lemma_stack_discipline(
    instrs: Seq<Instruction>,
    consts: Seq<Value>,
    st: VmState,
    n: int,
)
    requires
        instrs.len() >= 1,
        instrs.last().code == OpCode::Return,
        crate::chunk::no_return(instrs.drop_last()),
        0 <= st.ip <= instrs.len() - 1,
        balanced_from(
            instrs.subrange(st.ip, instrs.len() - 1),
            st.stack.len() as int,
        ) == Some(n),
    ensures
        run_model(instrs, consts, st) matches RunOutcome::Done { stack_at_return, .. }
            ==> stack_at_return.len() == n,
    decreases instrs.len() - st.ip,
{
    let last = instrs.len() as int - 1;
    if st.ip == last {
        assert(instrs.subrange(last, last) =~= Seq::<Instruction>::empty());
        assert(instrs[st.ip] == instrs.last());
    } else {
        let code = instrs[st.ip].code;
        let suffix = instrs.subrange(st.ip, last);
        assert(suffix[0] == instrs[st.ip]);
        assert(instrs.drop_last()[st.ip] == instrs[st.ip]);
        assert(!(code matches OpCode::Return));
        assert(suffix.drop_first() =~= instrs.subrange(st.ip + 1, last));
        let len = st.stack.len() as int;
        let d2 = len - crate::chunk::op_pops(code) + crate::chunk::op_pushes(code);
        assert(balanced_from(instrs.subrange(st.ip + 1, last), d2) == Some(n));
        let st1 = VmState { ip: st.ip + 1, ..st };
        match code {
            OpCode::Constant(c) => {
                if st1.stack.len() < STACK_MAX {
                    lemma_stack_discipline(
                        instrs,
                        consts,
                        VmState { stack: st1.stack.push(consts[c as int]), ..st1 },
                        n,
                    );
                }
            },
            OpCode::Nil => {
                if st1.stack.len() < STACK_MAX {
                    lemma_stack_discipline(
                        instrs,
                        consts,
                        VmState { stack: st1.stack.push(Value::Nil), ..st1 },
                        n,
                    );
                }
            },
            OpCode::True => {
                if st1.stack.len() < STACK_MAX {
                    lemma_stack_discipline(
                        instrs,
                        consts,
                        VmState { stack: st1.stack.push(Value::Bool(true)), ..st1 },
                        n,
                    );
                }
            },
            OpCode::False => {
                if st1.stack.len() < STACK_MAX {
                    lemma_stack_discipline(
                        instrs,
                        consts,
                        VmState { stack: st1.stack.push(Value::Bool(false)), ..st1 },
                        n,
                    );
                }
            },
            OpCode::Pop => {
                lemma_stack_discipline(
                    instrs,
                    consts,
                    VmState { stack: st1.stack.drop_last(), ..st1 },
                    n,
                );
            },
            OpCode::Equal => {
                let b = st1.stack.last();
                let a = st1.stack[st1.stack.len() - 2];
                lemma_stack_discipline(
                    instrs,
                    consts,
                    VmState {
                        stack: st1.stack.take(st1.stack.len() - 2).push(
                            Value::Bool(spec_value_eq(a, b)),
                        ),
                        ..st1
                    },
                    n,
                );
            },
            OpCode::Greater => {
                if let Ok(s2) = step_cmp(st1, true) {
                    lemma_stack_discipline(instrs, consts, s2, n);
                }
            },
            OpCode::Less => {
                if let Ok(s2) = step_cmp(st1, false) {
                    lemma_stack_discipline(instrs, consts, s2, n);
                }
            },
            OpCode::Add => {
                let b = st1.stack.last();
                let a = st1.stack[st1.stack.len() - 2];
                match (a, b) {
                    (Value::String(x), Value::String(y)) => {
                        let cat = st1.interner[x as int] + st1.interner[y as int];
                        let (m2, sym) = spec_intern(st1.interner, cat);
                        lemma_stack_discipline(
                            instrs,
                            consts,
                            VmState {
                                stack: st1.stack.take(st1.stack.len() - 2).push(
                                    Value::String(sym as usize),
                                ),
                                interner: m2,
                                ..st1
                            },
                            n,
                        );
                    },
                    (Value::Number(x), Value::Number(y)) => {
                        lemma_stack_discipline(
                            instrs,
                            consts,
                            VmState {
                                stack: st1.stack.take(st1.stack.len() - 2).push(
                                    Value::Number(add_bits(x, y)),
                                ),
                                ..st1
                            },
                            n,
                        );
                    },
                    _ => {},
                }
            },
            OpCode::Subtract => {
                if let Ok(s2) = step_arith(st1, OpCode::Subtract) {
                    lemma_stack_discipline(instrs, consts, s2, n);
                }
            },
            OpCode::Multiply => {
                if let Ok(s2) = step_arith(st1, OpCode::Multiply) {
                    lemma_stack_discipline(instrs, consts, s2, n);
                }
            },
            OpCode::Divide => {
                if let Ok(s2) = step_arith(st1, OpCode::Divide) {
                    lemma_stack_discipline(instrs, consts, s2, n);
                }
            },
            OpCode::Negate => {
                match st1.stack.last() {
                    Value::Number(m) => {
                        lemma_stack_discipline(
                            instrs,
                            consts,
                            VmState {
                                stack: st1.stack.drop_last().push(Value::Number(ieee_neg(m))),
                                ..st1
                            },
                            n,
                        );
                    },
                    _ => {},
                }
            },
            OpCode::Not => {
                let v = st1.stack.last();
                lemma_stack_discipline(
                    instrs,
                    consts,
                    VmState {
                        stack: st1.stack.drop_last().push(Value::Bool(spec_is_falsey(v))),
                        ..st1
                    },
                    n,
                );
            },
            OpCode::Print => {
                let v = st1.stack.last();
                lemma_stack_discipline(
                    instrs,
                    consts,
                    VmState {
                        stack: st1.stack.drop_last(),
                        output: st1.output.push(spec_render(v, st1.interner)),
                        ..st1
                    },
                    n,
                );
            },
            OpCode::DefineGlobal(c) => {
                match consts[c as int] {
                    Value::String(sym) => {
                        lemma_stack_discipline(
                            instrs,
                            consts,
                            VmState {
                                stack: st1.stack.drop_last(),
                                globals: st1.globals.insert(sym as int, st1.stack.last()),
                                ..st1
                            },
                            n,
                        );
                    },
                    _ => {},
                }
            },
            OpCode::Return => {},
        }
    }
}

/// Stack discipline from the start of a run: a chunk of the compiler's
/// shape whose body nets one value (a program ending in a bare
/// expression) reaches its final `Return` with the stack pointer exactly
/// 1, whenever it reaches it at all.
pub proof fn lemma_stack_discipline_run(
    instrs: Seq<Instruction>,
    consts: Seq<Value>,
    interner: Seq<Seq<char>>,
    globals: Map<int, Value>,
    output: Seq<Seq<char>>,
)
    requires
        instrs.len() >= 1,
        instrs.last().code == OpCode::Return,
        crate::chunk::no_return(instrs.drop_last()),
        balanced_from(instrs.drop_last(), 0) == Some(1int),
    ensures
        ({
            let init = VmState { ip: 0, stack: Seq::empty(), interner, globals, output };
            run_model(instrs, consts, init) matches RunOutcome::Done { stack_at_return, .. }
                ==> stack_at_return.len() == 1
        }),
{
    let init = VmState { ip: 0, stack: Seq::empty(), interner, globals, output };
    assert(instrs.subrange(0, instrs.len() - 1) =~= instrs.drop_last());
    lemma_stack_discipline(instrs, consts, init, 1);
}

/// When no entry carries `sym`, the map does not either.
pub proof fn lemma_assoc_map_missing(s: Seq<(Symbol, Value)>, k: int)
    requires
        forall|j: int| 0 <= j < s.len() ==> (#[trigger] s[j]).0 as int != k,
    ensures
        !assoc_map(s).contains_key(k),
    decreases s.len(),
{
    if s.len() > 0 {
        lemma_assoc_map_missing(s.drop_last(), k);
    }
}

} // verus!
