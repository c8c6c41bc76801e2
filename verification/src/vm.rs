//! The virtual machine: a stack interpreter that walks a chunk's instruction
//! stream from the start, mutating an operand stack, and halts on `Return` or
//! on the first detected fault. Its behaviour is pinned to a specification
//! interpreter (`step_once` / `exec_from`) written over plain sequences.
use vstd::prelude::*;

use crate::chunk::{Chunk, ChunkModel, ConstantTrait, Op, spec_get_constant};
use crate::debug::{Disassembler, spec_op_line};
use crate::value::{Value, add_bits, div_bits, mul_bits, neg_bits, sub_bits, value_text};
use crate::value::{value_add, value_div, value_mul, value_neg, value_sub, value_to_string};

verus! {

/// What a whole run reports to the caller: success, a front-end failure, or a
/// fault detected while executing.
#[derive(Debug, Clone, Copy, PartialEq, Eq, Structural)]
pub enum InterpretResult {
    OK,
    CompileError,
    RuntimeError,
}

/// How execution of a chunk ends, at the specification level.
///
/// `Done` carries the value popped by `Return` and the stack left below it.
/// `NoReturn` is falling off the end of the stream without a `Return`.
/// `Underflow` is an instruction finding fewer operands than it pops.
/// `TypeError` is arithmetic on the absent value; the operands are consumed.
/// `BadConstant` is a `Constant` whose index operand is missing or out of
/// range. Each faulting variant carries the operand stack at the fault.
pub ghost enum Outcome {
    Done { value: Value, rest: Seq<Value> },
    NoReturn { stack: Seq<Value> },
    Underflow { stack: Seq<Value> },
    TypeError { stack: Seq<Value> },
    BadConstant { stack: Seq<Value> },
}

/// One dispatch of the specification interpreter: still going, or ended.
pub ghost enum StepState {
    Going { ip: nat, stack: Seq<Value> },
    Ended { outcome: Outcome },
}

/// Whether an instruction is one of the four binary arithmetic operators.
pub open spec fn is_binary(op: Op) -> bool {
    op is Add || op is Subtract || op is Multiply || op is Divide
}

/// The bit pattern a binary arithmetic operator produces from numeric
/// operand bit patterns `a` and `b`.
pub open spec fn bin_bits(op: Op, a: u64, b: u64) -> u64
    recommends
        is_binary(op),
{
    match op {
        Op::Add => add_bits(a, b),
        Op::Subtract => sub_bits(a, b),
        Op::Multiply => mul_bits(a, b),
        Op::Divide => div_bits(a, b),
        _ => 0,
    }
}

/// Executes exactly one instruction of `code` at `ip` on `stack`.
///
/// Binary operators pop the right operand first, then the left; `Constant`
/// advances by two positions, every other instruction by one. A stray
/// `ConstantIndex` met as an instruction is not executable and is skipped.
pub open spec fn step_once(code: Seq<Op>, consts: Seq<Value>, ip: nat, stack: Seq<Value>) -> StepState {
    if ip >= code.len() {
        StepState::Ended { outcome: Outcome::NoReturn { stack } }
    } else {
        match code[ip as int] {
            Op::Return => if stack.len() >= 1 {
                StepState::Ended {
                    outcome: Outcome::Done { value: stack.last(), rest: stack.drop_last() },
                }
            } else {
                StepState::Ended { outcome: Outcome::Underflow { stack } }
            },
            Op::Constant => match spec_get_constant(code, consts, ip as int) {
                Ok(iv) => StepState::Going { ip: (ip + 2) as nat, stack: stack.push(iv.1) },
                Err(_) => StepState::Ended { outcome: Outcome::BadConstant { stack } },
            },
            Op::ConstantIndex(_) => StepState::Going { ip: (ip + 1) as nat, stack },
            Op::Nil => StepState::Going { ip: (ip + 1) as nat, stack: stack.push(Value::Nil) },
            Op::Negate => if stack.len() < 1 {
                StepState::Ended { outcome: Outcome::Underflow { stack } }
            } else if !(stack.last() is Num) {
                StepState::Ended { outcome: Outcome::TypeError { stack: stack.drop_last() } }
            } else {
                StepState::Going {
                    ip: (ip + 1) as nat,
                    stack: stack.drop_last().push(Value::Num(neg_bits(stack.last()->Num_0))),
                }
            },
            _ => {
                // the four binary arithmetic operators
                if stack.len() < 2 {
                    StepState::Ended { outcome: Outcome::Underflow { stack } }
                } else {
                    let b = stack.last();
                    let a = stack.drop_last().last();
                    let below = stack.drop_last().drop_last();
                    if a is Num && b is Num {
                        StepState::Going {
                            ip: (ip + 1) as nat,
                            stack: below.push(
                                Value::Num(bin_bits(code[ip as int], a->Num_0, b->Num_0)),
                            ),
                        }
                    } else {
                        StepState::Ended { outcome: Outcome::TypeError { stack: below } }
                    }
                }
            },
        }
    }
}

/// A step that keeps going never moves the cursor backwards or past the end.
pub proof fn lemma_step_advances(code: Seq<Op>, consts: Seq<Value>, ip: nat, stack: Seq<Value>)
    ensures
        step_once(code, consts, ip, stack) matches StepState::Going { ip: ip2, .. } ==> ip < ip2
            <= code.len(),
{
}

/// Runs the specification interpreter from `ip` and `stack` to its end.
pub open spec fn exec_from(code: Seq<Op>, consts: Seq<Value>, ip: nat, stack: Seq<Value>) -> Outcome
    decreases code.len() - ip,
{
    match step_once(code, consts, ip, stack) {
        StepState::Ended { outcome } => outcome,
        StepState::Going { ip: ip2, stack: stack2 } => if ip < ip2 <= code.len() {
            exec_from(code, consts, ip2, stack2)
        } else {
            // unreachable: a going step always advances within bounds
            Outcome::NoReturn { stack: stack2 }
        },
    }
}

/// What a whole chunk executes to, from an empty stack.
pub open spec fn chunk_outcome(code: Seq<Op>, consts: Seq<Value>) -> Outcome {
    exec_from(code, consts, 0, Seq::empty())
}

/// Net change an instruction makes to the operand stack depth when it
/// executes and control keeps going: `Constant` and `Nil` push one value,
/// `Negate` pops one and pushes one, each binary arithmetic operator pops two
/// and pushes one, and a skipped operand slot touches nothing.
pub open spec fn op_stack_delta(op: Op) -> int {
    match op {
        Op::Constant => 1,
        Op::Nil => 1,
        Op::Negate => 0,
        Op::Add => -1,
        Op::Subtract => -1,
        Op::Multiply => -1,
        Op::Divide => -1,
        _ => 0,
    }
}

/// One continuing step changes the stack depth by exactly the net effect of
/// the instruction it executed.
pub proof fn lemma_step_depth(code: Seq<Op>, consts: Seq<Value>, ip: nat, stack: Seq<Value>)
    ensures
        step_once(code, consts, ip, stack) matches StepState::Going { stack: stack2, .. } ==> ip
            < code.len() && stack2.len() == stack.len() + op_stack_delta(code[ip as int]),
{
}

/// The state after at most `k` steps of the specification interpreter: still
/// going, or the end met within those steps.
pub open spec fn run_steps(code: Seq<Op>, consts: Seq<Value>, ip: nat, stack: Seq<Value>, k: nat) -> StepState
    decreases k,
{
    if k == 0 {
        StepState::Going { ip, stack }
    } else {
        match step_once(code, consts, ip, stack) {
            StepState::Ended { outcome } => StepState::Ended { outcome },
            StepState::Going { ip: ip2, stack: stack2 } => run_steps(code, consts, ip2, stack2,
                (k - 1) as nat),
        }
    }
}

/// The step-indexed runner agrees with the full run: an end it reaches
/// within its step budget is exactly the run's outcome.
pub proof fn lemma_run_steps_sound(
    code: Seq<Op>,
    consts: Seq<Value>,
    ip: nat,
    stack: Seq<Value>,
    k: nat,
)
    ensures
        run_steps(code, consts, ip, stack, k) matches StepState::Ended { outcome } ==> exec_from(
            code, consts, ip, stack) == outcome,
    decreases k,
{
    if k > 0 {
        lemma_step_advances(code, consts, ip, stack);
        match step_once(code, consts, ip, stack) {
            StepState::Ended { .. } => {
            },
            StepState::Going { ip: ip2, stack: stack2 } => {
                lemma_run_steps_sound(code, consts, ip2, stack2, (k - 1) as nat);
            },
        }
    }
}

/// The pushes minus pops accumulated over the first `k` instructions
/// executed from `ip` and `stack`, or over as many as execute before the end.
pub open spec fn path_delta(code: Seq<Op>, consts: Seq<Value>, ip: nat, stack: Seq<Value>, k: nat) -> int
    decreases k,
{
    if k == 0 {
        0
    } else {
        match step_once(code, consts, ip, stack) {
            StepState::Ended { .. } => 0,
            StepState::Going { ip: ip2, stack: stack2 } => op_stack_delta(code[ip as int])
                + path_delta(code, consts, ip2, stack2, (k - 1) as nat),
        }
    }
}

/// Stack discipline: as long as a run has not halted, the operand stack
/// depth after `k` executed instructions equals the starting depth plus the
/// pushes minus pops accumulated over exactly those instructions.
pub proof fn lemma_stack_discipline(
    code: Seq<Op>,
    consts: Seq<Value>,
    ip: nat,
    stack: Seq<Value>,
    k: nat,
)
    ensures
        run_steps(code, consts, ip, stack, k) matches StepState::Going { stack: sk, .. }
            ==> sk.len() == stack.len() + path_delta(code, consts, ip, stack, k),
    decreases k,
{
    if k > 0 {
        lemma_step_depth(code, consts, ip, stack);
        match step_once(code, consts, ip, stack) {
            StepState::Ended { .. } => {
            },
            StepState::Going { ip: ip2, stack: stack2 } => {
                lemma_stack_discipline(code, consts, ip2, stack2, (k - 1) as nat);
            },
        }
    }
}

/// The type shape of an operand stack: `true` for each numeric slot.
pub open spec fn stack_shape(stack: Seq<Value>) -> Seq<bool> {
    stack.map_values(|v: Value| v is Num)
}

/// A static walk of the instruction stream from `ip`, carrying only the
/// shape of the operand stack: it demands that every instruction meets
/// enough operands of the right kind and that every `Constant` resolves, and
/// accepts reaching the end of the stream or a well-supplied `Return`.
pub open spec fn shape_safe_from(code: Seq<Op>, consts: Seq<Value>, ip: nat, shape: Seq<bool>) -> bool
    decreases code.len() - ip,
    when ip <= code.len()
{
    if ip >= code.len() {
        true
    } else {
        match code[ip as int] {
            Op::Return => shape.len() >= 1,
            Op::Constant => match spec_get_constant(code, consts, ip as int) {
                Ok(iv) => ip + 2 <= code.len() && shape_safe_from(code, consts, (ip + 2) as nat,
                    shape.push(iv.1 is Num)),
                Err(_) => false,
            },
            Op::ConstantIndex(_) => shape_safe_from(code, consts, (ip + 1) as nat, shape),
            Op::Nil => shape_safe_from(code, consts, (ip + 1) as nat, shape.push(false)),
            Op::Negate => shape.len() >= 1 && shape.last() && shape_safe_from(code, consts,
                (ip + 1) as nat, shape),
            _ => shape.len() >= 2 && shape.last() && shape.drop_last().last()
                && shape_safe_from(code, consts, (ip + 1) as nat,
                shape.drop_last().drop_last().push(true)),
        }
    }
}

/// The induction behind the termination law: from any cursor position inside
/// a stream whose last instruction is `Return`, a shape-safe run ends in
/// `Done`.
proof fn lemma_run_completes(code: Seq<Op>, consts: Seq<Value>, ip: nat, stack: Seq<Value>)
    requires
        ip < code.len(),
        code.last() is Return,
        shape_safe_from(code, consts, ip, stack_shape(stack)),
    ensures
        exec_from(code, consts, ip, stack) is Done,
    decreases code.len() - ip,
{
    reveal_with_fuel(exec_from, 2);
    let shape = stack_shape(stack);
    assert(shape.len() == stack.len());
    match code[ip as int] {
        Op::Return => {
        },
        Op::Constant => {
            match spec_get_constant(code, consts, ip as int) {
                Ok(iv) => {
                    assert(code[ip as int + 1] is ConstantIndex);
                    assert(ip + 2 < code.len()) by {
                        if ip + 2 == code.len() {
                            assert(code.last() is ConstantIndex);
                        }
                    }
                    assert(stack_shape(stack.push(iv.1)) =~= shape.push(iv.1 is Num));
                    lemma_run_completes(code, consts, (ip + 2) as nat, stack.push(iv.1));
                },
                Err(_) => {
                },
            }
        },
        Op::ConstantIndex(_) => {
            assert(ip + 1 < code.len()) by {
                if ip + 1 == code.len() {
                    assert(code.last() is ConstantIndex);
                }
            }
            lemma_run_completes(code, consts, (ip + 1) as nat, stack);
        },
        Op::Nil => {
            assert(ip + 1 < code.len()) by {
                if ip + 1 == code.len() {
                    assert(code.last() is Nil);
                }
            }
            assert(stack_shape(stack.push(Value::Nil)) =~= shape.push(false));
            lemma_run_completes(code, consts, (ip + 1) as nat, stack.push(Value::Nil));
        },
        Op::Negate => {
            assert(ip + 1 < code.len()) by {
                if ip + 1 == code.len() {
                    assert(code.last() is Negate);
                }
            }
            assert(stack.last() is Num);
            let stack2 = stack.drop_last().push(Value::Num(neg_bits(stack.last()->Num_0)));
            assert(stack_shape(stack2) =~= shape);
            lemma_run_completes(code, consts, (ip + 1) as nat, stack2);
        },
        _ => {
            assert(ip + 1 < code.len()) by {
                if ip + 1 == code.len() {
                    assert(code.last() == code[ip as int]);
                }
            }
            assert(stack.last() is Num);
            assert(stack.drop_last().last() is Num);
            let below = stack.drop_last().drop_last();
            let stack2 = below.push(
                Value::Num(bin_bits(code[ip as int], stack.drop_last().last()->Num_0,
                stack.last()->Num_0)),
            );
            assert(stack_shape(stack2) =~= shape.drop_last().drop_last().push(true));
            lemma_run_completes(code, consts, (ip + 1) as nat, stack2);
        },
    }
}

/// Termination: the specification interpreter is total and the machine's
/// dispatch loop is proved to terminate, so every chunk halts; this law adds
/// that a chunk whose stream is shape-safe from an empty stack and whose
/// last instruction is `Return` halts successfully, with a defined final
/// popped value.
pub proof fn lemma_return_halts_ok(code: Seq<Op>, consts: Seq<Value>)
    requires
        code.len() > 0,
        code.last() is Return,
        shape_safe_from(code, consts, 0, Seq::empty()),
    ensures
        chunk_outcome(code, consts) is Done,
{
    assert(stack_shape(Seq::empty()) =~= Seq::<bool>::empty());
    lemma_run_completes(code, consts, 0, Seq::empty());
}

/// The diagnostic rendering of an operand stack: each value bracketed, the
/// bottom of the stack leftmost.
pub open spec fn stack_text(stack: Seq<Value>) -> Seq<char>
    decreases stack.len(),
{
    if stack.len() == 0 {
        Seq::empty()
    } else {
        stack_text(stack.drop_last()) + "["@ + value_text(stack.last()) + "]"@
    }
}

/// The two entries one executed instruction appends to the trace log: the
/// rendered operand stack, then the disassembled instruction at the cursor.
pub open spec fn step_trace(m: ChunkModel, ip: nat, stack: Seq<Value>) -> Seq<Seq<char>> {
    seq![stack_text(stack), spec_op_line(m, ip)]
}

/// Every trace entry a run from `ip` and `stack` emits: two entries per
/// instruction reached, the halting one included; falling off the end emits
/// nothing for the position past the stream.
pub open spec fn trace_from(m: ChunkModel, ip: nat, stack: Seq<Value>) -> Seq<Seq<char>>
    decreases m.code.len() - ip,
{
    if ip >= m.code.len() {
        Seq::empty()
    } else {
        step_trace(m, ip, stack) + (match step_once(m.code, m.consts, ip, stack) {
            StepState::Going { ip: ip2, stack: stack2 } => if ip < ip2 <= m.code.len() {
                trace_from(m, ip2, stack2)
            } else {
                Seq::empty()
            },
            StepState::Ended { .. } => Seq::empty(),
        })
    }
}

/// The views of a log of rendered entries.
pub open spec fn log_views(log: Seq<String>) -> Seq<Seq<char>> {
    log.map_values(|s: String| s@)
}

/// What the machine's reply and end state must be for a given outcome of
/// the specification interpreter: success leaves the popped value reported
/// and the rest of the stack in place; every fault is a runtime error that
/// reports no value and leaves the stack as it stood at the fault.
pub open spec fn run_post(o: Outcome, res: InterpretResult, vm: VirtualMachine) -> bool {
    match o {
        Outcome::Done { value, rest } => {
            &&& res == InterpretResult::OK
            &&& vm.stack@ == rest
            &&& vm.result == Some(value)
        },
        Outcome::NoReturn { stack } => {
            &&& res == InterpretResult::RuntimeError
            &&& vm.stack@ == stack
            &&& vm.result == None::<Value>
        },
        Outcome::Underflow { stack } => {
            &&& res == InterpretResult::RuntimeError
            &&& vm.stack@ == stack
            &&& vm.result == None::<Value>
        },
        Outcome::TypeError { stack } => {
            &&& res == InterpretResult::RuntimeError
            &&& vm.stack@ == stack
            &&& vm.result == None::<Value>
        },
        Outcome::BadConstant { stack } => {
            &&& res == InterpretResult::RuntimeError
            &&& vm.stack@ == stack
            &&& vm.result == None::<Value>
        },
    }
}

/// The stack-based interpreter: an instruction pointer into the current
/// chunk, an operand stack of values, the value popped by the last
/// successful `Return`, and an explicit tracing switch in place of a
/// process-wide flag: when `trace` is on, each executed step appends the
/// rendered operand stack and the disassembled instruction to `trace_log`.
#[derive(Debug)]
pub struct VirtualMachine {
    pub debugger: Disassembler,
    pub ip: usize,
    pub stack: Vec<Value>,
    pub result: Option<Value>,
    pub trace: bool,
    pub trace_log: Vec<String>,
}

/// High-water capacity hint for the operand stack.
const STACK_SIZE: usize = 4098;

impl VirtualMachine {
    /// A fresh machine: cursor at the start, stack empty, nothing reported.
    pub fn new() -> (vm: VirtualMachine)
        ensures
            vm.ip == 0,
            vm.stack@ == Seq::<Value>::empty(),
            vm.result == None::<Value>,
            vm.trace == false,
            vm.trace_log@ == Seq::<String>::empty(),
    {
        VirtualMachine {
            debugger: Disassembler::new(),
            ip: 0,
            stack: Vec::with_capacity(STACK_SIZE),
            result: None,
            trace: false,
            trace_log: Vec::new(),
        }
    }

    /// A fresh machine with tracing switched as asked.
    pub fn with_trace(trace: bool) -> (vm: VirtualMachine)
        ensures
            vm.ip == 0,
            vm.stack@ == Seq::<Value>::empty(),
            vm.result == None::<Value>,
            vm.trace == trace,
            vm.trace_log@ == Seq::<String>::empty(),
    {
        let mut vm = VirtualMachine::new();
        vm.trace = trace;
        vm
    }

    /// Resets the cursor and the operand stack, then runs the chunk from the
    /// start to a `Return` or to the first fault. Success is reported exactly
    /// when the specification interpreter ends in `Done`; every fault is a
    /// runtime error; a compile error never arises here.
    pub fn interpret(&mut self, bytes: &Chunk) -> (res: InterpretResult)
        requires
            bytes.wf(),
        ensures
            run_post(chunk_outcome(bytes.code_view(), bytes.consts_view()), res, *final(self)),
            res != InterpretResult::CompileError,
            final(self).trace == old(self).trace,
            !old(self).trace ==> final(self).trace_log@ == Seq::<String>::empty(),
            old(self).trace ==> log_views(final(self).trace_log@) == trace_from(bytes.model(),
                0, Seq::empty()),
    {
        self.ip = 0;
        self.stack = Vec::new();
        self.result = None;
        self.trace_log = Vec::new();
        self.run(bytes)
    }

    /// The dispatch loop, from the machine's current cursor and stack.
    fn run(&mut self, bytes: &Chunk) -> (res: InterpretResult)
        requires
            bytes.wf(),
            old(self).ip <= bytes.code_view().len(),
            old(self).result == None::<Value>,
        ensures
            run_post(
                exec_from(bytes.code_view(), bytes.consts_view(), old(self).ip as nat,
                old(self).stack@),
                res,
                *final(self),
            ),
            res != InterpretResult::CompileError,
            final(self).trace == old(self).trace,
            !old(self).trace ==> final(self).trace_log@ == old(self).trace_log@,
            old(self).trace ==> log_views(final(self).trace_log@) == log_views(
                old(self).trace_log@) + trace_from(bytes.model(), old(self).ip as nat,
                old(self).stack@),
    {
        let ghost code = bytes.code_view();
        let ghost consts = bytes.consts_view();
        let ghost goal = exec_from(code, consts, old(self).ip as nat, old(self).stack@);
        while self.ip < bytes.count
            invariant
                bytes.wf(),
                code == bytes.code_view(),
                consts == bytes.consts_view(),
                goal == exec_from(code, consts, old(self).ip as nat, old(self).stack@),
                self.ip <= code.len(),
                self.result == None::<Value>,
                goal == exec_from(code, consts, self.ip as nat, self.stack@),
                self.trace == old(self).trace,
                !self.trace ==> self.trace_log@ == old(self).trace_log@,
                self.trace ==> log_views(old(self).trace_log@) + trace_from(bytes.model(),
                    old(self).ip as nat, old(self).stack@) == log_views(self.trace_log@)
                    + trace_from(bytes.model(), self.ip as nat, self.stack@),
            decreases code.len() - self.ip,
        {
            if self.trace {
                let ghost pre_log = self.trace_log@;
                let mut entry = String::new();
                let mut j: usize = 0;
                while j < self.stack.len()
                    invariant
                        j <= self.stack@.len(),
                        entry@ == stack_text(self.stack@.take(j as int)),
                    decreases self.stack.len() - j,
                {
                    entry.append("[");
                    let vtext = value_to_string(&self.stack[j]);
                    entry.append(vtext.as_str());
                    entry.append("]");
                    j = j + 1;
                    proof {
                        assert(self.stack@.take(j as int).drop_last() =~= self.stack@.take(
                            j as int - 1));
                        assert(entry@ =~= stack_text(self.stack@.take(j as int)));
                    }
                }
                proof {
                    assert(self.stack@.take(self.stack@.len() as int) =~= self.stack@);
                }
                self.trace_log.push(entry);
                let (line, _) = self.debugger.disassemble_op(bytes, self.ip);
                self.trace_log.push(line);
                proof {
                    assert(log_views(self.trace_log@) =~= log_views(pre_log) + step_trace(
                        bytes.model(), self.ip as nat, self.stack@));
                    assert(log_views(pre_log) + trace_from(bytes.model(), self.ip as nat,
                        self.stack@) =~= log_views(self.trace_log@) + (match step_once(code,
                        consts, self.ip as nat, self.stack@) {
                        StepState::Going { ip: ip2, stack: stack2 } => if self.ip < ip2
                            <= code.len() {
                            trace_from(bytes.model(), ip2, stack2)
                        } else {
                            Seq::empty()
                        },
                        StepState::Ended { .. } => Seq::empty(),
                    }));
                }
            }
            proof {
                lemma_step_advances(code, consts, self.ip as nat, self.stack@);
                reveal_with_fuel(exec_from, 2);
                assert(goal == ({
                    match step_once(code, consts, self.ip as nat, self.stack@) {
                        StepState::Ended { outcome } => outcome,
                        StepState::Going { ip: ip2, stack: stack2 } => exec_from(code, consts,
                            ip2, stack2),
                    }
                }));
            }
            let op = bytes.code[self.ip];
            match op {
                Op::Return => {
                    match self.stack.pop() {
                        Some(val) => {
                            self.result = Some(val);
                            return InterpretResult::OK;
                        },
                        None => {
                            return InterpretResult::RuntimeError;
                        },
                    }
                },
                Op::Constant => {
                    match bytes.get_constant(self.ip) {
                        Ok(iv) => {
                            self.stack.push(iv.1);
                            self.ip = self.ip + 2;
                        },
                        Err(_) => {
                            return InterpretResult::RuntimeError;
                        },
                    }
                },
                Op::ConstantIndex(_) => {
                    self.ip = self.ip + 1;
                },
                Op::Nil => {
                    self.stack.push(Value::Nil);
                    self.ip = self.ip + 1;
                },
                Op::Negate => {
                    match self.stack.pop() {
                        Some(v) => match v {
                            Value::Num(_) => {
                                self.stack.push(value_neg(v));
                                self.ip = self.ip + 1;
                            },
                            Value::Nil => {
                                return InterpretResult::RuntimeError;
                            },
                        },
                        None => {
                            return InterpretResult::RuntimeError;
                        },
                    }
                },
                _ => {
                    // the four binary arithmetic operators pop the right
                    // operand first, then the left
                    if self.stack.len() < 2 {
                        return InterpretResult::RuntimeError;
                    }
                    let b = self.stack.pop().unwrap();
                    let a = self.stack.pop().unwrap();
                    match (a, b) {
                        (Value::Num(_), Value::Num(_)) => {
                            let r = match op {
                                Op::Add => value_add(a, b),
                                Op::Subtract => value_sub(a, b),
                                Op::Multiply => value_mul(a, b),
                                _ => value_div(a, b),
                            };
                            self.stack.push(r);
                            self.ip = self.ip + 1;
                        },
                        _ => {
                            return InterpretResult::RuntimeError;
                        },
                    }
                },
            }
        }
        InterpretResult::RuntimeError
    }
}

} // verus!

