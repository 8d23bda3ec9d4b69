use vstd::prelude::*;
use crate::bytecode::{pool_view, Bytecode, Bytecodes, Instruction};
use crate::compiler::first_from;
use vstd::string::StringExecFns;
use vstd::string::StrSliceExecFns;

verus! {

broadcast use vstd::std_specs::vec::group_vec_axioms, vstd::seq::group_seq_axioms;

/// A value of the language. A number is held as the bit pattern of its
/// IEEE-754 double.
#[derive(Debug, PartialEq)]
pub enum Value {
    Number(u64),
    String(String),
    Boolean(bool),
    Nil,
}

/// A value as the contracts see it.
pub ghost enum ValueView {
    Number(u64),
    Str(Seq<char>),
    Boolean(bool),
    Nil,
}

impl View for Value {
    type V = ValueView;

    open spec fn view(&self) -> ValueView {
        match self {
            Value::Number(n) => ValueView::Number(*n),
            Value::String(s) => ValueView::Str(s@),
            Value::Boolean(b) => ValueView::Boolean(*b),
            Value::Nil => ValueView::Nil,
        }
    }
}

/// The machine halts only on an `End` instruction, and its program counter
/// then still holds that instruction's index: the halting step changes nothing.
pub proof fn lemma_halt_at_end(m: MachineView)
    requires
        step_spec(m) matches Ok((_, a)) && a == Step::Halt,
    ensures
        m.p < m.code.len(),
        m.code[m.p as int].inst == Instruction::End,
        step_spec(m) == Ok::<(MachineView, Step), VmError>((m, Step::Halt)),
{
}

/// Only `false` and `nil` are falsy.
pub open spec fn truthy(v: ValueView) -> bool {
    !(v == ValueView::Boolean(false) || v == ValueView::Nil)
}

/// The work on numbers that the machine hands out: arithmetic, comparison,
/// and turning a length into a number. `Length` takes the count as `left`.
#[derive(Debug, Clone, Copy, PartialEq, Eq, Structural)]
pub enum NumOp {
    Add,
    Sub,
    Mul,
    RealDiv,
    IntDiv,
    Pow,
    Mod,
    Neg,
    Length,
    Lt,
    Le,
    Eq,
}

/// What one step asks of the caller.
#[derive(Debug, Clone, Copy, PartialEq, Eq, Structural)]
pub enum Step {
    /// Step again.
    Continue,
    /// `End` was reached.
    Halt,
    /// Compute `op` on the operands (double bit patterns) and hand the value
    /// back with `complete`: a `Number` for arithmetic, a `Boolean` for a comparison.
    Compute { op: NumOp, left: u64, right: u64 },
}

/// A runtime error.
#[derive(Debug, Clone, Copy, PartialEq, Eq, Structural)]
pub enum VmError {
    /// An operand was needed and the stack was empty.
    StackUnderflow,
    /// A global was read before any store to it; `ident` is its pool index.
    UndefinedGlobal { ident: usize },
    /// An operator met operands of the wrong type.
    TypeMismatch { inst: Instruction },
    /// A pool index past the end of its pool.
    BadOperand { inst: Instruction },
    /// A jump past the end of the code.
    JumpOutOfRange { target: usize },
    /// The program counter left the code.
    PcOutOfRange,
    /// An instruction that the machine reserves but does not run.
    Unimplemented { inst: Instruction },
    /// A step was asked for while a computed value was still awaited.
    ResultAwaited,
}

/// The whole machine as values: the program, the counter, the stack, the
/// globals (parallel names and values, in order of first store), and whether
/// a computed value is awaited.
pub ghost struct MachineView {
    pub code: Seq<Bytecode>,
    pub nums: Seq<u64>,
    pub strs: Seq<Seq<char>>,
    pub idents: Seq<Seq<char>>,
    pub p: nat,
    pub stack: Seq<ValueView>,
    pub names: Seq<Seq<char>>,
    pub values: Seq<ValueView>,
    pub pending: bool,
}

/// The value of a global, if it has been stored.
pub open spec fn lookup(m: MachineView, name: Seq<char>) -> Option<ValueView> {
    let k = first_from(m.names, name, 0);
    if k < m.names.len() && k < m.values.len() {
        Some(m.values[k as int])
    } else {
        None
    }
}

/// Stores a global: in place when it exists, else added at the end.
pub open spec fn store(m: MachineView, name: Seq<char>, v: ValueView) -> MachineView {
    let k = first_from(m.names, name, 0);
    if k < m.names.len() {
        MachineView { values: m.values.update(k as int, v), ..m }
    } else {
        MachineView { names: m.names.push(name), values: m.values.push(v), ..m }
    }
}

pub open spec fn push(m: MachineView, v: ValueView) -> MachineView {
    MachineView { stack: m.stack.push(v), ..m }
}

pub open spec fn top(m: MachineView) -> ValueView {
    m.stack[m.stack.len() - 1]
}

/// The stack without its top.
pub open spec fn pop(m: MachineView) -> MachineView {
    MachineView { stack: m.stack.drop_last(), ..m }
}

/// The value below the top.
pub open spec fn second(m: MachineView) -> ValueView {
    m.stack[m.stack.len() - 2]
}

/// The stack without its two top values.
pub open spec fn pop2(m: MachineView) -> MachineView {
    MachineView { stack: m.stack.subrange(0, m.stack.len() - 2), ..m }
}

/// The number work of an arithmetic or comparison instruction.
pub open spec fn num_op_of(i: Instruction) -> Option<NumOp> {
    match i {
        Instruction::BinAdd => Some(NumOp::Add),
        Instruction::BinMinus => Some(NumOp::Sub),
        Instruction::BinMul => Some(NumOp::Mul),
        Instruction::BinRealDiv => Some(NumOp::RealDiv),
        Instruction::BinIntDiv => Some(NumOp::IntDiv),
        Instruction::BinPow => Some(NumOp::Pow),
        Instruction::BinMod => Some(NumOp::Mod),
        Instruction::BinLt => Some(NumOp::Lt),
        Instruction::BinLe => Some(NumOp::Le),
        _ => None,
    }
}

/// `==` on values other than two numbers: same type and same content.
pub open spec fn same_value(l: ValueView, r: ValueView) -> bool {
    l == r
}

/// A jump to `target`, which must lie in the code.
pub open spec fn jump(m: MachineView, target: usize) -> Result<(MachineView, Step), VmError> {
    if target < m.code.len() {
        Ok((MachineView { p: target as nat, ..m }, Step::Continue))
    } else {
        Err(VmError::JumpOutOfRange { target })
    }
}

/// One step: fetch `code[p]`, act, and move to `p + 1` unless the
/// instruction jumps or halts. Binary operators take the right operand from
/// the top and the left one from below it.
pub open spec fn step_spec(m: MachineView) -> Result<(MachineView, Step), VmError> {
    if m.pending {
        Err(VmError::ResultAwaited)
    } else if m.p >= m.code.len() {
        Err(VmError::PcOutOfRange)
    } else {
        let b = m.code[m.p as int];
        let i = b.inst;
        let a = b.arg;
        let next = MachineView { p: m.p + 1, ..m };
        match i {
            Instruction::LoadNumber => if a < m.nums.len() {
                Ok((push(next, ValueView::Number(m.nums[a as int])), Step::Continue))
            } else {
                Err(VmError::BadOperand { inst: i })
            },
            Instruction::LoadString => if a < m.strs.len() {
                Ok((push(next, ValueView::Str(m.strs[a as int])), Step::Continue))
            } else {
                Err(VmError::BadOperand { inst: i })
            },
            Instruction::LoadTrue => Ok((push(next, ValueView::Boolean(true)), Step::Continue)),
            Instruction::LoadFalse => Ok((push(next, ValueView::Boolean(false)), Step::Continue)),
            Instruction::LoadNil => Ok((push(next, ValueView::Nil), Step::Continue)),
            Instruction::LoadGlob => if a < m.idents.len() {
                match lookup(m, m.idents[a as int]) {
                    Some(v) => Ok((push(next, v), Step::Continue)),
                    None => Err(VmError::UndefinedGlobal { ident: a }),
                }
            } else {
                Err(VmError::BadOperand { inst: i })
            },
            Instruction::StoreGlob => if a >= m.idents.len() {
                Err(VmError::BadOperand { inst: i })
            } else if m.stack.len() == 0 {
                Err(VmError::StackUnderflow)
            } else {
                Ok((store(pop(next), m.idents[a as int], top(m)), Step::Continue))
            },
            Instruction::JumpAbsolute => jump(m, a),
            Instruction::End => Ok((m, Step::Halt)),
            Instruction::UnaryNot | Instruction::UnaryMinus | Instruction::UnaryLen | Instruction::JumpAbsoluteIfFalse => {
                if m.stack.len() == 0 {
                    Err(VmError::StackUnderflow)
                } else {
                    let v = top(m);
                    let rest = pop(next);
                    match i {
                        Instruction::UnaryNot => Ok((push(rest, ValueView::Boolean(!truthy(v))), Step::Continue)),
                        Instruction::UnaryMinus => match v {
                            ValueView::Number(x) => Ok((MachineView { pending: true, ..rest }, Step::Compute { op: NumOp::Neg, left: x, right: 0 })),
                            _ => Err(VmError::TypeMismatch { inst: i }),
                        },
                        Instruction::UnaryLen => match v {
                            ValueView::Str(s) => Ok((MachineView { pending: true, ..rest }, Step::Compute { op: NumOp::Length, left: s.len() as u64, right: 0 })),
                            _ => Err(VmError::TypeMismatch { inst: i }),
                        },
                        _ => if truthy(v) {
                            Ok((rest, Step::Continue))
                        } else {
                            jump(pop(m), a)
                        },
                    }
                }
            },
            Instruction::BinAdd | Instruction::BinMinus | Instruction::BinMul | Instruction::BinRealDiv
            | Instruction::BinIntDiv | Instruction::BinPow | Instruction::BinMod | Instruction::BinLt
            | Instruction::BinLe | Instruction::BinEq | Instruction::BinConcat | Instruction::BinAnd
            | Instruction::BinOr => {
                if m.stack.len() < 2 {
                    Err(VmError::StackUnderflow)
                } else {
                    let r = top(m);
                    let l = second(m);
                    let rest = pop2(next);
                    match (i, l, r) {
                        (Instruction::BinAnd, _, _) => Ok((push(rest, ValueView::Boolean(truthy(l) && truthy(r))), Step::Continue)),
                        (Instruction::BinOr, _, _) => Ok((push(rest, ValueView::Boolean(truthy(l) || truthy(r))), Step::Continue)),
                        (Instruction::BinEq, ValueView::Number(x), ValueView::Number(y)) =>
                            Ok((MachineView { pending: true, ..rest }, Step::Compute { op: NumOp::Eq, left: x, right: y })),
                        (Instruction::BinEq, _, _) => Ok((push(rest, ValueView::Boolean(same_value(l, r))), Step::Continue)),
                        (Instruction::BinConcat, ValueView::Str(x), ValueView::Str(y)) => Ok((push(rest, ValueView::Str(x + y)), Step::Continue)),
                        (Instruction::BinConcat, _, _) => Err(VmError::TypeMismatch { inst: i }),
                        (_, ValueView::Number(x), ValueView::Number(y)) => match num_op_of(i) {
                            Some(op) => Ok((MachineView { pending: true, ..rest }, Step::Compute { op, left: x, right: y })),
                            None => Err(VmError::TypeMismatch { inst: i }),
                        },
                        _ => Err(VmError::TypeMismatch { inst: i }),
                    }
                }
            },
            _ => Err(VmError::Unimplemented { inst: i }),
        }
    }
}


fn is_truthy(v: &Value) -> (r: bool)
    ensures
        r == truthy(v@),
{
    match v {
        Value::Boolean(b) => *b,
        Value::Nil => false,
        _ => true,
    }
}

fn same_value_of(l: &Value, r: &Value) -> (b: bool)
    ensures
        b == same_value(l@, r@),
{
    match (l, r) {
        (Value::Number(x), Value::Number(y)) => *x == *y,
        (Value::String(x), Value::String(y)) => *x == *y,
        (Value::Boolean(x), Value::Boolean(y)) => *x == *y,
        (Value::Nil, Value::Nil) => true,
        _ => false,
    }
}

/// A copy of a value.
pub fn copy_value(v: &Value) -> (r: Value)
    ensures
        r@ == v@,
{
    match v {
        Value::Number(n) => Value::Number(*n),
        Value::String(s) => Value::String(s.clone()),
        Value::Boolean(b) => Value::Boolean(*b),
        Value::Nil => Value::Nil,
    }
}

pub open spec fn values_view(vs: Seq<Value>) -> Seq<ValueView> {
    vs.map_values(|v: Value| v@)
}

/// Runs a compiled program one instruction at a time.
pub struct VirtualMachine {
    code: Vec<Bytecode>,
    nums: Vec<u64>,
    strs: Vec<String>,
    idents: Vec<String>,
    p: usize,
    stack: Vec<Value>,
    names: Vec<String>,
    values: Vec<Value>,
    pending: bool,
}

impl View for VirtualMachine {
    type V = MachineView;

    closed spec fn view(&self) -> MachineView {
        MachineView {
            code: self.code@,
            nums: self.nums@,
            strs: pool_view(self.strs@),
            idents: pool_view(self.idents@),
            p: self.p as nat,
            stack: values_view(self.stack@),
            names: pool_view(self.names@),
            values: values_view(self.values@),
            pending: self.pending,
        }
    }
}

impl VirtualMachine {
    /// A machine at the start of `codes`, with an empty stack and no
    /// globals. `nums` holds the bit patterns of the doubles that the
    /// numerals of `codes.nums` stand for, in the same order.
    pub fn new(codes: Bytecodes, nums: Vec<u64>) -> (r: VirtualMachine)
        ensures
            r.wf(),
            r@ == (MachineView {
                code: codes.bc@,
                nums: nums@,
                strs: pool_view(codes.strs@),
                idents: pool_view(codes.idents@),
                p: 0,
                stack: Seq::empty(),
                names: Seq::empty(),
                values: Seq::empty(),
                pending: false,
            }),
    {
        let r = VirtualMachine {
            code: codes.bc,
            nums,
            strs: codes.strs,
            idents: codes.idents,
            p: 0,
            stack: Vec::new(),
            names: Vec::new(),
            values: Vec::new(),
            pending: false,
        };
        proof {
            assert(values_view(r.stack@) =~= Seq::<ValueView>::empty());
            assert(pool_view(r.names@) =~= Seq::<Seq<char>>::empty());
            assert(values_view(r.values@) =~= Seq::<ValueView>::empty());
        }
        r
    }

    /// Whether the values of the globals line up with their names.
    pub closed spec fn wf(&self) -> bool {
        self.names@.len() == self.values@.len()
    }

    /// The program counter.
    pub fn pc(&self) -> (r: usize)
        ensures
            r == self@.p,
    {
        self.p
    }

    /// The globals, in order of their first store.
    pub fn globals(&self) -> (r: Vec<(String, Value)>)
        requires
            self.wf(),
        ensures
            r@.len() == self@.names.len(),
            forall|k: int| 0 <= k < r@.len() ==> (#[trigger] r@[k]).0@ == self@.names[k] && r@[k].1@ == self@.values[k],
    {
        let mut r: Vec<(String, Value)> = Vec::new();
        let mut k: usize = 0;
        while k < self.names.len()
            invariant
                self.wf(),
                k <= self.names@.len(),
                r@.len() == k,
                forall|m: int| 0 <= m < k ==> (#[trigger] r@[m]).0@ == self@.names[m] && r@[m].1@ == self@.values[m],
            decreases self.names@.len() - k,
        {
            let nm = self.names[k].clone();
            let vv = copy_value(&self.values[k]);
            proof {
                assert(nm@ == self@.names[k as int]);
                assert(vv@ == self@.values[k as int]);
            }
            r.push((nm, vv));
            k = k + 1;
        }
        r
    }

    /// The value of the global `name`, if it has been stored.
    pub fn global(&self, name: &str) -> (r: Option<Value>)
        requires
            self.wf(),
        ensures
            match lookup(self@, name@) {
                Some(v) => r matches Some(w) && w@ == v,
                None => r is None,
            },
    {
        let k = self.find_global(name);
        if k < self.names.len() {
            Some(copy_value(&self.values[k]))
        } else {
            None
        }
    }

    fn find_global(&self, name: &str) -> (k: usize)
        ensures
            k == first_from(self@.names, name@, 0),
            k <= self.names@.len(),
    {
        let ghost names = self@.names;
        let key = String::from_str(name);
        let mut k: usize = 0;
        while k < self.names.len() && !(self.names[k] == key)
            invariant
                k <= self.names@.len(),
                names == self@.names,
                key@ == name@,
                first_from(names, name@, 0) == first_from(names, name@, k as nat),
            decreases self.names@.len() - k,
        {
            k = k + 1;
        }
        k
    }

    /// Hands back the value of the work that the last step asked for.
    pub fn complete(&mut self, v: Value)
        ensures
            final(self)@ == (if old(self)@.pending {
                MachineView { pending: false, ..push(old(self)@, v@) }
            } else {
                old(self)@
            }),
            final(self).wf() == old(self).wf(),
    {
        if self.pending {
            proof {
                assert(values_view(self.stack@.push(v)) =~= values_view(self.stack@).push(v@));
            }
            self.stack.push(v);
            self.pending = false;
        }
    }

    fn push_value(&mut self, v: Value)
        ensures
            final(self)@ == push(old(self)@, v@),
            final(self).wf() == old(self).wf(),
    {
        proof {
            assert(values_view(self.stack@.push(v)) =~= values_view(self.stack@).push(v@));
        }
        self.stack.push(v);
    }

    fn pop_value(&mut self) -> (r: Value)
        requires
            old(self).stack@.len() > 0,
        ensures
            r@ == top(old(self)@),
            final(self)@ == pop(old(self)@),
            final(self).stack@.len() == old(self).stack@.len() - 1,
            final(self).wf() == old(self).wf(),
    {
        let ghost before = self.stack@;
        let v = self.stack.pop().unwrap();
        proof {
            assert(values_view(self.stack@) =~= values_view(before).drop_last());
        }
        v
    }

    /// Stores `v` in the global named by the pool index `a`.
    fn store_global(&mut self, a: usize, v: Value)
        requires
            old(self).wf(),
            a < old(self).idents@.len(),
        ensures
            final(self).wf(),
            final(self)@ == store(old(self)@, old(self)@.idents[a as int], v@),
    {
        let k = self.find_global(self.idents[a].as_str());
        if k < self.names.len() {
            proof {
                assert(values_view(self.values@.update(k as int, v)) =~= values_view(self.values@).update(k as int, v@));
            }
            self.values.set(k, v);
        } else {
            let name = self.idents[a].clone();
            proof {
                assert(pool_view(self.names@.push(name)) =~= pool_view(self.names@).push(name@));
                assert(values_view(self.values@.push(v)) =~= values_view(self.values@).push(v@));
            }
            self.names.push(name);
            self.values.push(v);
        }
    }

    fn jump(&mut self, target: usize) -> (r: Result<Step, VmError>)
        ensures
            final(self).wf() == old(self).wf(),
            match r {
                Ok(a) => jump(old(self)@, target) == Ok::<(MachineView, Step), VmError>((final(self)@, a)),
                Err(e) => jump(old(self)@, target) == Err::<(MachineView, Step), VmError>(e),
            },
    {
        if target < self.code.len() {
            self.p = target;
            Ok(Step::Continue)
        } else {
            Err(VmError::JumpOutOfRange { target })
        }
    }

    /// Runs the instruction at the program counter, as `step_spec` states.
    pub fn step(&mut self) -> (r: Result<Step, VmError>)
        requires
            old(self).wf(),
        ensures
            final(self).wf(),
            match r {
                Ok(a) => step_spec(old(self)@) == Ok::<(MachineView, Step), VmError>((final(self)@, a)),
                Err(e) => step_spec(old(self)@) == Err::<(MachineView, Step), VmError>(e),
            },
    {
        if self.pending {
            return Err(VmError::ResultAwaited);
        }
        if self.p >= self.code.len() {
            return Err(VmError::PcOutOfRange);
        }
        let ghost m = self@;
        let code = self.code[self.p];
        let inst = code.inst;
        let a = code.arg;
        match inst {
            Instruction::LoadNumber => {
                if a >= self.nums.len() {
                    return Err(VmError::BadOperand { inst });
                }
                let n = self.nums[a];
                self.p = self.p + 1;
                self.push_value(Value::Number(n));
                Ok(Step::Continue)
            },
            Instruction::LoadString => {
                if a >= self.strs.len() {
                    return Err(VmError::BadOperand { inst });
                }
                let t = self.strs[a].clone();
                self.p = self.p + 1;
                self.push_value(Value::String(t));
                Ok(Step::Continue)
            },
            Instruction::LoadTrue | Instruction::LoadFalse | Instruction::LoadNil => {
                let v = match inst {
                    Instruction::LoadTrue => Value::Boolean(true),
                    Instruction::LoadFalse => Value::Boolean(false),
                    _ => Value::Nil,
                };
                self.p = self.p + 1;
                self.push_value(v);
                Ok(Step::Continue)
            },
            Instruction::LoadGlob => {
                if a >= self.idents.len() {
                    return Err(VmError::BadOperand { inst });
                }
                let k = self.find_global(self.idents[a].as_str());
                if k >= self.names.len() {
                    return Err(VmError::UndefinedGlobal { ident: a });
                }
                let v = copy_value(&self.values[k]);
                self.p = self.p + 1;
                self.push_value(v);
                Ok(Step::Continue)
            },
            Instruction::StoreGlob => {
                if a >= self.idents.len() {
                    return Err(VmError::BadOperand { inst });
                }
                if self.stack.len() == 0 {
                    return Err(VmError::StackUnderflow);
                }
                self.p = self.p + 1;
                let v = self.pop_value();
                self.store_global(a, v);
                Ok(Step::Continue)
            },
            Instruction::JumpAbsolute => self.jump(a),
            Instruction::End => Ok(Step::Halt),
            Instruction::UnaryNot | Instruction::UnaryMinus | Instruction::UnaryLen | Instruction::JumpAbsoluteIfFalse => {
                if self.stack.len() == 0 {
                    return Err(VmError::StackUnderflow);
                }
                let v = self.pop_value();
                match inst {
                    Instruction::UnaryNot => {
                        let b = is_truthy(&v);
                        self.p = self.p + 1;
                        self.push_value(Value::Boolean(!b));
                        Ok(Step::Continue)
                    },
                    Instruction::UnaryMinus => match v {
                        Value::Number(x) => {
                            self.p = self.p + 1;
                            self.pending = true;
                            Ok(Step::Compute { op: NumOp::Neg, left: x, right: 0 })
                        },
                        _ => Err(VmError::TypeMismatch { inst }),
                    },
                    Instruction::UnaryLen => match v {
                        Value::String(t) => {
                            let n = t.as_str().unicode_len();
                            self.p = self.p + 1;
                            self.pending = true;
                            Ok(Step::Compute { op: NumOp::Length, left: n as u64, right: 0 })
                        },
                        _ => Err(VmError::TypeMismatch { inst }),
                    },
                    _ => {
                        if is_truthy(&v) {
                            self.p = self.p + 1;
                            Ok(Step::Continue)
                        } else {
                            self.jump(a)
                        }
                    },
                }
            },
            Instruction::BinAdd | Instruction::BinMinus | Instruction::BinMul | Instruction::BinRealDiv
            | Instruction::BinIntDiv | Instruction::BinPow | Instruction::BinMod | Instruction::BinLt
            | Instruction::BinLe | Instruction::BinEq | Instruction::BinConcat | Instruction::BinAnd
            | Instruction::BinOr => {
                if self.stack.len() < 2 {
                    return Err(VmError::StackUnderflow);
                }
                self.p = self.p + 1;
                let ghost m1 = self@;
                let right = self.pop_value();
                let left = self.pop_value();
                proof {
                    assert(values_view(self.stack@) =~= pop2(m1).stack);
                }
                match inst {
                    Instruction::BinAnd => {
                        let b = is_truthy(&left) && is_truthy(&right);
                        self.push_value(Value::Boolean(b));
                        Ok(Step::Continue)
                    },
                    Instruction::BinOr => {
                        let b = is_truthy(&left) || is_truthy(&right);
                        self.push_value(Value::Boolean(b));
                        Ok(Step::Continue)
                    },
                    Instruction::BinConcat => match (left, right) {
                        (Value::String(x), Value::String(y)) => {
                            let joined = x.concat(y.as_str());
                            self.push_value(Value::String(joined));
                            Ok(Step::Continue)
                        },
                        _ => Err(VmError::TypeMismatch { inst }),
                    },
                    _ => match (&left, &right) {
                        (Value::Number(x), Value::Number(y)) => {
                            let op = match inst {
                                Instruction::BinAdd => NumOp::Add,
                                Instruction::BinMinus => NumOp::Sub,
                                Instruction::BinMul => NumOp::Mul,
                                Instruction::BinRealDiv => NumOp::RealDiv,
                                Instruction::BinIntDiv => NumOp::IntDiv,
                                Instruction::BinPow => NumOp::Pow,
                                Instruction::BinMod => NumOp::Mod,
                                Instruction::BinLt => NumOp::Lt,
                                Instruction::BinLe => NumOp::Le,
                                _ => NumOp::Eq,
                            };
                            self.pending = true;
                            Ok(Step::Compute { op, left: *x, right: *y })
                        },
                        _ => {
                            if inst == Instruction::BinEq {
                                let b = same_value_of(&left, &right);
                                self.push_value(Value::Boolean(b));
                                Ok(Step::Continue)
                            } else {
                                Err(VmError::TypeMismatch { inst })
                            }
                        },
                    },
                }
            },
            _ => Err(VmError::Unimplemented { inst }),
        }
    }
}

} // verus!
