//! The virtual machine.
//!
//! Executes a flat program against a fixed-capacity evaluation stack, a
//! local store, a shared string arena, and a return-address stack.  The
//! machine never computes on machine numbers itself: arithmetic,
//! comparison, decoding and truncation of numbers are handed to the
//! embedding host as [`types::Effect`] requests, and the host resumes the
//! machine with each answer.  Every step follows the spec mirror
//! `step_spec` exactly.

pub mod error;
pub mod stack;
pub mod types;

use crate::hir::scope::Local;
use crate::ir::instr::{Instruction, Label};
use error::{VmError, VmResult};
use stack::Stack;
use types::{ArithOp, BitOp, CmpKind, Effect, Pending, Value};
use vstd::prelude::*;

verus! {

/// The model of the machine's state.
pub struct VmModel {
    pub pc: int,
    pub stack: Seq<Value>,
    pub cap: int,
    pub script: Seq<Instruction>,
    pub labels: Seq<(Label, int)>,
    pub rets: Seq<int>,
    pub locals: Seq<(Local, Value)>,
    pub strings: Seq<Seq<char>>,
    pub builtins: Seq<String>,
    pub pending: Option<Pending>,
}

/// What one step of the machine amounts to: a quiet step, or a request to
/// the host with the machine waiting.
pub enum SpecStep {
    Quiet(VmModel),
    Ask(VmModel, Effect),
}

/// The offset a label resolves to: the position just after its marker.
pub open spec fn label_offset(labels: Seq<(Label, int)>, l: Label) -> Option<int>
    decreases labels.len(),
{
    if labels.len() == 0 {
        None
    } else if labels[0].0 == l {
        Some(labels[0].1)
    } else {
        label_offset(labels.drop_first(), l)
    }
}

/// Where a local's binding sits in the store, if anywhere.
pub open spec fn find_local(locals: Seq<(Local, Value)>, l: Local) -> Option<int>
    decreases locals.len(),
{
    if locals.len() == 0 {
        None
    } else if locals[0].0 == l {
        Some(0)
    } else {
        match find_local(locals.drop_first(), l) {
            Some(k) => Some(1 + k),
            None => None,
        }
    }
}

/// The position `find_local` returns holds the binding it was asked for.
pub proof fn lemma_find_local(locals: Seq<(Local, Value)>, l: Local)
    ensures
        match find_local(locals, l) {
            Some(k) => 0 <= k < locals.len() && locals[k].0 == l,
            None => true,
        },
    decreases locals.len(),
{
    if locals.len() > 0 && locals[0].0 != l {
        lemma_find_local(locals.drop_first(), l);
    }
}

/// The value a local holds; a local never stored reads as `Null`.
pub open spec fn local_value(locals: Seq<(Local, Value)>, l: Local) -> Value {
    match find_local(locals, l) {
        Some(k) => locals[k].1,
        None => Value::Null,
    }
}

/// Store a value into a local, replacing an earlier binding of the same
/// local if there is one.
pub open spec fn set_local(locals: Seq<(Local, Value)>, l: Local, v: Value) -> Seq<(Local, Value)> {
    match find_local(locals, l) {
        Some(k) => locals.update(k, (l, v)),
        None => locals.push((l, v)),
    }
}

/// Whether a host function of this name is registered.
pub open spec fn builtin_registered(bs: Seq<String>, name: Seq<char>) -> bool {
    exists|i: int| 0 <= i < bs.len() && #[trigger] bs[i]@ == name
}

/// A value's string handle, if any, stays inside the arena.
pub open spec fn value_ok(v: Value, nstr: int) -> bool {
    v matches Value::Str(i) ==> i < nstr
}

/// Equality between two values that are not both numbers: defined only
/// between values of the same kind; strings compare by the contents of
/// their buffers; built-in handles are never equal to anything.
pub open spec fn values_equal(a: Value, b: Value, strings: Seq<Seq<char>>) -> bool {
    match a {
        Value::Null => b is Null,
        Value::Addr(x) => b matches Value::Addr(y) && x == y,
        Value::Bool(x) => b matches Value::Bool(y) && x == y,
        Value::Number(_) => false,
        Value::Str(i) => b matches Value::Str(j) && strings[i as int] == strings[j as int],
        Value::BuiltIn(_) => false,
    }
}

/// The condition a comparison decides on two values that are not both
/// numbers: equality tests use value equality, order tests are false, every
/// kind mismatch is false rather than a fault.
pub open spec fn quiet_compare(kind: CmpKind, a: Value, b: Value, strings: Seq<Seq<char>>) -> bool {
    match kind {
        CmpKind::Eq => values_equal(a, b, strings),
        CmpKind::NEq => !values_equal(a, b, strings),
        _ => false,
    }
}

/// Finish a bitwise operation on host-truncated integers.  An oversized
/// shift clears to zero rather than faulting.
pub open spec fn bit_apply(op: BitOp, x: u64, y: u64) -> u64 {
    match op {
        BitOp::Or => x | y,
        BitOp::And => x & y,
        BitOp::Shl => if y < 64 {
            x << y
        } else {
            0
        },
        BitOp::Shr => if y < 64 {
            x >> y
        } else {
            0
        },
    }
}

/// What executing the instruction under the program counter does.  Defined
/// for a machine that is not waiting on its host and whose counter is
/// inside the program.
pub open spec fn step_spec(m: VmModel) -> Result<SpecStep, VmError> {
    let i = m.script[m.pc];
    match i {
        Instruction::Nop => Ok(SpecStep::Quiet(VmModel { pc: m.pc + 1, ..m })),
        Instruction::Label(_) => Ok(SpecStep::Quiet(VmModel { pc: m.pc + 1, ..m })),
        Instruction::LdNull => push_quiet(m, Value::Null),
        Instruction::LdTrue => push_quiet(m, Value::Bool(true)),
        Instruction::LdFalse => push_quiet(m, Value::Bool(false)),
        Instruction::LdAddr(a) => push_quiet(m, Value::Addr(a)),
        Instruction::LdStr(s) => push_quiet(
            VmModel { strings: m.strings.push(s@), ..m },
            Value::Str(m.strings.len() as usize),
        ),
        Instruction::LdNum(s) => Ok(
            SpecStep::Ask(
                VmModel { pending: Some(Pending::PushNumber), ..m },
                Effect::NumDecode { spelling: s },
            ),
        ),
        Instruction::LdImport(name) => if builtin_registered(m.builtins, name@) {
            push_quiet(m, Value::BuiltIn(name))
        } else {
            Err(VmError::UnknownBuiltin(name))
        },
        Instruction::LdLoc(l) => push_quiet(m, local_value(m.locals, l)),
        Instruction::StLoc(l) => {
            if m.stack.len() == 0 {
                Err(VmError::StackUnderflow)
            } else {
                Ok(
                    SpecStep::Quiet(
                        VmModel {
                            pc: m.pc + 1,
                            stack: m.stack.drop_last(),
                            locals: set_local(m.locals, l, m.stack.last()),
                            ..m
                        },
                    ),
                )
            }
        },
        Instruction::Jmp(l) => jump_quiet(m, l),
        Instruction::JmpEq(t) => cmp_jump(m, CmpKind::Eq, t),
        Instruction::JmpNEq(t) => cmp_jump(m, CmpKind::NEq, t),
        Instruction::JmpLt(t) => cmp_jump(m, CmpKind::Lt, t),
        Instruction::JmpGt(t) => cmp_jump(m, CmpKind::Gt, t),
        Instruction::JmpLtEq(t) => cmp_jump(m, CmpKind::LtEq, t),
        Instruction::JmpGtEq(t) => cmp_jump(m, CmpKind::GtEq, t),
        Instruction::Call(l) => {
            if m.pc + 1 > usize::MAX {
                Err(VmError::StackOverflow)
            } else {
                jump_quiet(VmModel { rets: m.rets.push(m.pc + 1), ..m }, l)
            }
        },
        Instruction::CallF(name) => if builtin_registered(m.builtins, name@) {
            Ok(
                SpecStep::Ask(
                    VmModel { pending: Some(Pending::RunBuiltin), ..m },
                    Effect::Builtin { name },
                ),
            )
        } else {
            Err(VmError::UnknownBuiltin(name))
        },
        Instruction::Ret => {
            if m.rets.len() == 0 {
                Err(VmError::ReturnWithoutCall)
            } else {
                Ok(
                    SpecStep::Quiet(
                        VmModel { pc: m.rets.last(), rets: m.rets.drop_last(), ..m },
                    ),
                )
            }
        },
        Instruction::Add => arith(m, ArithOp::Add),
        Instruction::Sub => arith(m, ArithOp::Sub),
        Instruction::Mul => arith(m, ArithOp::Mul),
        Instruction::Div => arith(m, ArithOp::Div),
        Instruction::Mod => arith(m, ArithOp::Mod),
        Instruction::Pow => arith(m, ArithOp::Pow),
        Instruction::Eq => cmp_push(m, CmpKind::Eq),
        Instruction::NEq => cmp_push(m, CmpKind::NEq),
        Instruction::Lt => cmp_push(m, CmpKind::Lt),
        Instruction::Gt => cmp_push(m, CmpKind::Gt),
        Instruction::LtEq => cmp_push(m, CmpKind::LtEq),
        Instruction::GtEq => cmp_push(m, CmpKind::GtEq),
        Instruction::BOr => bitwise(m, BitOp::Or),
        Instruction::BAnd => bitwise(m, BitOp::And),
        Instruction::LShift => bitwise(m, BitOp::Shl),
        Instruction::RShift => bitwise(m, BitOp::Shr),
        Instruction::BNot => {
            if m.stack.len() == 0 {
                Err(VmError::StackUnderflow)
            } else {
                let m1 = VmModel { stack: m.stack.drop_last(), ..m };
                match m.stack.last() {
                    Value::Number(x) => Ok(
                        SpecStep::Ask(
                            VmModel { pending: Some(Pending::FinishBNot), ..m1 },
                            Effect::NumTruncate32 { value: x },
                        ),
                    ),
                    Value::Bool(b) => push_quiet(m1, Value::Bool(!b)),
                    _ => Err(VmError::TypeMismatch),
                }
            }
        },
    }
}

/// Push a value and move to the next instruction, faulting at capacity.
pub open spec fn push_quiet(m: VmModel, v: Value) -> Result<SpecStep, VmError> {
    if m.stack.len() >= m.cap {
        Err(VmError::StackOverflow)
    } else {
        Ok(SpecStep::Quiet(VmModel { pc: m.pc + 1, stack: m.stack.push(v), ..m }))
    }
}

/// Jump to a label's offset, faulting when the program never marks it.
pub open spec fn jump_quiet(m: VmModel, l: Label) -> Result<SpecStep, VmError> {
    match label_offset(m.labels, l) {
        Some(o) => Ok(SpecStep::Quiet(VmModel { pc: o, ..m })),
        None => Err(VmError::UnknownLabel(l)),
    }
}

/// Pop the two operands of a comparison jump.  Two numbers are handed to
/// the host; any other pair is decided here, order tests being false.
pub open spec fn cmp_jump(m: VmModel, kind: CmpKind, t: Label) -> Result<SpecStep, VmError> {
    if m.stack.len() < 2 {
        Err(VmError::StackUnderflow)
    } else {
        let a = m.stack.last();
        let b = m.stack.drop_last().last();
        let m1 = VmModel { stack: m.stack.drop_last().drop_last(), ..m };
        if a matches Value::Number(x) && b matches Value::Number(y) {
            Ok(
                SpecStep::Ask(
                    VmModel { pending: Some(Pending::JumpIf { target: t }), ..m1 },
                    Effect::NumCompare { op: kind, lhs: a->Number_0, rhs: b->Number_0 },
                ),
            )
        } else if quiet_compare(kind, a, b, m.strings) {
            jump_quiet(m1, t)
        } else {
            Ok(SpecStep::Quiet(VmModel { pc: m.pc + 1, ..m1 }))
        }
    }
}

/// Pop the two operands of a comparison that pushes its boolean answer.
pub open spec fn cmp_push(m: VmModel, kind: CmpKind) -> Result<SpecStep, VmError> {
    if m.stack.len() < 2 {
        Err(VmError::StackUnderflow)
    } else {
        let a = m.stack.last();
        let b = m.stack.drop_last().last();
        let m1 = VmModel { stack: m.stack.drop_last().drop_last(), ..m };
        if a matches Value::Number(x) && b matches Value::Number(y) {
            Ok(
                SpecStep::Ask(
                    VmModel { pending: Some(Pending::PushFlag), ..m1 },
                    Effect::NumCompare { op: kind, lhs: a->Number_0, rhs: b->Number_0 },
                ),
            )
        } else {
            push_quiet(m1, Value::Bool(quiet_compare(kind, a, b, m.strings)))
        }
    }
}

/// Pop the two operands of an arithmetic instruction.  Anything but two
/// numbers is a fatal type fault; the numbers go to the host.
pub open spec fn arith(m: VmModel, op: ArithOp) -> Result<SpecStep, VmError> {
    if m.stack.len() < 2 {
        Err(VmError::StackUnderflow)
    } else {
        let a = m.stack.last();
        let b = m.stack.drop_last().last();
        let m1 = VmModel { stack: m.stack.drop_last().drop_last(), ..m };
        if a matches Value::Number(x) && b matches Value::Number(y) {
            Ok(
                SpecStep::Ask(
                    VmModel { pending: Some(Pending::PushNumber), ..m1 },
                    Effect::NumBinary { op, lhs: a->Number_0, rhs: b->Number_0 },
                ),
            )
        } else {
            Err(VmError::TypeMismatch)
        }
    }
}

/// Pop the two operands of a bitwise instruction.  Anything but two numbers
/// is a fatal type fault; the numbers go to the host for truncation.
pub open spec fn bitwise(m: VmModel, op: BitOp) -> Result<SpecStep, VmError> {
    if m.stack.len() < 2 {
        Err(VmError::StackUnderflow)
    } else {
        let a = m.stack.last();
        let b = m.stack.drop_last().last();
        let m1 = VmModel { stack: m.stack.drop_last().drop_last(), ..m };
        if a matches Value::Number(x) && b matches Value::Number(y) {
            Ok(
                SpecStep::Ask(
                    VmModel { pending: Some(Pending::FinishBitwise { op }), ..m1 },
                    Effect::NumTruncate { lhs: a->Number_0, rhs: b->Number_0 },
                ),
            )
        } else {
            Err(VmError::TypeMismatch)
        }
    }
}

/// The machine after `n` quiet steps, or nothing if it finished, faulted,
/// or asked the host along the way.
pub open spec fn after_silent(m: VmModel, n: nat) -> Option<VmModel>
    decreases n,
{
    if n == 0 {
        Some(m)
    } else if !(0 <= m.pc < m.script.len()) || m.pending is Some {
        None
    } else {
        match step_spec(m) {
            Ok(SpecStep::Quiet(mm)) => after_silent(mm, (n - 1) as nat),
            _ => None,
        }
    }
}

/// Running from `m0` reaches `m1` and hands the host `e`: quiet steps lead
/// to completion (`Done`) or to the step that asks.
pub open spec fn runs_to(m0: VmModel, m1: VmModel, e: Effect) -> bool {
    exists|n: nat|
        match #[trigger] after_silent(m0, n) {
            Some(mm) => match e {
                Effect::Done => m1 == mm && mm.pc >= mm.script.len(),
                Effect::Paused => m1 == mm,
                _ => mm.pc < mm.script.len() && mm.pending is None && step_spec(mm) == Ok::<
                    SpecStep,
                    VmError,
                >(SpecStep::Ask(m1, e)),
            },
            None => false,
        }
}

/// The parts of the machine no step ever changes: the program, its label
/// index, the registered names, and the stack's capacity.  A fault leaves
/// them standing too.
pub open spec fn same_program(a: VmModel, b: VmModel) -> bool {
    &&& a.script == b.script
    &&& a.labels == b.labels
    &&& a.builtins == b.builtins
    &&& a.cap == b.cap
}

/// Running from `m0` faults with `er` after some quiet steps, the machine
/// left at `mm` when the faulting instruction was reached.
pub open spec fn runs_to_fault(m0: VmModel, er: VmError) -> bool {
    exists|n: nat|
        match #[trigger] after_silent(m0, n) {
            Some(mm) => mm.pc < mm.script.len() && mm.pending is None && step_spec(mm)
                == Err::<SpecStep, VmError>(er),
            None => false,
        }
}


/// How many values the evaluation stack holds.
pub const STACK_CAPACITY: usize = 255;

/// The index a finished program is executed with: every label marker's
/// position, mapped to the offset just after it.
pub open spec fn label_index(s: Seq<Instruction>, i: int) -> Seq<(Label, int)>
    decreases s.len() - i,
{
    if !(0 <= i < s.len()) {
        Seq::empty()
    } else {
        match s[i] {
            Instruction::Label(l) => seq![(l, i + 1)] + label_index(s, i + 1),
            _ => label_index(s, i + 1),
        }
    }
}

/// The state a machine starts a program in: counter at the start, stack
/// empty, label index built, nothing stored and nothing registered.
pub open spec fn initial_model(script: Seq<Instruction>, builtins: Seq<String>) -> VmModel {
    VmModel {
        pc: 0,
        stack: Seq::empty(),
        cap: STACK_CAPACITY as int,
        script,
        labels: label_index(script, 0),
        rets: Seq::empty(),
        locals: Seq::empty(),
        strings: Seq::empty(),
        builtins,
        pending: None,
    }
}

/// The virtual machine: a program with its label index, the evaluation
/// stack, the local store, the return-address stack, the shared string
/// arena, and the registered host function names.
#[derive(Debug)]
pub struct VirtualMachine {
    pub pc: usize,
    pub stack: Stack,
    pub script: Vec<Instruction>,
    pub labels: Vec<(Label, usize)>,
    pub rets: Vec<usize>,
    pub locals: Vec<(Local, Value)>,
    pub strings: Vec<String>,
    pub builtins: Vec<String>,
    pub pending: Option<Pending>,
}

impl VirtualMachine {
    /// The machine's state as a model value.
    pub open spec fn model(&self) -> VmModel {
        VmModel {
            pc: self.pc as int,
            stack: self.stack.entries(),
            cap: self.stack.capacity(),
            script: self.script@,
            labels: self.labels@.map_values(|p: (Label, usize)| (p.0, p.1 as int)),
            rets: self.rets@.map_values(|x: usize| x as int),
            locals: self.locals@,
            strings: self.strings@.map_values(|s: String| s@),
            builtins: self.builtins@,
            pending: self.pending,
        }
    }

    /// The stack is sound, every string handle anywhere points into the
    /// arena, and a waiting machine still stands on its instruction.
    pub open spec fn inv(&self) -> bool {
        &&& self.stack.inv()
        &&& forall|i: int|
            0 <= i < self.stack.entries().len() ==> value_ok(
                #[trigger] self.stack.entries()[i],
                self.strings@.len() as int,
            )
        &&& forall|i: int|
            0 <= i < self.locals@.len() ==> value_ok(
                (#[trigger] self.locals@[i]).1,
                self.strings@.len() as int,
            )
        &&& (self.pending is Some ==> self.pc < self.script@.len())
    }

    /// A machine loaded with a finished program: the label index is built
    /// here, once, before execution starts.
    pub fn new(script: Vec<Instruction>) -> (r: VirtualMachine)
        ensures
            r.inv(),
            r.model() == initial_model(script@, Seq::<String>::empty()),
    {
        let mut labels: Vec<(Label, usize)> = Vec::new();
        let mut i: usize = 0;
        proof {
            assert(labels@.map_values(|p: (Label, usize)| (p.0, p.1 as int))
                =~= Seq::<(Label, int)>::empty());
        }
        while i < script.len()
            invariant
                0 <= i <= script.len(),
                label_index(script@, 0) == labels@.map_values(
                    |p: (Label, usize)| (p.0, p.1 as int),
                ) + label_index(script@, i as int),
            decreases script.len() - i,
        {
            let ghost pre = labels@.map_values(|p: (Label, usize)| (p.0, p.1 as int));
            match &script[i] {
                Instruction::Label(l) => {
                    labels.push((*l, i + 1));
                    proof {
                        assert(labels@.map_values(|p: (Label, usize)| (p.0, p.1 as int)) =~= pre
                            + seq![(script@[i as int]->Label_0, i + 1)]);
                        assert(pre + (seq![(script@[i as int]->Label_0, i + 1)] + label_index(
                            script@,
                            i + 1,
                        )) =~= (pre + seq![(script@[i as int]->Label_0, i + 1)]) + label_index(
                            script@,
                            i + 1,
                        ));
                    }
                },
                _ => {},
            }
            i = i + 1;
        }
        proof {
            assert(label_index(script@, script@.len() as int) =~= Seq::<(Label, int)>::empty());
            assert(labels@.map_values(|p: (Label, usize)| (p.0, p.1 as int)) + Seq::<
                (Label, int),
            >::empty() =~= labels@.map_values(|p: (Label, usize)| (p.0, p.1 as int)));
        }
        let r = VirtualMachine {
            pc: 0,
            stack: Stack::new(STACK_CAPACITY),
            script,
            labels,
            rets: Vec::new(),
            locals: Vec::new(),
            strings: Vec::new(),
            builtins: Vec::new(),
            pending: None,
        };
        proof {
            assert(r.model().rets =~= Seq::<int>::empty());
            assert(r.model().strings =~= Seq::<Seq<char>>::empty());
        }
        r
    }

    /// Register a host function name; the host keeps the function itself
    /// and runs it when the machine asks.
    pub fn builtin(self, name: String) -> (r: VirtualMachine)
        requires
            self.inv(),
        ensures
            r.inv(),
            r.model() == (VmModel { builtins: self.model().builtins.push(name), ..self.model() }),
    {
        let mut vm = self;
        vm.builtins.push(name);
        vm
    }
}


impl VirtualMachine {
    /// Find a label's offset in the index.
    fn find_label(&self, l: Label) -> (r: Option<usize>)
        ensures
            match r {
                Some(o) => label_offset(self.model().labels, l) == Some(o as int),
                None => label_offset(self.model().labels, l) is None,
            },
    {
        let ghost m = self.model().labels;
        let mut i: usize = 0;
        proof {
            assert(m.skip(0) =~= m);
        }
        loop
            invariant
                0 <= i <= self.labels@.len(),
                m == self.model().labels,
                label_offset(m, l) == label_offset(m.skip(i as int), l),
            ensures
                label_offset(m, l) is None,
            decreases self.labels@.len() - i,
        {
            if i == self.labels.len() {
                proof {
                    assert(m.skip(i as int) =~= Seq::<(Label, int)>::empty());
                }
                break ;
            }
            proof {
                assert(m.skip(i as int)[0] == m[i as int]);
                assert(m.skip(i as int).drop_first() =~= m.skip(i + 1));
            }
            if self.labels[i].0 == l {
                return Some(self.labels[i].1);
            }
            i = i + 1;
        }
        None
    }

    /// Find a local's position in the store.
    fn find_slot(&self, l: Local) -> (r: Option<usize>)
        ensures
            match r {
                Some(k) => find_local(self.locals@, l) == Some(k as int) && k
                    < self.locals@.len() && self.locals@[k as int].0 == l,
                None => find_local(self.locals@, l) is None,
            },
    {
        let ghost m = self.locals@;
        let mut i: usize = 0;
        proof {
            assert(m.skip(0) =~= m);
        }
        loop
            invariant
                0 <= i <= self.locals@.len(),
                m == self.locals@,
                find_local(m, l) == (match find_local(m.skip(i as int), l) {
                    Some(k) => Some(i + k),
                    None => None::<int>,
                }),
            ensures
                find_local(m, l) is None,
            decreases self.locals@.len() - i,
        {
            if i == self.locals.len() {
                proof {
                    assert(m.skip(i as int) =~= Seq::<(Local, Value)>::empty());
                }
                break ;
            }
            proof {
                assert(m.skip(i as int)[0] == m[i as int]);
                assert(m.skip(i as int).drop_first() =~= m.skip(i + 1));
            }
            if self.locals[i].0 == l {
                return Some(i);
            }
            i = i + 1;
        }
        None
    }

    /// Read a local; one never stored reads as `Null`.
    fn load_local(&self, l: Local) -> (r: Value)
        requires
            self.inv(),
        ensures
            r == local_value(self.model().locals, l),
            value_ok(r, self.strings@.len() as int),
    {
        match self.find_slot(l) {
            Some(k) => self.locals[k].1.clone(),
            None => Value::Null,
        }
    }

    /// Store into a local, replacing an earlier binding of the same local.
    fn store_local(&mut self, l: Local, v: Value)
        requires
            old(self).inv(),
            value_ok(v, old(self).strings@.len() as int),
        ensures
            final(self).inv(),
            final(self).model() == (VmModel {
                locals: set_local(old(self).model().locals, l, v),
                ..old(self).model()
            }),
    {
        match self.find_slot(l) {
            Some(k) => {
                self.locals[k] = (l, v);
            },
            None => {
                self.locals.push((l, v));
            },
        }
    }

    /// Whether two values that are not both numbers are equal.
    fn values_eq(&self, a: &Value, b: &Value) -> (r: bool)
        requires
            value_ok(*a, self.strings@.len() as int),
            value_ok(*b, self.strings@.len() as int),
        ensures
            r == values_equal(*a, *b, self.model().strings),
    {
        match (a, b) {
            (Value::Null, Value::Null) => true,
            (Value::Addr(x), Value::Addr(y)) => x == y,
            (Value::Bool(x), Value::Bool(y)) => x == y,
            (Value::Str(i), Value::Str(j)) => {
                let r = self.strings[*i] == self.strings[*j];
                proof {
                    let ii = *i as int;
                    let jj = *j as int;
                    if self.strings@[ii]@ == self.strings@[jj]@ {
                        assert(self.model().strings[ii] == self.model().strings[jj]);
                    } else {
                        assert(self.model().strings[ii] == self.strings@[ii]@);
                        assert(self.model().strings[jj] == self.strings@[jj]@);
                    }
                }
                r
            },
            _ => false,
        }
    }

    /// Decide a comparison of two values that are not both numbers.
    fn compare_quiet(&self, kind: CmpKind, a: &Value, b: &Value) -> (r: bool)
        requires
            value_ok(*a, self.strings@.len() as int),
            value_ok(*b, self.strings@.len() as int),
        ensures
            r == quiet_compare(kind, *a, *b, self.model().strings),
    {
        match kind {
            CmpKind::Eq => self.values_eq(a, b),
            CmpKind::NEq => !self.values_eq(a, b),
            _ => false,
        }
    }
}


/// The complement the bitwise-not instruction applies: the value, already
/// truncated to 32 bits by the host, with those 32 bits flipped.
pub open spec fn bnot_apply(x: u64) -> u64 {
    (x ^ 0xFFFF_FFFFu64) & 0xFFFF_FFFFu64
}

impl VirtualMachine {
    /// Whether a host function of this name is registered.
    fn is_registered(&self, name: &String) -> (r: bool)
        ensures
            r == builtin_registered(self.builtins@, name@),
    {
        let mut i: usize = 0;
        loop
            invariant
                0 <= i <= self.builtins@.len(),
                forall|j: int| 0 <= j < i ==> (#[trigger] self.builtins@[j])@ != name@,
            ensures
                !builtin_registered(self.builtins@, name@),
            decreases self.builtins@.len() - i,
        {
            if i == self.builtins.len() {
                break ;
            }
            if self.builtins[i] == *name {
                proof {
                    assert(builtin_registered(self.builtins@, name@));
                }
                return true;
            }
            i = i + 1;
        }
        false
    }

    /// Push a value and move past the current instruction.
    fn push_step(&mut self, v: Value) -> (r: VmResult<()>)
        requires
            old(self).inv(),
            old(self).pc < old(self).script@.len(),
            old(self).pending is None,
            value_ok(v, old(self).strings@.len() as int),
        ensures
            final(self).inv(),
            same_program(old(self).model(), final(self).model()),
            match r {
                Ok(_) => push_quiet(old(self).model(), v) == Ok::<SpecStep, VmError>(
                    SpecStep::Quiet(final(self).model()),
                ),
                Err(er) => push_quiet(old(self).model(), v) == Err::<SpecStep, VmError>(er)
                    && final(self).pending is None,
            },
    {
        let bound = self.script.len();
        proof {
            assert(self.pc < bound);
        }
        match self.stack.push(v) {
            Err(e) => Err(e),
            Ok(_) => {
                self.pc = self.pc + 1;
                Ok(())
            },
        }
    }

    /// Execute the instruction under the program counter: a quiet step
    /// yields `None`, a request to the host yields the effect and leaves
    /// the machine waiting.
    pub fn step_once(&mut self) -> (r: VmResult<Option<Effect>>)
        requires
            old(self).inv(),
            old(self).pending is None,
            old(self).pc < old(self).script@.len(),
        ensures
            final(self).inv(),
            same_program(old(self).model(), final(self).model()),
            match r {
                Ok(oe) => match oe {
                    None => step_spec(old(self).model()) == Ok::<SpecStep, VmError>(
                        SpecStep::Quiet(final(self).model()),
                    ) && final(self).pending is None,
                    Some(e) => step_spec(old(self).model()) == Ok::<SpecStep, VmError>(
                        SpecStep::Ask(final(self).model(), e),
                    ),
                },
                Err(er) => step_spec(old(self).model()) == Err::<SpecStep, VmError>(er),
            },
    {
        let bound = self.script.len();
        let instr = self.script[self.pc].clone();
        proof {
            assert(self.pc < bound);
            assert(old(self).model().script[old(self).model().pc] == instr);
        }
        match instr {
            Instruction::Nop => {
                self.pc = self.pc + 1;
                Ok(None)
            },
            Instruction::Label(_) => {
                self.pc = self.pc + 1;
                Ok(None)
            },
            Instruction::LdNull => match self.push_step(Value::Null) {
                Ok(_) => Ok(None),
                Err(er) => Err(er),
            },
            Instruction::LdTrue => match self.push_step(Value::Bool(true)) {
                Ok(_) => Ok(None),
                Err(er) => Err(er),
            },
            Instruction::LdFalse => match self.push_step(Value::Bool(false)) {
                Ok(_) => Ok(None),
                Err(er) => Err(er),
            },
            Instruction::LdAddr(a) => match self.push_step(Value::Addr(a)) {
                Ok(_) => Ok(None),
                Err(er) => Err(er),
            },
            Instruction::LdStr(text) => {
                let handle = self.strings.len();
                self.strings.push(text);
                proof {
                    assert(self.model().strings =~= old(self).model().strings.push(
                        old(self).model().script[old(self).model().pc]->LdStr_0@,
                    ));
                }
                match self.push_step(Value::Str(handle)) {
                    Ok(_) => Ok(None),
                    Err(er) => Err(er),
                }
            },
            Instruction::LdNum(spelling) => {
                self.pending = Some(Pending::PushNumber);
                Ok(Some(Effect::NumDecode { spelling }))
            },
            Instruction::LdImport(name) => {
                if self.is_registered(&name) {
                    match self.push_step(Value::BuiltIn(name)) {
                        Ok(_) => Ok(None),
                        Err(er) => Err(er),
                    }
                } else {
                    Err(VmError::UnknownBuiltin(name))
                }
            },
            Instruction::LdLoc(l) => {
                let v = self.load_local(l);
                match self.push_step(v) {
                    Ok(_) => Ok(None),
                    Err(er) => Err(er),
                }
            },
            Instruction::StLoc(l) => {
                let v = match self.stack.pop() {
                    Err(er) => {
                        return Err(er);
                    },
                    Ok(v) => v,
                };
                proof {
                    assert(value_ok(v, self.strings@.len() as int));
                }
                self.store_local(l, v);
                self.pc = self.pc + 1;
                Ok(None)
            },
            Instruction::Jmp(l) => match self.find_label(l) {
                Some(o) => {
                    self.pc = o;
                    Ok(None)
                },
                None => Err(VmError::UnknownLabel(l)),
            },
            Instruction::JmpEq(t) => self.cmp_jump_exec(CmpKind::Eq, t),
            Instruction::JmpNEq(t) => self.cmp_jump_exec(CmpKind::NEq, t),
            Instruction::JmpLt(t) => self.cmp_jump_exec(CmpKind::Lt, t),
            Instruction::JmpGt(t) => self.cmp_jump_exec(CmpKind::Gt, t),
            Instruction::JmpLtEq(t) => self.cmp_jump_exec(CmpKind::LtEq, t),
            Instruction::JmpGtEq(t) => self.cmp_jump_exec(CmpKind::GtEq, t),
            Instruction::Call(l) => {
                self.rets.push(self.pc + 1);
                proof {
                    assert(self.model().rets =~= old(self).model().rets.push(
                        old(self).model().pc + 1,
                    ));
                }
                match self.find_label(l) {
                    Some(o) => {
                        self.pc = o;
                        Ok(None)
                    },
                    None => Err(VmError::UnknownLabel(l)),
                }
            },
            Instruction::CallF(name) => {
                if self.is_registered(&name) {
                    self.pending = Some(Pending::RunBuiltin);
                    Ok(Some(Effect::Builtin { name }))
                } else {
                    Err(VmError::UnknownBuiltin(name))
                }
            },
            Instruction::Ret => match self.rets.pop() {
                Some(a) => {
                    self.pc = a;
                    proof {
                        assert(self.model().rets =~= old(self).model().rets.drop_last());
                    }
                    Ok(None)
                },
                None => Err(VmError::ReturnWithoutCall),
            },
            Instruction::Add => self.arith_exec(ArithOp::Add),
            Instruction::Sub => self.arith_exec(ArithOp::Sub),
            Instruction::Mul => self.arith_exec(ArithOp::Mul),
            Instruction::Div => self.arith_exec(ArithOp::Div),
            Instruction::Mod => self.arith_exec(ArithOp::Mod),
            Instruction::Pow => self.arith_exec(ArithOp::Pow),
            Instruction::Eq => self.cmp_push_exec(CmpKind::Eq),
            Instruction::NEq => self.cmp_push_exec(CmpKind::NEq),
            Instruction::Lt => self.cmp_push_exec(CmpKind::Lt),
            Instruction::Gt => self.cmp_push_exec(CmpKind::Gt),
            Instruction::LtEq => self.cmp_push_exec(CmpKind::LtEq),
            Instruction::GtEq => self.cmp_push_exec(CmpKind::GtEq),
            Instruction::BOr => self.bitwise_exec(BitOp::Or),
            Instruction::BAnd => self.bitwise_exec(BitOp::And),
            Instruction::LShift => self.bitwise_exec(BitOp::Shl),
            Instruction::RShift => self.bitwise_exec(BitOp::Shr),
            Instruction::BNot => {
                let v = match self.stack.pop() {
                    Err(er) => {
                        return Err(er);
                    },
                    Ok(v) => v,
                };
                match v {
                    Value::Number(x) => {
                        self.pending = Some(Pending::FinishBNot);
                        Ok(Some(Effect::NumTruncate32 { value: x }))
                    },
                    Value::Bool(b) => match self.push_step(Value::Bool(!b)) {
                        Ok(_) => Ok(None),
                        Err(er) => Err(er),
                    },
                    _ => Err(VmError::TypeMismatch),
                }
            },
        }
    }

    /// Pop the two operands the instruction under the counter compares, or
    /// report the underflow.
    fn pop_pair(&mut self) -> (r: VmResult<(Value, Value)>)
        requires
            old(self).inv(),
        ensures
            final(self).inv(),
            same_program(old(self).model(), final(self).model()),
            final(self).pending == old(self).pending,
            match r {
                Ok(p) => old(self).model().stack.len() >= 2 && p.0 == old(
                    self,
                ).model().stack.last() && p.1 == old(self).model().stack.drop_last().last()
                    && final(self).model() == (VmModel {
                    stack: old(self).model().stack.drop_last().drop_last(),
                    ..old(self).model()
                }) && value_ok(p.0, final(self).strings@.len() as int) && value_ok(
                    p.1,
                    final(self).strings@.len() as int,
                ),
                Err(er) => er is StackUnderflow && old(self).model().stack.len() < 2,
            },
    {
        let a = match self.stack.pop() {
            Err(er) => {
                return Err(er);
            },
            Ok(v) => v,
        };
        let b = match self.stack.pop() {
            Err(er) => {
                return Err(er);
            },
            Ok(v) => v,
        };
        Ok((a, b))
    }

    /// One comparison jump: two numbers go to the host, anything else is
    /// decided here and order tests fall through.
    fn cmp_jump_exec(&mut self, kind: CmpKind, t: Label) -> (r: VmResult<Option<Effect>>)
        requires
            old(self).inv(),
            old(self).pending is None,
            old(self).pc < old(self).script@.len(),
            cmp_jump(old(self).model(), kind, t) == step_spec(old(self).model()),
        ensures
            final(self).inv(),
            same_program(old(self).model(), final(self).model()),
            match r {
                Ok(oe) => match oe {
                    None => step_spec(old(self).model()) == Ok::<SpecStep, VmError>(
                        SpecStep::Quiet(final(self).model()),
                    ) && final(self).pending is None,
                    Some(e) => step_spec(old(self).model()) == Ok::<SpecStep, VmError>(
                        SpecStep::Ask(final(self).model(), e),
                    ),
                },
                Err(er) => step_spec(old(self).model()) == Err::<SpecStep, VmError>(er),
            },
    {
        let bound = self.script.len();
        proof {
            assert(self.pc < bound);
        }
        let (a, b) = match self.pop_pair() {
            Err(er) => {
                return Err(er);
            },
            Ok(p) => p,
        };
        let nums: Option<(u64, u64)> = match (&a, &b) {
            (Value::Number(x), Value::Number(y)) => Some((*x, *y)),
            _ => None,
        };
        match nums {
            Some((x, y)) => {
                self.pending = Some(Pending::JumpIf { target: t });
                Ok(Some(Effect::NumCompare { op: kind, lhs: x, rhs: y }))
            },
            None => {
                if self.compare_quiet(kind, &a, &b) {
                    match self.find_label(t) {
                        Some(o) => {
                            self.pc = o;
                            Ok(None)
                        },
                        None => Err(VmError::UnknownLabel(t)),
                    }
                } else {
                    self.pc = self.pc + 1;
                    Ok(None)
                }
            },
        }
    }

    /// One pushed comparison: two numbers go to the host, anything else is
    /// decided here.
    fn cmp_push_exec(&mut self, kind: CmpKind) -> (r: VmResult<Option<Effect>>)
        requires
            old(self).inv(),
            old(self).pending is None,
            old(self).pc < old(self).script@.len(),
            cmp_push(old(self).model(), kind) == step_spec(old(self).model()),
        ensures
            final(self).inv(),
            same_program(old(self).model(), final(self).model()),
            match r {
                Ok(oe) => match oe {
                    None => step_spec(old(self).model()) == Ok::<SpecStep, VmError>(
                        SpecStep::Quiet(final(self).model()),
                    ) && final(self).pending is None,
                    Some(e) => step_spec(old(self).model()) == Ok::<SpecStep, VmError>(
                        SpecStep::Ask(final(self).model(), e),
                    ),
                },
                Err(er) => step_spec(old(self).model()) == Err::<SpecStep, VmError>(er),
            },
    {
        let (a, b) = match self.pop_pair() {
            Err(er) => {
                return Err(er);
            },
            Ok(p) => p,
        };
        let nums: Option<(u64, u64)> = match (&a, &b) {
            (Value::Number(x), Value::Number(y)) => Some((*x, *y)),
            _ => None,
        };
        match nums {
            Some((x, y)) => {
                self.pending = Some(Pending::PushFlag);
                Ok(Some(Effect::NumCompare { op: kind, lhs: x, rhs: y }))
            },
            None => {
                let c = self.compare_quiet(kind, &a, &b);
                match self.push_step(Value::Bool(c)) {
                    Ok(_) => Ok(None),
                    Err(er) => Err(er),
                }
            },
        }
    }

    /// One arithmetic instruction: both operands must be numbers, and the
    /// host computes.
    fn arith_exec(&mut self, op: ArithOp) -> (r: VmResult<Option<Effect>>)
        requires
            old(self).inv(),
            old(self).pending is None,
            old(self).pc < old(self).script@.len(),
            arith(old(self).model(), op) == step_spec(old(self).model()),
        ensures
            final(self).inv(),
            same_program(old(self).model(), final(self).model()),
            match r {
                Ok(oe) => match oe {
                    None => step_spec(old(self).model()) == Ok::<SpecStep, VmError>(
                        SpecStep::Quiet(final(self).model()),
                    ) && final(self).pending is None,
                    Some(e) => step_spec(old(self).model()) == Ok::<SpecStep, VmError>(
                        SpecStep::Ask(final(self).model(), e),
                    ),
                },
                Err(er) => step_spec(old(self).model()) == Err::<SpecStep, VmError>(er),
            },
    {
        let (a, b) = match self.pop_pair() {
            Err(er) => {
                return Err(er);
            },
            Ok(p) => p,
        };
        let nums: Option<(u64, u64)> = match (&a, &b) {
            (Value::Number(x), Value::Number(y)) => Some((*x, *y)),
            _ => None,
        };
        match nums {
            Some((x, y)) => {
                self.pending = Some(Pending::PushNumber);
                Ok(Some(Effect::NumBinary { op, lhs: x, rhs: y }))
            },
            None => Err(VmError::TypeMismatch),
        }
    }

    /// One bitwise instruction: both operands must be numbers, and the host
    /// truncates them before the machine finishes the operation.
    fn bitwise_exec(&mut self, op: BitOp) -> (r: VmResult<Option<Effect>>)
        requires
            old(self).inv(),
            old(self).pending is None,
            old(self).pc < old(self).script@.len(),
            bitwise(old(self).model(), op) == step_spec(old(self).model()),
        ensures
            final(self).inv(),
            same_program(old(self).model(), final(self).model()),
            match r {
                Ok(oe) => match oe {
                    None => step_spec(old(self).model()) == Ok::<SpecStep, VmError>(
                        SpecStep::Quiet(final(self).model()),
                    ) && final(self).pending is None,
                    Some(e) => step_spec(old(self).model()) == Ok::<SpecStep, VmError>(
                        SpecStep::Ask(final(self).model(), e),
                    ),
                },
                Err(er) => step_spec(old(self).model()) == Err::<SpecStep, VmError>(er),
            },
    {
        let (a, b) = match self.pop_pair() {
            Err(er) => {
                return Err(er);
            },
            Ok(p) => p,
        };
        let nums: Option<(u64, u64)> = match (&a, &b) {
            (Value::Number(x), Value::Number(y)) => Some((*x, *y)),
            _ => None,
        };
        match nums {
            Some((x, y)) => {
                self.pending = Some(Pending::FinishBitwise { op });
                Ok(Some(Effect::NumTruncate { lhs: x, rhs: y }))
            },
            None => Err(VmError::TypeMismatch),
        }
    }
}


impl VirtualMachine {
    /// Answer a number request: the machine pushes the number and moves on.
    pub fn resume_number(&mut self, bits: u64) -> (r: VmResult<()>)
        requires
            old(self).inv(),
            old(self).pending == Some(Pending::PushNumber),
        ensures
            final(self).inv(),
            same_program(old(self).model(), final(self).model()),
            match r {
                Ok(_) => old(self).model().stack.len() < old(self).model().cap && final(self).model() == (VmModel {
                    pc: old(self).model().pc + 1,
                    stack: old(self).model().stack.push(Value::Number(bits)),
                    pending: None,
                    ..old(self).model()
                }),
                Err(er) => er is StackOverflow && old(self).model().stack.len() == old(
                    self,
                ).model().cap,
            },
    {
        let bound = self.script.len();
        proof {
            assert(self.pc < bound);
        }
        self.pending = None;
        match self.stack.push(Value::Number(bits)) {
            Err(er) => Err(er),
            Ok(_) => {
                self.pc = self.pc + 1;
                Ok(())
            },
        }
    }

    /// Answer a comparison request: the machine jumps or falls through, or
    /// pushes the boolean, as the instruction asked.
    pub fn resume_flag(&mut self, taken: bool) -> (r: VmResult<()>)
        requires
            old(self).inv(),
            old(self).pending matches Some(p) && (p matches Pending::JumpIf { target: _ } || p
                is PushFlag),
        ensures
            final(self).inv(),
            same_program(old(self).model(), final(self).model()),
            ({
                let m = old(self).model();
                match old(self).pending->Some_0 {
                    Pending::JumpIf { target } => match r {
                        Ok(_) => if taken {
                            label_offset(m.labels, target) matches Some(o) && final(self).model()
                                == (VmModel { pc: o, pending: None, ..m })
                        } else {
                            final(self).model() == (VmModel {
                                pc: m.pc + 1,
                                pending: None,
                                ..m
                            })
                        },
                        Err(er) => taken && label_offset(m.labels, target) is None && (er matches
                            VmError::UnknownLabel(l) && l == target),
                    },
                    _ => match r {
                        Ok(_) => m.stack.len() < m.cap && final(self).model() == (VmModel {
                            pc: m.pc + 1,
                            stack: m.stack.push(Value::Bool(taken)),
                            pending: None,
                            ..m
                        }),
                        Err(er) => er is StackOverflow && m.stack.len() == m.cap,
                    },
                }
            }),
    {
        let bound = self.script.len();
        proof {
            assert(self.pc < bound);
        }
        let waiting = match &self.pending {
            Some(p) => match p {
                Pending::JumpIf { target } => Some(*target),
                _ => None,
            },
            None => None,
        };
        self.pending = None;
        match waiting {
            Some(target) => {
                if taken {
                    match self.find_label(target) {
                        Some(o) => {
                            self.pc = o;
                            Ok(())
                        },
                        None => Err(VmError::UnknownLabel(target)),
                    }
                } else {
                    self.pc = self.pc + 1;
                    Ok(())
                }
            },
            None => match self.stack.push(Value::Bool(taken)) {
                Err(er) => Err(er),
                Ok(_) => {
                    self.pc = self.pc + 1;
                    Ok(())
                },
            },
        }
    }

    /// Answer a truncation request: the machine finishes the bitwise
    /// operation exactly and asks the host to widen the result.
    pub fn resume_ints(&mut self, lhs: u64, rhs: u64) -> (e: Effect)
        requires
            old(self).inv(),
            old(self).pending matches Some(p) && p matches Pending::FinishBitwise { op: _ },
        ensures
            final(self).inv(),
            same_program(old(self).model(), final(self).model()),
            e == (Effect::NumWiden {
                value: bit_apply(old(self).pending->Some_0->FinishBitwise_op, lhs, rhs),
            }),
            final(self).model() == (VmModel {
                pending: Some(Pending::PushNumber),
                ..old(self).model()
            }),
    {
        let op = match &self.pending {
            Some(Pending::FinishBitwise { op }) => *op,
            _ => BitOp::Or,  // unreachable: the machine is waiting on a truncation
        };
        let value = match op {
            BitOp::Or => lhs | rhs,
            BitOp::And => lhs & rhs,
            BitOp::Shl => if rhs < 64 {
                lhs << rhs
            } else {
                0
            },
            BitOp::Shr => if rhs < 64 {
                lhs >> rhs
            } else {
                0
            },
        };
        self.pending = Some(Pending::PushNumber);
        Effect::NumWiden { value }
    }

    /// Answer a 32-bit truncation request: the machine complements the low
    /// 32 bits and asks the host to widen the result.
    pub fn resume_int(&mut self, value: u64) -> (e: Effect)
        requires
            old(self).inv(),
            old(self).pending == Some(Pending::FinishBNot),
        ensures
            final(self).inv(),
            same_program(old(self).model(), final(self).model()),
            e == (Effect::NumWiden { value: bnot_apply(value) }),
            final(self).model() == (VmModel {
                pending: Some(Pending::PushNumber),
                ..old(self).model()
            }),
    {
        let flipped = (value ^ 0xFFFF_FFFFu64) & 0xFFFF_FFFFu64;
        self.pending = Some(Pending::PushNumber);
        Effect::NumWiden { value: flipped }
    }

    /// Acknowledge that the host ran the builtin it was asked to run; the
    /// machine moves past the call.
    pub fn resume_ran(&mut self)
        requires
            old(self).inv(),
            old(self).pending == Some(Pending::RunBuiltin),
        ensures
            final(self).inv(),
            same_program(old(self).model(), final(self).model()),
            final(self).model() == (VmModel {
                pc: old(self).model().pc + 1,
                pending: None,
                ..old(self).model()
            }),
    {
        let bound = self.script.len();
        proof {
            assert(self.pc < bound);
        }
        self.pending = None;
        self.pc = self.pc + 1;
    }

    /// Run until the program ends, the host is needed, or the step budget
    /// runs out: quiet steps lead to completion, to the instruction that
    /// asks, or to a pause that a further run continues.  A fault stops the
    /// machine for good.
    pub fn run(&mut self, budget: u64) -> (r: VmResult<Effect>)
        requires
            old(self).inv(),
            old(self).pending is None,
        ensures
            final(self).inv(),
            same_program(old(self).model(), final(self).model()),
            match r {
                Ok(e) => runs_to(old(self).model(), final(self).model(), e) && (e is Paused
                    ==> final(self).pending is None && after_silent(
                    old(self).model(),
                    budget as nat,
                ) == Some(final(self).model())),
                Err(er) => runs_to_fault(old(self).model(), er),
            },
    {
        let ghost mut n: nat = 0;
        let mut left = budget;
        loop
            invariant
                self.inv(),
                self.pending is None,
                n + left == budget,
                same_program(old(self).model(), self.model()),
                after_silent(old(self).model(), n) == Some(self.model()),
            decreases left,
        {
            if left == 0 {
                proof {
                    assert(n == budget as nat);
                    assert(runs_to(old(self).model(), self.model(), Effect::Paused));
                }
                return Ok(Effect::Paused);
            }
            left = left - 1;
            if self.pc >= self.script.len() {
                proof {
                    assert(runs_to(old(self).model(), self.model(), Effect::Done));
                }
                return Ok(Effect::Done);
            }
            let ghost before = *self;
            match self.step_once() {
                Err(er) => {
                    proof {
                        assert(runs_to_fault(old(self).model(), er));
                    }
                    return Err(er);
                },
                Ok(Some(e)) => {
                    proof {
                        assert(after_silent(old(self).model(), n) == Some(before.model()));
                        assert(runs_to(old(self).model(), self.model(), e));
                    }
                    return Ok(e);
                },
                Ok(None) => {
                    proof {
                        lemma_after_silent_extend(old(self).model(), n, self.model());
                        n = n + 1;
                    }
                },
            }
        }
    }

    /// Take the newest value off the evaluation stack, for a host function
    /// collecting its arguments.
    pub fn host_pop(&mut self) -> (r: VmResult<Value>)
        requires
            old(self).inv(),
        ensures
            final(self).inv(),
            match r {
                Ok(v) => old(self).model().stack.len() > 0 && v == old(self).model().stack.last()
                    && final(self).model() == (VmModel {
                    stack: old(self).model().stack.drop_last(),
                    ..old(self).model()
                }) && value_ok(v, final(self).strings@.len() as int),
                Err(er) => er is StackUnderflow && old(self).model().stack.len() == 0,
            },
    {
        self.stack.pop()
    }

    /// Put a value on the evaluation stack, for a host function leaving its
    /// results.  A string handle the arena does not hold is refused.
    pub fn host_push(&mut self, v: Value) -> (r: VmResult<()>)
        requires
            old(self).inv(),
        ensures
            final(self).inv(),
            match r {
                Ok(_) => value_ok(v, old(self).strings@.len() as int) && old(
                    self,
                ).model().stack.len() < old(self).model().cap && final(self).model() == (VmModel {
                    stack: old(self).model().stack.push(v),
                    ..old(self).model()
                }),
                Err(er) => (er is StackOverflow && old(self).model().stack.len() == old(
                    self,
                ).model().cap) || (er is BadStringHandle && !value_ok(
                    v,
                    old(self).strings@.len() as int,
                )),
            },
    {
        let fits = match &v {
            Value::Str(i) => *i < self.strings.len(),
            _ => true,
        };
        if !fits {
            return Err(VmError::BadStringHandle);
        }
        self.stack.push(v)
    }

    /// Put a new string into the shared arena and hand back its handle.
    pub fn new_string(&mut self, text: String) -> (r: usize)
        requires
            old(self).inv(),
        ensures
            final(self).inv(),
            r == old(self).strings@.len(),
            final(self).model() == (VmModel {
                strings: old(self).model().strings.push(text@),
                ..old(self).model()
            }),
    {
        let handle = self.strings.len();
        self.strings.push(text);
        proof {
            assert(self.model().strings =~= old(self).model().strings.push(text@));
        }
        handle
    }

    /// Read the buffer a string handle points at.
    pub fn read_string(&self, handle: usize) -> (r: VmResult<String>)
        requires
            self.inv(),
        ensures
            match r {
                Ok(text) => handle < self.model().strings.len() && text@ == self.model().strings[
                    handle as int
                ],
                Err(er) => er is BadStringHandle && handle >= self.model().strings.len(),
            },
    {
        if handle < self.strings.len() {
            Ok(self.strings[handle].clone())
        } else {
            Err(VmError::BadStringHandle)
        }
    }

    /// Append to the buffer a string handle points at: the change is seen
    /// through every value holding the same handle, since they all share
    /// the one buffer.
    pub fn string_append(&mut self, handle: usize, suffix: &str) -> (r: VmResult<()>)
        requires
            old(self).inv(),
        ensures
            final(self).inv(),
            match r {
                Ok(_) => handle < old(self).model().strings.len() && final(self).model()
                    == (VmModel {
                    strings: old(self).model().strings.update(
                        handle as int,
                        old(self).model().strings[handle as int] + suffix@,
                    ),
                    ..old(self).model()
                }),
                Err(er) => er is BadStringHandle && handle >= old(self).model().strings.len(),
            },
    {
        if handle >= self.strings.len() {
            return Err(VmError::BadStringHandle);
        }
        let mut buffer = String::new();
        core::mem::swap(&mut buffer, &mut self.strings[handle]);
        buffer.append(suffix);
        core::mem::swap(&mut buffer, &mut self.strings[handle]);
        proof {
            assert(self.model().strings =~= old(self).model().strings.update(
                handle as int,
                old(self).model().strings[handle as int] + suffix@,
            ));
        }
        Ok(())
    }
}

/// One more quiet step extends a quiet run.
pub proof fn lemma_after_silent_extend(m0: VmModel, n: nat, m2: VmModel)
    requires
        after_silent(m0, n) matches Some(m1) && 0 <= m1.pc < m1.script.len() && m1.pending is None
            && step_spec(m1) == Ok::<SpecStep, VmError>(SpecStep::Quiet(m2)),
    ensures
        after_silent(m0, n + 1) == Some(m2),
    decreases n,
{
    if n == 0 {
        assert(after_silent(m0, 1) == after_silent(m2, 0));
    } else {
        let mm = match step_spec(m0) {
            Ok(SpecStep::Quiet(mm)) => mm,
            _ => m0,
        };
        lemma_after_silent_extend(mm, (n - 1) as nat, m2);
    }
}

} // verus!
