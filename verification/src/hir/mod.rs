//! Lowering: syntax tree to flat bytecode.
//!
//! The compiler walks the tree once, keeping a stack of lexical scopes and a
//! mint of fresh identifier tokens, and appends instructions to a flat
//! program.  A pre-scan first assigns every function definition a label, so
//! that forward references and recursion resolve during the single pass.
//! What each step does is written down by a spec mirror (`lower_spec`,
//! `scan_spec`), and the executable compiler is proved to follow it exactly.

pub mod error;
pub mod scope;

use crate::ast::expr::{
    BinaryOp, BinaryOperator, Compound, Expr, Function, If, UnaryOperator,
};
use crate::ir::instr::{Instruction, Label};
use crate::util::uuid::Uuid;
use error::CompileError;
use scope::{bound_in, lookup_binding, Local, Scope, ScopeId, ScopeModel};
use vstd::prelude::*;

verus! {

broadcast use
    vstd::std_specs::vec::axiom_vec_index_decreases,
    vstd::seq::axiom_seq_index_decreases,
    vstd::std_specs::vec::axiom_vec_decreases_to_view;

/// No identifier token may carry a value at or beyond this bound, so that a
/// mint holding a smaller value can always hand out one more.
pub open spec fn id_limit() -> int {
    u128::MAX as int
}

/// The model of the compiler's state: the scope stack (innermost last), the
/// function-name-to-label map from the pre-scan (newest binding last), the
/// instructions emitted so far, and the next fresh identifier value.
pub struct LowerModel {
    pub scopes: Seq<ScopeModel>,
    pub functions: Seq<(String, Label)>,
    pub instructions: Seq<Instruction>,
    pub next: int,
    /// The spelling the negation sugar multiplies by, fixed at `-1`.
    pub neg_one: String,
}

/// Append one instruction.
pub open spec fn push_instr(m: LowerModel, i: Instruction) -> LowerModel {
    LowerModel { instructions: m.instructions.push(i), ..m }
}

/// The label a function name was assigned by the pre-scan: the newest
/// assignment wins.
pub open spec fn fn_label(fns: Seq<(String, Label)>, name: Seq<char>) -> Option<Label>
    decreases fns.len(),
{
    if fns.len() == 0 {
        None
    } else if fns.last().0@ == name {
        Some(fns.last().1)
    } else {
        fn_label(fns.drop_last(), name)
    }
}

/// Resolve a name against the scope stack, innermost scope first, in the
/// variable namespace (`vars_ns`) or the parameter namespace.  The nearest
/// enclosing scope that binds the name decides; the other namespace is
/// never consulted.
pub open spec fn chain_lookup(
    scopes: Seq<ScopeModel>,
    name: Seq<char>,
    vars_ns: bool,
) -> Option<Local>
    decreases scopes.len(),
{
    if scopes.len() == 0 {
        None
    } else {
        let ns = if vars_ns {
            scopes.last().vars
        } else {
            scopes.last().params
        };
        match bound_in(ns, name) {
            Some(l) => Some(l),
            None => chain_lookup(scopes.drop_last(), name, vars_ns),
        }
    }
}

/// An empty scope frame.
pub open spec fn empty_frame() -> ScopeModel {
    ScopeModel {
        vars: Seq::empty(),
        params: Seq::empty(),
        parent: None,
    }
}

/// Enter a fresh child scope.
pub open spec fn enter_scope(m: LowerModel) -> LowerModel {
    LowerModel {
        scopes: m.scopes.push(
            ScopeModel {
                vars: Seq::empty(),
                params: Seq::empty(),
                parent: Some(m.scopes.len() - 1),
            },
        ),
        ..m
    }
}

/// Leave the innermost scope, discarding its bindings.  The root scope is
/// never left.
pub open spec fn exit_scope(m: LowerModel) -> LowerModel {
    if m.scopes.len() > 1 {
        LowerModel { scopes: m.scopes.drop_last(), ..m }
    } else {
        m
    }
}

/// Mint a fresh local bound to `name` in the innermost scope's variable
/// namespace.
pub open spec fn mint_var(m: LowerModel, name: String) -> (LowerModel, Local) {
    let l = Local(Uuid(m.next as u128));
    let top = m.scopes.last();
    let top2 = ScopeModel { vars: top.vars.push((name, l)), ..top };
    (
        LowerModel {
            scopes: m.scopes.update(m.scopes.len() - 1, top2),
            next: m.next + 1,
            ..m
        },
        l,
    )
}

/// Mint a fresh local bound to `name` in the innermost scope's parameter
/// namespace.
pub open spec fn mint_param(m: LowerModel, name: String) -> (LowerModel, Local) {
    let l = Local(Uuid(m.next as u128));
    let top = m.scopes.last();
    let top2 = ScopeModel { params: top.params.push((name, l)), ..top };
    (
        LowerModel {
            scopes: m.scopes.update(m.scopes.len() - 1, top2),
            next: m.next + 1,
            ..m
        },
        l,
    )
}

/// The instruction a binary operator lowers to.
pub open spec fn op_instr(op: BinaryOperator) -> Instruction {
    match op {
        BinaryOperator::Add => Instruction::Add,
        BinaryOperator::Sub => Instruction::Sub,
        BinaryOperator::Mul => Instruction::Mul,
        BinaryOperator::Div => Instruction::Div,
        BinaryOperator::Mod => Instruction::Mod,
        BinaryOperator::Pow => Instruction::Pow,
        BinaryOperator::BOr => Instruction::BOr,
        BinaryOperator::BAnd => Instruction::BAnd,
        BinaryOperator::LShift => Instruction::LShift,
        BinaryOperator::RShift => Instruction::RShift,
        BinaryOperator::Eq => Instruction::Eq,
        BinaryOperator::NEq => Instruction::NEq,
        BinaryOperator::Lt => Instruction::Lt,
        BinaryOperator::LtEq => Instruction::LtEq,
        BinaryOperator::Gt => Instruction::Gt,
        BinaryOperator::GtEq => Instruction::GtEq,
    }
}

/// What lowering one node does to the compiler state: the instructions it
/// appends, the bindings it makes, and the fault that stops it, if any.
pub open spec fn lower_spec(e: Expr, m: LowerModel) -> Result<LowerModel, CompileError>
    decreases e, 0int,
{
    match e {
        Expr::Noop(_) => Ok(m),
        Expr::String(s) => Ok(push_instr(m, Instruction::LdStr(s.0))),
        Expr::Number(n) => Ok(push_instr(m, Instruction::LdNum(n.0))),
        Expr::RefVar(v) => match chain_lookup(m.scopes, v.0@, true) {
            Some(l) => Ok(push_instr(m, Instruction::LdLoc(l))),
            None => Err(CompileError::UndefinedVariable(v.0)),
        },
        Expr::RefParam(p) => match chain_lookup(m.scopes, p.0@, false) {
            Some(l) => Ok(push_instr(m, Instruction::LdLoc(l))),
            None => Err(CompileError::UndefinedParameter(p.0)),
        },
        Expr::Assign(a) => match chain_lookup(m.scopes, a.ident@, true) {
            None => Err(CompileError::UndefinedVariable(a.ident)),
            Some(l) => match lower_spec(a.expr, m) {
                Ok(m1) => Ok(push_instr(m1, Instruction::StLoc(l))),
                Err(er) => Err(er),
            },
        },
        Expr::Define(d) => {
            if bound_in(m.scopes.last().vars, d.ident@) is Some {
                Err(CompileError::DuplicateVariable(d.ident))
            } else if m.next >= id_limit() {
                Err(CompileError::OutOfIdentifiers)
            } else {
                let (m1, l) = mint_var(m, d.ident);
                match lower_spec(d.expr, m1) {
                    Ok(m2) => Ok(push_instr(m2, Instruction::StLoc(l))),
                    Err(er) => Err(er),
                }
            }
        },
        Expr::UnaryOp(u) => match u.op {
            UnaryOperator::Neg => match lower_spec(u.expr, m) {
                Ok(m1) => Ok(
                    push_instr(
                        push_instr(m1, Instruction::LdNum(m1.neg_one)),
                        Instruction::Mul,
                    ),
                ),
                Err(er) => Err(er),
            },
            UnaryOperator::BNot => match lower_spec(u.expr, m) {
                Ok(m1) => Ok(push_instr(m1, Instruction::BNot)),
                Err(er) => Err(er),
            },
            _ => Err(CompileError::UnsupportedUnary),
        },
        Expr::BinaryOp(b) => match lower_spec(b.rhs, m) {
            Ok(m1) => match lower_spec(b.lhs, m1) {
                Ok(m2) => Ok(push_instr(m2, op_instr(b.op))),
                Err(er) => Err(er),
            },
            Err(er) => Err(er),
        },
        Expr::If(i) => {
            if m.next + 2 > id_limit() {
                Err(CompileError::OutOfIdentifiers)
            } else {
                let end = Label(Uuid(m.next as u128));
                let body = Label(Uuid((m.next + 1) as u128));
                let m0 = LowerModel { next: m.next + 2, ..m };
                match lower_if_cond_spec(i.condition, m0, body) {
                    Err(er) => Err(er),
                    Ok(m1) => match lower_if_ft_spec(i.fallthrough, m1, end) {
                        Err(er) => Err(er),
                        Ok(m2) => {
                            let m3 = enter_scope(push_instr(m2, Instruction::Label(body)));
                            match lower_spec(i.body, m3) {
                                Err(er) => Err(er),
                                Ok(m4) => Ok(
                                    push_instr(exit_scope(m4), Instruction::Label(end)),
                                ),
                            }
                        },
                    },
                }
            }
        },
        Expr::Function(f) => lower_fn_spec(*f, m),
        Expr::Call(c) => {
            let after_args = match c.args {
                Some(a) => lower_spec(a, m),
                None => Ok(m),
            };
            match after_args {
                Err(er) => Err(er),
                Ok(m1) => match fn_label(m1.functions, c.name@) {
                    Some(lbl) => Ok(push_instr(m1, Instruction::Call(lbl))),
                    None => Ok(push_instr(m1, Instruction::CallF(c.name))),
                },
            }
        },
        Expr::Compound(c) => lower_list(c.0@, m),
    }
}

/// Lower every expression of a list in order.
pub open spec fn lower_list(es: Seq<Expr>, m: LowerModel) -> Result<LowerModel, CompileError>
    decreases es, 0int,
{
    if es.len() == 0 {
        Ok(m)
    } else {
        match lower_spec(es[0], m) {
            Ok(m1) => lower_list(es.drop_first(), m1),
            Err(er) => Err(er),
        }
    }
}

/// What lowering an `if` condition does: for a direct equality or
/// less-than comparison, lower its operands (right first) and jump on the
/// comparison itself; for any other shape, lower the condition to a value
/// and test it against `true`.
pub open spec fn lower_if_cond_spec(cond: Expr, m0: LowerModel, body: Label) -> Result<
    LowerModel,
    CompileError,
>
    decreases cond, 1int,
{
    match cond {
        Expr::BinaryOp(b) => {
            if b.op == BinaryOperator::Eq || b.op == BinaryOperator::Lt {
                match lower_spec(b.rhs, m0) {
                    Ok(mc1) => match lower_spec(b.lhs, mc1) {
                        Ok(mc2) => Ok(
                            push_instr(
                                mc2,
                                if b.op == BinaryOperator::Eq {
                                    Instruction::JmpEq(body)
                                } else {
                                    Instruction::JmpLt(body)
                                },
                            ),
                        ),
                        Err(er) => Err(er),
                    },
                    Err(er) => Err(er),
                }
            } else {
                match lower_spec(Expr::BinaryOp(b), m0) {
                    Ok(mc1) => Ok(
                        push_instr(
                            push_instr(mc1, Instruction::LdTrue),
                            Instruction::JmpEq(body),
                        ),
                    ),
                    Err(er) => Err(er),
                }
            }
        },
        other => match lower_spec(other, m0) {
            Ok(mc1) => Ok(
                push_instr(push_instr(mc1, Instruction::LdTrue), Instruction::JmpEq(body)),
            ),
            Err(er) => Err(er),
        },
    }
}

/// What lowering an `if` fallthrough branch does: nothing when there is
/// none; otherwise the branch is lowered in a child scope of its own and
/// jumps past the body.
pub open spec fn lower_if_ft_spec(ft: Option<Expr>, m1: LowerModel, end: Label) -> Result<
    LowerModel,
    CompileError,
>
    decreases ft, 1int,
{
    match ft {
        Some(f) => match lower_spec(f, enter_scope(m1)) {
            Ok(mf) => Ok(push_instr(exit_scope(mf), Instruction::Jmp(end))),
            Err(er) => Err(er),
        },
        None => Ok(m1),
    }
}

/// What lowering one function definition does: jump over the body, mark the
/// function's pre-scanned label, bind the parameters in a fresh scope, store
/// the incoming arguments into them newest first, lower the body, and
/// return.
pub open spec fn lower_fn_spec(f: Function, m: LowerModel) -> Result<LowerModel, CompileError>
    decreases f, 0int,
{
    if m.next >= id_limit() {
        Err(CompileError::OutOfIdentifiers)
    } else {
        let end = Label(Uuid(m.next as u128));
        let m1 = enter_scope(LowerModel { next: m.next + 1, ..m });
        match fn_label(m1.functions, f.name@) {
            None => Err(CompileError::MissingFunction(f.name)),
            Some(lbl) => {
                let m2 = push_instr(
                    push_instr(m1, Instruction::Jmp(end)),
                    Instruction::Label(lbl),
                );
                match bind_params(f.params@, m2) {
                    Err(er) => Err(er),
                    Ok(m3) => {
                        let fresh = m3.scopes.last().params.skip(
                            m2.scopes.last().params.len() as int,
                        );
                        let m4 = store_params(fresh, m3);
                        match lower_spec(f.body, m4) {
                            Err(er) => Err(er),
                            Ok(m5) => Ok(
                                exit_scope(
                                    push_instr(
                                        push_instr(m5, Instruction::Ret),
                                        Instruction::Label(end),
                                    ),
                                ),
                            ),
                        }
                    },
                }
            },
        }
    }
}

/// Bind every parameter name, in order, to a fresh local in the innermost
/// scope's parameter namespace.  A repeated name is a fault.
pub open spec fn bind_params(params: Seq<String>, m: LowerModel) -> Result<
    LowerModel,
    CompileError,
>
    decreases params.len(),
{
    if params.len() == 0 {
        Ok(m)
    } else if bound_in(m.scopes.last().params, params[0]@) is Some {
        Err(CompileError::DuplicateParameter(params[0]))
    } else if m.next >= id_limit() {
        Err(CompileError::OutOfIdentifiers)
    } else {
        bind_params(params.drop_first(), mint_param(m, params[0]).0)
    }
}

/// Emit the stores that bind incoming arguments to parameter locals: the
/// caller pushed the arguments left to right, so the newest parameter is
/// stored first.
pub open spec fn store_params(bindings: Seq<(String, Local)>, m: LowerModel) -> LowerModel
    decreases bindings.len(),
{
    if bindings.len() == 0 {
        m
    } else {
        store_params(
            bindings.drop_last(),
            push_instr(m, Instruction::StLoc(bindings.last().1)),
        )
    }
}

/// What the pre-scan does: walk the whole tree and assign every function
/// definition a fresh label, the later of two definitions of one name
/// winning.
pub open spec fn scan_spec(e: Expr, fns: Seq<(String, Label)>, next: int) -> Result<
    (Seq<(String, Label)>, int),
    CompileError,
>
    decreases e,
{
    match e {
        Expr::Noop(_) => Ok((fns, next)),
        Expr::String(_) => Ok((fns, next)),
        Expr::Number(_) => Ok((fns, next)),
        Expr::RefVar(_) => Ok((fns, next)),
        Expr::RefParam(_) => Ok((fns, next)),
        Expr::Assign(a) => scan_spec(a.expr, fns, next),
        Expr::Define(d) => scan_spec(d.expr, fns, next),
        Expr::UnaryOp(u) => scan_spec(u.expr, fns, next),
        Expr::BinaryOp(b) => match scan_spec(b.lhs, fns, next) {
            Ok((f1, n1)) => scan_spec(b.rhs, f1, n1),
            Err(er) => Err(er),
        },
        Expr::If(i) => match scan_spec(i.condition, fns, next) {
            Ok((f1, n1)) => match scan_spec(i.body, f1, n1) {
                Ok((f2, n2)) => match i.fallthrough {
                    Some(ft) => scan_spec(ft, f2, n2),
                    None => Ok((f2, n2)),
                },
                Err(er) => Err(er),
            },
            Err(er) => Err(er),
        },
        Expr::Call(c) => match c.args {
            Some(a) => scan_spec(a, fns, next),
            None => Ok((fns, next)),
        },
        Expr::Function(f) => {
            if next >= id_limit() {
                Err(CompileError::OutOfIdentifiers)
            } else {
                scan_spec(f.body, fns.push((f.name, Label(Uuid(next as u128)))), next + 1)
            }
        },
        Expr::Compound(c) => scan_list(c.0@, fns, next),
    }
}

/// Pre-scan every expression of a list in order.
pub open spec fn scan_list(es: Seq<Expr>, fns: Seq<(String, Label)>, next: int) -> Result<
    (Seq<(String, Label)>, int),
    CompileError,
>
    decreases es,
{
    if es.len() == 0 {
        Ok((fns, next))
    } else {
        match scan_spec(es[0], fns, next) {
            Ok((f1, n1)) => scan_list(es.drop_first(), f1, n1),
            Err(er) => Err(er),
        }
    }
}

/// What compiling a whole tree yields: the pre-scan's labels, then the
/// instructions of the single lowering pass from one fresh root scope.
pub open spec fn compile_spec(e: Expr, neg_one: String) -> Result<Seq<Instruction>, CompileError> {
    match scan_spec(e, Seq::empty(), 0) {
        Err(er) => Err(er),
        Ok((fns, next)) => {
            let m0 = LowerModel {
                scopes: seq![empty_frame()],
                functions: fns,
                instructions: Seq::empty(),
                next,
                neg_one,
            };
            match lower_spec(e, m0) {
                Ok(m) => Ok(m.instructions),
                Err(er) => Err(er),
            }
        },
    }
}


/// The lowering compiler: a stack of scopes, the pre-scanned function
/// labels, the program being emitted, and the identifier mint.
#[derive(Debug)]
pub struct Compiler {
    pub scope: ScopeId,
    pub scopes: Vec<Scope>,
    pub functions: Vec<(String, Label)>,
    pub instructions: Vec<Instruction>,
    pub next: u128,
    pub neg_one: String,
}

impl Compiler {
    /// The compiler's state as a model value.
    pub open spec fn model(&self) -> LowerModel {
        LowerModel {
            scopes: self.scopes@.map_values(|s: Scope| s.model()),
            functions: self.functions@,
            instructions: self.instructions@,
            next: self.next as int,
            neg_one: self.neg_one,
        }
    }

    /// There is always a scope, and `scope` points at the innermost one.
    pub open spec fn inv(&self) -> bool {
        &&& self.scopes.len() >= 1
        &&& self.scope.0 == self.scopes.len() - 1
    }

    /// Append one instruction to the program.
    fn emit(&mut self, i: Instruction)
        requires
            old(self).inv(),
        ensures
            final(self).inv(),
            final(self).model() == push_instr(old(self).model(), i),
    {
        self.instructions.push(i);
    }

    /// Enter a fresh child scope.
    fn enter(&mut self)
        requires
            old(self).inv(),
        ensures
            final(self).inv(),
            final(self).model() == enter_scope(old(self).model()),
    {
        let parent = self.scope;
        self.scopes.push(Scope { vars: Vec::new(), params: Vec::new(), parent: Some(parent) });
        self.scope = ScopeId(self.scopes.len() - 1);
        proof {
            let f = |s: Scope| s.model();
            assert(self.scopes@.map_values(f) =~= old(self).scopes@.map_values(f).push(
                self.scopes@.last().model(),
            ));
            assert(self.scopes@.last().model().vars =~= Seq::<(String, Local)>::empty());
            assert(self.scopes@.last().model().params =~= Seq::<(String, Local)>::empty());
            assert(final(self).model() == enter_scope(old(self).model()));
        }
    }

    /// Leave the innermost scope, discarding its bindings.
    fn exit(&mut self)
        requires
            old(self).inv(),
        ensures
            final(self).inv(),
            final(self).model() == exit_scope(old(self).model()),
    {
        if self.scopes.len() > 1 {
            self.scopes.pop();
            self.scope = ScopeId(self.scopes.len() - 1);
            proof {
                let f = |s: Scope| s.model();
                assert(self.scopes@.map_values(f) =~= old(self).scopes@.map_values(f).drop_last());
                assert(final(self).model() == exit_scope(old(self).model()));
            }
        }
    }

    /// Resolve a name to the local of the nearest enclosing binding in the
    /// variable namespace; parameters are never consulted.
    pub fn get_var_id(&self, name: &String) -> (r: Option<Local>)
        requires
            self.inv(),
        ensures
            r == chain_lookup(self.model().scopes, name@, true),
    {
        let ghost ms = self.model().scopes;
        let mut i: usize = self.scopes.len();
        proof {
            assert(ms.take(i as int) =~= ms);
        }
        loop
            invariant
                self.inv(),
                0 <= i <= self.scopes.len(),
                ms == self.model().scopes,
                chain_lookup(ms, name@, true) == chain_lookup(ms.take(i as int), name@, true),
            ensures
                chain_lookup(ms, name@, true) is None,
            decreases i,
        {
            if i == 0 {
                proof {
                    assert(ms.take(0) =~= Seq::<ScopeModel>::empty());
                }
                break ;
            }
            i = i - 1;
            let hit = lookup_binding(&self.scopes[i].vars, name);
            proof {
                let t = ms.take(i + 1);
                assert(t.last() == ms[i as int]);
                assert(t.drop_last() =~= ms.take(i as int));
            }
            match hit {
                Some(l) => {
                    return Some(l);
                },
                None => {
                },
            }
        }
        None
    }

    /// Resolve a name in the parameter namespace; variables are never
    /// consulted.
    pub fn get_param_id(&self, name: &String) -> (r: Option<Local>)
        requires
            self.inv(),
        ensures
            r == chain_lookup(self.model().scopes, name@, false),
    {
        let ghost ms = self.model().scopes;
        let mut i: usize = self.scopes.len();
        proof {
            assert(ms.take(i as int) =~= ms);
        }
        loop
            invariant
                self.inv(),
                0 <= i <= self.scopes.len(),
                ms == self.model().scopes,
                chain_lookup(ms, name@, false) == chain_lookup(ms.take(i as int), name@, false),
            ensures
                chain_lookup(ms, name@, false) is None,
            decreases i,
        {
            if i == 0 {
                proof {
                    assert(ms.take(0) =~= Seq::<ScopeModel>::empty());
                }
                break ;
            }
            i = i - 1;
            let hit = lookup_binding(&self.scopes[i].params, name);
            proof {
                let t = ms.take(i + 1);
                assert(t.last() == ms[i as int]);
                assert(t.drop_last() =~= ms.take(i as int));
            }
            match hit {
                Some(l) => {
                    return Some(l);
                },
                None => {
                },
            }
        }
        None
    }

    /// Mint a fresh local for `name` in the innermost scope's variable
    /// namespace.
    fn push_var(&mut self, name: &String) -> (r: Result<Local, CompileError>)
        requires
            old(self).inv(),
            old(self).next < u128::MAX,
        ensures
            final(self).inv(),
            r matches Ok(l) && (final(self).model(), l) == mint_var(old(self).model(), *name),
    {
        let l = Local(Uuid::new(self.next));
        self.next = self.next + 1;
        let mut top = match self.scopes.pop() {
            Some(top) => top,
            None => Scope::new(),  // unreachable: there is always a scope
        };
        top.vars.push((name.clone(), l));
        self.scopes.push(top);
        proof {
            let f = |s: Scope| s.model();
            let n = old(self).scopes@.len() - 1;
            assert(self.scopes@.map_values(f) =~= old(self).scopes@.map_values(f).update(
                n,
                self.scopes@.last().model(),
            ));
            assert(self.scopes@.last().model().vars =~= old(self).scopes@.map_values(
                f,
            ).last().vars.push((*name, l)));
            assert((final(self).model(), l) == mint_var(old(self).model(), *name));
        }
        Ok(l)
    }

    /// Mint a fresh local for `name` in the innermost scope's parameter
    /// namespace.
    fn push_param(&mut self, name: &String) -> (r: Result<Local, CompileError>)
        requires
            old(self).inv(),
            old(self).next < u128::MAX,
        ensures
            final(self).inv(),
            r matches Ok(l) && (final(self).model(), l) == mint_param(old(self).model(), *name),
    {
        let l = Local(Uuid::new(self.next));
        self.next = self.next + 1;
        let mut top = match self.scopes.pop() {
            Some(top) => top,
            None => Scope::new(),  // unreachable: there is always a scope
        };
        top.params.push((name.clone(), l));
        self.scopes.push(top);
        proof {
            let f = |s: Scope| s.model();
            let n = old(self).scopes@.len() - 1;
            assert(self.scopes@.map_values(f) =~= old(self).scopes@.map_values(f).update(
                n,
                self.scopes@.last().model(),
            ));
            assert(self.scopes@.last().model().params =~= old(self).scopes@.map_values(
                f,
            ).last().params.push((*name, l)));
            assert((final(self).model(), l) == mint_param(old(self).model(), *name));
        }
        Ok(l)
    }

    /// The instruction a binary operator lowers to.
    fn op_code(op: BinaryOperator) -> (r: Instruction)
        ensures
            r == op_instr(op),
    {
        match op {
            BinaryOperator::Add => Instruction::Add,
            BinaryOperator::Sub => Instruction::Sub,
            BinaryOperator::Mul => Instruction::Mul,
            BinaryOperator::Div => Instruction::Div,
            BinaryOperator::Mod => Instruction::Mod,
            BinaryOperator::Pow => Instruction::Pow,
            BinaryOperator::BOr => Instruction::BOr,
            BinaryOperator::BAnd => Instruction::BAnd,
            BinaryOperator::LShift => Instruction::LShift,
            BinaryOperator::RShift => Instruction::RShift,
            BinaryOperator::Eq => Instruction::Eq,
            BinaryOperator::NEq => Instruction::NEq,
            BinaryOperator::Lt => Instruction::Lt,
            BinaryOperator::LtEq => Instruction::LtEq,
            BinaryOperator::Gt => Instruction::Gt,
            BinaryOperator::GtEq => Instruction::GtEq,
        }
    }


    /// Lower one function definition.
    fn lower_fn(&mut self, f: &Function) -> (r: Result<(), CompileError>)
        requires
            old(self).inv(),
        ensures
            final(self).inv(),
            match r {
                Ok(_) => lower_fn_spec(*f, old(self).model()) == Ok::<LowerModel, CompileError>(
                    final(self).model(),
                ),
                Err(er) => lower_fn_spec(*f, old(self).model()) == Err::<
                    LowerModel,
                    CompileError,
                >(er),
            },
        decreases *f,
    {
        if self.next == u128::MAX {
            return Err(CompileError::OutOfIdentifiers);
        }
        let end = Label(Uuid::new(self.next));
        self.next = self.next + 1;
        proof {
            assert(self.model() == (LowerModel { next: old(self).model().next + 1, ..old(self).model() }));
        }
        self.enter();
        let ghost m1 = self.model();
        let lbl = match lookup_label(&self.functions, &f.name) {
            None => {
                return Err(CompileError::MissingFunction(f.name.clone()));
            },
            Some(lbl) => lbl,
        };
        self.emit(Instruction::Jmp(end));
        self.emit(Instruction::Label(lbl));
        let ghost m2 = self.model();
        let base = self.scopes[self.scope.0].params.len();
        proof {
            assert(self.model().scopes.last() == self.scopes@.last().model());
            assert(base == m2.scopes.last().params.len());
            assert(f.params@.skip(0) =~= f.params@);
        }
        let mut j: usize = 0;
        loop
            invariant
                self.inv(),
                old(self).inv(),
                old(self).next < u128::MAX,
                end == Label(Uuid(old(self).next)),
                m1 == enter_scope(
                    LowerModel { next: old(self).model().next + 1, ..old(self).model() },
                ),
                fn_label(m1.functions, f.name@) == Some(lbl),
                m2 == push_instr(
                    push_instr(m1, Instruction::Jmp(end)),
                    Instruction::Label(lbl),
                ),
                0 <= j <= f.params.len(),
                base == m2.scopes.last().params.len(),
                bind_params(f.params@, m2) == bind_params(
                    f.params@.skip(j as int),
                    self.model(),
                ),
                self.model().scopes.len() == m2.scopes.len(),
                self.model().scopes.last().params.len() == base + j,
                base + j == self.scopes@.last().params@.len(),
                self.model().functions == m2.functions,
                self.model().instructions == m2.instructions,
                self.model().neg_one == m2.neg_one,
            ensures
                bind_params(f.params@, m2) == Ok::<LowerModel, CompileError>(self.model()),
                self.model().scopes.last().params.len() == base + f.params.len(),
                base + f.params.len() == self.scopes@.last().params@.len(),
            decreases f.params.len() - j,
        {
            if j == f.params.len() {
                proof {
                    assert(f.params@.skip(j as int) =~= Seq::<String>::empty());
                }
                break ;
            }
            let name = &f.params[j];
            let dup = lookup_binding(&self.scopes[self.scope.0].params, name);
            proof {
                assert(self.model().scopes.last() == self.scopes@.last().model());
                assert(f.params@.skip(j as int)[0] == f.params@[j as int]);
            }
            if dup.is_some() {
                return Err(CompileError::DuplicateParameter(name.clone()));
            }
            if self.next == u128::MAX {
                return Err(CompileError::OutOfIdentifiers);
            }
            match self.push_param(name) {
                Ok(_) => {},
                Err(er) => {
                    return Err(er);
                },
            }
            j = j + 1;
            proof {
                assert(f.params@.skip(j - 1).drop_first() =~= f.params@.skip(j as int));
            }
        }
        let ghost m3 = self.model();
        let ghost fresh = m3.scopes.last().params.skip(base as int);
        let count = self.scopes[self.scope.0].params.len() - base;
        let mut k: usize = count;
        proof {
            assert(fresh.take(k as int) =~= fresh);
        }
        loop
            invariant
                self.inv(),
                old(self).inv(),
                old(self).next < u128::MAX,
                end == Label(Uuid(old(self).next)),
                m1 == enter_scope(
                    LowerModel { next: old(self).model().next + 1, ..old(self).model() },
                ),
                fn_label(m1.functions, f.name@) == Some(lbl),
                m2 == push_instr(
                    push_instr(m1, Instruction::Jmp(end)),
                    Instruction::Label(lbl),
                ),
                base == m2.scopes.last().params.len(),
                bind_params(f.params@, m2) == Ok::<LowerModel, CompileError>(m3),
                0 <= k <= count,
                base + count == m3.scopes.last().params.len(),
                base + count == self.scopes@.last().params@.len(),
                fresh == m3.scopes.last().params.skip(base as int),
                self.scopes@.len() == m3.scopes.len(),
                self.model().scopes == m3.scopes,
                store_params(fresh, m3) == store_params(fresh.take(k as int), self.model()),
            ensures
                store_params(fresh, m3) == self.model(),
            decreases k,
        {
            if k == 0 {
                proof {
                    assert(fresh.take(0) =~= Seq::<(String, Local)>::empty());
                }
                break ;
            }
            k = k - 1;
            proof {
                assert(self.model().scopes.last() == self.scopes@.last().model());
                assert(base + k < self.scopes@.last().params@.len());
            }
            let binding = self.scopes[self.scope.0].params[base + k].1;
            proof {
                let t = fresh.take(k + 1);
                assert(t.last() == fresh[k as int]);
                assert(fresh[k as int] == m3.scopes.last().params[base + k]);
                assert(t.drop_last() =~= fresh.take(k as int));
            }
            self.emit(Instruction::StLoc(binding));
        }
        match self.lower(&f.body) {
            Err(er) => {
                return Err(er);
            },
            Ok(_) => {},
        }
        self.emit(Instruction::Ret);
        self.emit(Instruction::Label(end));
        self.exit();
        Ok(())
    }

    /// Lower one node, appending its instructions to the program.  The
    /// whole effect, faults included, is the one `lower_spec` gives.
    #[verifier::rlimit(100)]
    pub fn lower(&mut self, e: &Expr) -> (r: Result<(), CompileError>)
        requires
            old(self).inv(),
        ensures
            final(self).inv(),
            match r {
                Ok(_) => lower_spec(*e, old(self).model()) == Ok::<LowerModel, CompileError>(
                    final(self).model(),
                ),
                Err(er) => lower_spec(*e, old(self).model()) == Err::<LowerModel, CompileError>(
                    er,
                ),
            },
        decreases *e,
    {
        match e {
            Expr::Noop(_) => {
                proof {
                    assert(lower_spec(*e, old(self).model()) == Ok::<LowerModel, CompileError>(
                        self.model(),
                    ));
                }
                Ok(())
            },
            Expr::String(s) => {
                self.emit(Instruction::LdStr(s.0.clone()));
                proof {
                    assert(lower_spec(*e, old(self).model()) == Ok::<LowerModel, CompileError>(
                        self.model(),
                    ));
                }
                Ok(())
            },
            Expr::Number(n) => {
                self.emit(Instruction::LdNum(n.0.clone()));
                proof {
                    assert(lower_spec(*e, old(self).model()) == Ok::<LowerModel, CompileError>(
                        self.model(),
                    ));
                }
                Ok(())
            },
            Expr::RefVar(v) => match self.get_var_id(&v.0) {
                Some(l) => {
                    self.emit(Instruction::LdLoc(l));
                proof {
                    assert(lower_spec(*e, old(self).model()) == Ok::<LowerModel, CompileError>(
                        self.model(),
                    ));
                }
                    Ok(())
                },
                None => Err(CompileError::UndefinedVariable(v.0.clone())),
            },
            Expr::RefParam(p) => match self.get_param_id(&p.0) {
                Some(l) => {
                    self.emit(Instruction::LdLoc(l));
                proof {
                    assert(lower_spec(*e, old(self).model()) == Ok::<LowerModel, CompileError>(
                        self.model(),
                    ));
                }
                    Ok(())
                },
                None => Err(CompileError::UndefinedParameter(p.0.clone())),
            },
            Expr::Assign(a) => match self.get_var_id(&a.ident) {
                None => Err(CompileError::UndefinedVariable(a.ident.clone())),
                Some(l) => match self.lower(&a.expr) {
                    Err(er) => Err(er),
                    Ok(_) => {
                        self.emit(Instruction::StLoc(l));
                proof {
                    assert(lower_spec(*e, old(self).model()) == Ok::<LowerModel, CompileError>(
                        self.model(),
                    ));
                }
                        Ok(())
                    },
                },
            },
            Expr::Define(d) => {
                let dup = lookup_binding(&self.scopes[self.scope.0].vars, &d.ident);
                proof {
                    assert(self.model().scopes.last() == self.scopes@.last().model());
                }
                if dup.is_some() {
                    Err(CompileError::DuplicateVariable(d.ident.clone()))
                } else if self.next == u128::MAX {
                    Err(CompileError::OutOfIdentifiers)
                } else {
                    let l = match self.push_var(&d.ident) {
                        Ok(l) => l,
                        Err(er) => {
                            return Err(er);
                        },
                    };
                    match self.lower(&d.expr) {
                        Err(er) => Err(er),
                        Ok(_) => {
                            self.emit(Instruction::StLoc(l));
                proof {
                    assert(lower_spec(*e, old(self).model()) == Ok::<LowerModel, CompileError>(
                        self.model(),
                    ));
                }
                            Ok(())
                        },
                    }
                }
            },
            Expr::UnaryOp(u) => match u.op {
                UnaryOperator::Neg => match self.lower(&u.expr) {
                    Err(er) => Err(er),
                    Ok(_) => {
                        let spelled = self.neg_one.clone();
                        self.emit(Instruction::LdNum(spelled));
                        self.emit(Instruction::Mul);
                proof {
                    assert(lower_spec(*e, old(self).model()) == Ok::<LowerModel, CompileError>(
                        self.model(),
                    ));
                }
                        Ok(())
                    },
                },
                UnaryOperator::BNot => match self.lower(&u.expr) {
                    Err(er) => Err(er),
                    Ok(_) => {
                        self.emit(Instruction::BNot);
                proof {
                    assert(lower_spec(*e, old(self).model()) == Ok::<LowerModel, CompileError>(
                        self.model(),
                    ));
                }
                        Ok(())
                    },
                },
                _ => Err(CompileError::UnsupportedUnary),
            },
            Expr::BinaryOp(b) => match self.lower(&b.rhs) {
                Err(er) => Err(er),
                Ok(_) => match self.lower(&b.lhs) {
                    Err(er) => Err(er),
                    Ok(_) => {
                        self.emit(Self::op_code(b.op));
                proof {
                    assert(lower_spec(*e, old(self).model()) == Ok::<LowerModel, CompileError>(
                        self.model(),
                    ));
                }
                        Ok(())
                    },
                },
            },
            Expr::If(i) => {
                if self.next >= u128::MAX - 1 {
                    return Err(CompileError::OutOfIdentifiers);
                }
                let end = Label(Uuid::new(self.next));
                let body = Label(Uuid::new(self.next + 1));
                self.next = self.next + 2;
                let cond_done = match &i.condition {
                    Expr::BinaryOp(b) => {
                        let eqlt: Option<bool> = match b.op {
                            BinaryOperator::Eq => Some(true),
                            BinaryOperator::Lt => Some(false),
                            _ => None,
                        };
                        match eqlt {
                            Some(is_eq) => match self.lower(&b.rhs) {
                                Err(er) => Err(er),
                                Ok(_) => match self.lower(&b.lhs) {
                                    Err(er) => Err(er),
                                    Ok(_) => {
                                        if is_eq {
                                            self.emit(Instruction::JmpEq(body));
                                        } else {
                                            self.emit(Instruction::JmpLt(body));
                                        }
                                        Ok(())
                                    },
                                },
                            },
                            None => match self.lower(&i.condition) {
                                Err(er) => Err(er),
                                Ok(_) => {
                                    self.emit(Instruction::LdTrue);
                                    self.emit(Instruction::JmpEq(body));
                                    Ok(())
                                },
                            },
                        }
                    },
                    _ => match self.lower(&i.condition) {
                        Err(er) => Err(er),
                        Ok(_) => {
                            self.emit(Instruction::LdTrue);
                            self.emit(Instruction::JmpEq(body));
                            Ok(())
                        },
                    },
                };
                let ghost m0g = LowerModel {
                    next: old(self).model().next + 2,
                    ..old(self).model()
                };
                match cond_done {
                    Err(er) => {
                        proof {
                            assert(lower_if_cond_spec(i.condition, m0g, body) == Err::<
                                LowerModel,
                                CompileError,
                            >(er));
                            assert(lower_spec(*e, old(self).model()) == Err::<
                                LowerModel,
                                CompileError,
                            >(er));
                        }
                        Err(er)
                    },
                    Ok(_) => {
                        let ghost m1g = self.model();
                        proof {
                            assert(lower_if_cond_spec(i.condition, m0g, body) == Ok::<
                                LowerModel,
                                CompileError,
                            >(m1g));
                        }
                        match &i.fallthrough {
                            Some(ft) => {
                                self.enter();
                                match self.lower(ft) {
                                    Err(er) => {
                                        proof {
                                            assert(lower_if_ft_spec(i.fallthrough, m1g, end)
                                                == Err::<LowerModel, CompileError>(er));
                                            assert(lower_spec(*e, old(self).model()) == Err::<
                                                LowerModel,
                                                CompileError,
                                            >(er));
                                        }
                                        return Err(er);
                                    },
                                    Ok(_) => {},
                                }
                                self.exit();
                                self.emit(Instruction::Jmp(end));
                            },
                            None => {},
                        }
                        let ghost m2g = self.model();
                        proof {
                            assert(lower_if_ft_spec(i.fallthrough, m1g, end) == Ok::<
                                LowerModel,
                                CompileError,
                            >(m2g));
                        }
                        self.emit(Instruction::Label(body));
                        self.enter();
                        let ghost m3g = self.model();
                        match self.lower(&i.body) {
                            Err(er) => {
                                proof {
                                    assert(m3g == enter_scope(
                                        push_instr(m2g, Instruction::Label(body)),
                                    ));
                                    assert(lower_spec(*e, old(self).model()) == Err::<
                                        LowerModel,
                                        CompileError,
                                    >(er));
                                }
                                return Err(er);
                            },
                            Ok(_) => {},
                        }
                        let ghost m4g = self.model();
                        self.exit();
                        self.emit(Instruction::Label(end));
                        proof {
                            assert(m3g == enter_scope(push_instr(m2g, Instruction::Label(body))));
                            assert(lower_spec(i.body, m3g) == Ok::<LowerModel, CompileError>(m4g));
                            assert(self.model() == push_instr(
                                exit_scope(m4g),
                                Instruction::Label(end),
                            ));
                            assert(lower_spec(*e, old(self).model()) == Ok::<
                                LowerModel,
                                CompileError,
                            >(self.model()));
                        }
                        Ok(())
                    },
                }
            },
            Expr::Function(f) => {
                let r = self.lower_fn(f);
                proof {
                    if r is Ok {
                        assert(lower_spec(*e, old(self).model()) == Ok::<
                            LowerModel,
                            CompileError,
                        >(self.model()));
                    }
                }
                r
            },
            Expr::Call(c) => {
                match &c.args {
                    Some(a) => match self.lower(a) {
                        Err(er) => {
                            return Err(er);
                        },
                        Ok(_) => {},
                    },
                    None => {},
                }
                match lookup_label(&self.functions, &c.name) {
                    Some(lbl) => {
                        self.emit(Instruction::Call(lbl));
                proof {
                    assert(lower_spec(*e, old(self).model()) == Ok::<LowerModel, CompileError>(
                        self.model(),
                    ));
                }
                        Ok(())
                    },
                    None => {
                        self.emit(Instruction::CallF(c.name.clone()));
                proof {
                    assert(lower_spec(*e, old(self).model()) == Ok::<LowerModel, CompileError>(
                        self.model(),
                    ));
                }
                        Ok(())
                    },
                }
            },
            Expr::Compound(c) => {
                let ghost m0 = self.model();
                let mut i: usize = 0;
                proof {
                    assert(c.0@.skip(0) =~= c.0@);
                }
                loop
                    invariant
                        *e == Expr::Compound(*c),
                        self.inv(),
                        m0 == old(self).model(),
                        0 <= i <= c.0.len(),
                        lower_list(c.0@, m0) == lower_list(c.0@.skip(i as int), self.model()),
                    ensures
                        lower_list(c.0@, m0) == Ok::<LowerModel, CompileError>(self.model()),
                    decreases c.0.len() - i,
                {
                    if i == c.0.len() {
                        proof {
                            assert(c.0@.skip(i as int) =~= Seq::<Expr>::empty());
                        }
                        break ;
                    }
                    proof {
                        assert(c.0@.skip(i as int)[0] == c.0@[i as int]);
                        assert(decreases_to!(*e => (**c)));
                        assert(decreases_to!((**c) => (**c).0@[i as int]));
                        assert((**c).0@[i as int] == c.0@[i as int]);
                    }
                    match self.lower(&c.0[i]) {
                        Err(er) => {
                            return Err(er);
                        },
                        Ok(_) => {},
                    }
                    i = i + 1;
                    proof {
                        assert(c.0@.skip(i - 1).drop_first() =~= c.0@.skip(i as int));
                    }
                }
                proof {
                    assert(lower_spec(*e, old(self).model()) == Ok::<LowerModel, CompileError>(
                        self.model(),
                    ));
                }
                Ok(())
            },
        }
    }
}

/// Walk the whole tree and assign every function definition a fresh label,
/// so that forward references and recursion resolve during lowering.  The
/// later of two definitions of one name wins.
pub fn get_fns(e: &Expr, fns: &mut Vec<(String, Label)>, next: &mut u128) -> (r: Result<
    (),
    CompileError,
>)
    ensures
        match r {
            Ok(_) => scan_spec(*e, old(fns)@, *old(next) as int) == Ok::<
                (Seq<(String, Label)>, int),
                CompileError,
            >((final(fns)@, *final(next) as int)),
            Err(er) => scan_spec(*e, old(fns)@, *old(next) as int) == Err::<
                (Seq<(String, Label)>, int),
                CompileError,
            >(er),
        },
    decreases *e,
{
    match e {
        Expr::Noop(_) => Ok(()),
        Expr::String(_) => Ok(()),
        Expr::Number(_) => Ok(()),
        Expr::RefVar(_) => Ok(()),
        Expr::RefParam(_) => Ok(()),
        Expr::Assign(a) => get_fns(&a.expr, fns, next),
        Expr::Define(d) => get_fns(&d.expr, fns, next),
        Expr::UnaryOp(u) => get_fns(&u.expr, fns, next),
        Expr::BinaryOp(b) => match get_fns(&b.lhs, fns, next) {
            Ok(_) => get_fns(&b.rhs, fns, next),
            Err(er) => Err(er),
        },
        Expr::If(i) => match get_fns(&i.condition, fns, next) {
            Err(er) => Err(er),
            Ok(_) => match get_fns(&i.body, fns, next) {
                Err(er) => Err(er),
                Ok(_) => match &i.fallthrough {
                    Some(ft) => get_fns(ft, fns, next),
                    None => Ok(()),
                },
            },
        },
        Expr::Call(c) => match &c.args {
            Some(a) => get_fns(a, fns, next),
            None => Ok(()),
        },
        Expr::Function(f) => {
            if *next == u128::MAX {
                Err(CompileError::OutOfIdentifiers)
            } else {
                fns.push((f.name.clone(), Label(Uuid::new(*next))));
                *next = *next + 1;
                get_fns(&f.body, fns, next)
            }
        },
        Expr::Compound(c) => {
            let ghost f0 = fns@;
            let ghost n0 = *next as int;
            let mut i: usize = 0;
            proof {
                assert(c.0@.skip(0) =~= c.0@);
            }
            loop
                invariant
                    *e == Expr::Compound(*c),
                    f0 == old(fns)@,
                    n0 == *old(next) as int,
                    0 <= i <= c.0.len(),
                    scan_list(c.0@, f0, n0) == scan_list(
                        c.0@.skip(i as int),
                        fns@,
                        *next as int,
                    ),
                ensures
                    scan_list(c.0@, f0, n0) == Ok::<(Seq<(String, Label)>, int), CompileError>(
                        (fns@, *next as int),
                    ),
                decreases c.0.len() - i,
            {
                if i == c.0.len() {
                    proof {
                        assert(c.0@.skip(i as int) =~= Seq::<Expr>::empty());
                    }
                    break ;
                }
                proof {
                    assert(c.0@.skip(i as int)[0] == c.0@[i as int]);
                    assert(decreases_to!(*e => (**c)));
                    assert(decreases_to!((**c) => (**c).0@[i as int]));
                    assert((**c).0@[i as int] == c.0@[i as int]);
                }
                match get_fns(&c.0[i], fns, next) {
                    Err(er) => {
                        return Err(er);
                    },
                    Ok(_) => {},
                }
                i = i + 1;
                proof {
                    assert(c.0@.skip(i - 1).drop_first() =~= c.0@.skip(i as int));
                }
            }
            Ok(())
        },
    }
}

/// Whether `r` is what compiling `e` must yield: equal to `compile_spec`
/// at some spelling of negative one.
pub open spec fn compiled_to(e: Expr, r: Result<Vec<Instruction>, CompileError>) -> bool {
    exists|neg: String|
        neg@ == seq!['-', '1'] && #[trigger] compile_spec(e, neg) == (match r {
            Ok(p) => Ok::<Seq<Instruction>, CompileError>(p@),
            Err(er) => Err(er),
        })
}

/// Lower a whole tree into a flat program: pre-scan the function labels,
/// then lower every node in one pass from a single fresh root scope.
pub fn compile(expr: &Expr) -> (r: Result<Vec<Instruction>, CompileError>)
    ensures
        compiled_to(*expr, r),
{
    let neg_one = negative_one_spelling();
    let mut fns: Vec<(String, Label)> = Vec::new();
    let mut next: u128 = 0;
    proof {
        assert(fns@ =~= Seq::<(String, Label)>::empty());
    }
    match get_fns(expr, &mut fns, &mut next) {
        Err(er) => {
            proof {
                assert(compile_spec(*expr, neg_one) == Err::<Seq<Instruction>, CompileError>(er));
            }
            Err(er)
        },
        Ok(_) => {
            let mut compiler = Compiler {
                scope: ScopeId(0),
                scopes: Vec::new(),
                functions: fns,
                instructions: Vec::new(),
                next,
                neg_one,
            };
            compiler.scopes.push(Scope::new());
            let ghost neg = compiler.neg_one;
            let ghost m0 = compiler.model();
            proof {
                assert(compiler.model().scopes =~= seq![empty_frame()]);
                assert(compiler.model().instructions =~= Seq::<Instruction>::empty());
            }
            match compiler.lower(expr) {
                Err(er) => {
                    proof {
                        assert(compile_spec(*expr, neg) == Err::<
                            Seq<Instruction>,
                            CompileError,
                        >(er));
                    }
                    Err(er)
                },
                Ok(_) => {
                    proof {
                        assert(compile_spec(*expr, neg) == Ok::<Seq<Instruction>, CompileError>(
                            compiler.model().instructions,
                        ));
                    }
                    Ok(compiler.instructions)
                },
            }
        },
    }
}

/// The spelling of negative one, as the negation sugar loads it.
fn negative_one_spelling() -> (r: String)
    ensures
        r@ == seq!['-', '1'],
{
    let mut v: Vec<char> = Vec::new();
    v.push('-');
    v.push('1');
    proof {
        assert(v@ =~= seq!['-', '1']);
    }
    crate::unicode::chars_to_string(&v)
}

/// The label a function name was assigned, newest assignment first.
pub fn lookup_label(fns: &Vec<(String, Label)>, name: &String) -> (r: Option<Label>)
    ensures
        r == fn_label(fns@, name@),
{
    let mut i: usize = fns.len();
    proof {
        assert(fns@.take(i as int) =~= fns@);
    }
    loop
        invariant
            0 <= i <= fns.len(),
            fn_label(fns@, name@) == fn_label(fns@.take(i as int), name@),
        ensures
            fn_label(fns@, name@) is None,
        decreases i,
    {
        if i == 0 {
            proof {
                assert(fns@.take(0) =~= Seq::<(String, Label)>::empty());
            }
            break ;
        }
        i = i - 1;
        let hit = fns[i].0 == *name;
        proof {
            let t = fns@.take(i + 1);
            assert(t.last() == fns@[i as int]);
            assert(t.drop_last() =~= fns@.take(i as int));
        }
        if hit {
            return Some(fns[i].1);
        }
    }
    None
}

} // verus!
