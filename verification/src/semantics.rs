//! Guarantees that tie the compiler and the machine together.
//!
//! Each proof function here states one promise of the system as a whole and
//! is proved from the contracts of the compiler and the machine.

use crate::ast::expr::{BinaryOperator, Expr};
use crate::hir::scope::{bound_in, Local, ScopeModel};
use crate::hir::{
    bind_params, chain_lookup, compile_spec, enter_scope, exit_scope, fn_label, id_limit,
    lower_fn_spec, lower_if_cond_spec, lower_if_ft_spec, lower_list, lower_spec, mint_param,
    mint_var, op_instr, push_instr, scan_spec, store_params, LowerModel,
};
use crate::ast::expr::Function;
use crate::ir::instr::{Instruction, Label};
use crate::util::uuid::Uuid;
use crate::vm::types::{ArithOp, Effect, Pending, Value};
use crate::vm::{
    after_silent, arith, initial_model, runs_to, step_spec, SpecStep, VirtualMachine, VmModel,
};
use vstd::prelude::*;

verus! {

/// A name resolves to the binding of the nearest enclosing scope that
/// defines it: when the innermost scope binds the name, that binding wins
/// over every outer one.
pub proof fn lemma_nearest_binding_wins(
    outer: Seq<ScopeModel>,
    inner: ScopeModel,
    name: Seq<char>,
)
    requires
        bound_in(inner.vars, name) is Some,
    ensures
        chain_lookup(outer.push(inner), name, true) == bound_in(inner.vars, name),
{
    assert(outer.push(inner).last() == inner);
}

/// A definition made inside a child scope is gone once the scope is left:
/// entering a scope, defining a name there, and leaving restores every
/// resolution to what it was outside.
pub proof fn lemma_branch_binding_discarded(m: LowerModel, name: String, other: Seq<char>)
    requires
        m.scopes.len() >= 1,
    ensures
        exit_scope(mint_var(enter_scope(m), name).0).scopes == m.scopes,
        chain_lookup(exit_scope(mint_var(enter_scope(m), name).0).scopes, other, true)
            == chain_lookup(m.scopes, other, true),
{
    let entered = enter_scope(m);
    let defined = mint_var(entered, name).0;
    assert(defined.scopes.len() == m.scopes.len() + 1);
    assert(exit_scope(defined).scopes =~= m.scopes);
}

/// Every local the compiler has bound, in any scope and either namespace,
/// carries a token below the mint's next value.
pub open spec fn tokens_below(m: LowerModel) -> bool {
    &&& forall|i: int, j: int|
        0 <= i < m.scopes.len() && 0 <= j < m.scopes[i].vars.len() ==> (
        #[trigger] m.scopes[i].vars[j]).1.0.0 < m.next
    &&& forall|i: int, j: int|
        0 <= i < m.scopes.len() && 0 <= j < m.scopes[i].params.len() ==> (
        #[trigger] m.scopes[i].params[j]).1.0.0 < m.next
}

/// A token fresh from the mint differs from every local already bound, in
/// every scope and either namespace: minting never collides with an
/// existing binding, and the bound-token invariant survives the mint.
pub proof fn lemma_minted_local_fresh(m: LowerModel, name: String)
    requires
        tokens_below(m),
        m.scopes.len() >= 1,
        0 <= m.next < id_limit(),
    ensures
        tokens_below(mint_var(m, name).0),
        tokens_below(mint_param(m, name).0),
        forall|i: int, j: int|
            0 <= i < m.scopes.len() && 0 <= j < m.scopes[i].vars.len() ==> (
            #[trigger] m.scopes[i].vars[j]).1 != mint_var(m, name).1,
        forall|i: int, j: int|
            0 <= i < m.scopes.len() && 0 <= j < m.scopes[i].params.len() ==> (
            #[trigger] m.scopes[i].params[j]).1 != mint_var(m, name).1,
        mint_var(m, name).1 == mint_param(m, name).1,
{
    let l = mint_var(m, name).1;
    assert(l.0.0 == m.next);
    let mv = mint_var(m, name).0;
    let mp = mint_param(m, name).0;
    let top = m.scopes.len() - 1;
    assert forall|i: int, j: int|
        0 <= i < mv.scopes.len() && 0 <= j < mv.scopes[i].vars.len() implies (
    #[trigger] mv.scopes[i].vars[j]).1.0.0 < mv.next by {
        if i == top && j == mv.scopes[i].vars.len() - 1 {
            assert(mv.scopes[i].vars[j] == (name, l));
        } else {
            assert(mv.scopes[i].vars[j] == m.scopes[i].vars[j]);
        }
    }
    assert forall|i: int, j: int|
        0 <= i < mv.scopes.len() && 0 <= j < mv.scopes[i].params.len() implies (
    #[trigger] mv.scopes[i].params[j]).1.0.0 < mv.next by {
        assert(mv.scopes[i].params[j] == m.scopes[i].params[j]);
    }
    assert forall|i: int, j: int|
        0 <= i < mp.scopes.len() && 0 <= j < mp.scopes[i].params.len() implies (
    #[trigger] mp.scopes[i].params[j]).1.0.0 < mp.next by {
        if i == top && j == mp.scopes[i].params.len() - 1 {
            assert(mp.scopes[i].params[j] == (name, mint_param(m, name).1));
        } else {
            assert(mp.scopes[i].params[j] == m.scopes[i].params[j]);
        }
    }
    assert forall|i: int, j: int|
        0 <= i < mp.scopes.len() && 0 <= j < mp.scopes[i].vars.len() implies (
    #[trigger] mp.scopes[i].vars[j]).1.0.0 < mp.next by {
        assert(mp.scopes[i].vars[j] == m.scopes[i].vars[j]);
    }
}

/// Growing the mint alone cannot break the bound-token invariant.
proof fn lemma_tokens_below_mono(a: LowerModel, b: LowerModel)
    requires
        tokens_below(a),
        b.scopes == a.scopes,
        b.next >= a.next,
    ensures
        tokens_below(b),
{
}

/// Entering a child scope binds nothing new.
proof fn lemma_enter_keeps_tokens_below(m: LowerModel)
    requires
        tokens_below(m),
    ensures
        tokens_below(enter_scope(m)),
{
    let m2 = enter_scope(m);
    assert forall|i: int, j: int|
        0 <= i < m2.scopes.len() && 0 <= j < m2.scopes[i].vars.len() implies (
    #[trigger] m2.scopes[i].vars[j]).1.0.0 < m2.next by {
        assert(i < m.scopes.len());
        assert(m2.scopes[i] == m.scopes[i]);
    }
    assert forall|i: int, j: int|
        0 <= i < m2.scopes.len() && 0 <= j < m2.scopes[i].params.len() implies (
    #[trigger] m2.scopes[i].params[j]).1.0.0 < m2.next by {
        assert(i < m.scopes.len());
        assert(m2.scopes[i] == m.scopes[i]);
    }
}

/// Leaving a scope only forgets bindings.
proof fn lemma_exit_keeps_tokens_below(m: LowerModel)
    requires
        tokens_below(m),
        m.scopes.len() >= 1,
    ensures
        tokens_below(exit_scope(m)),
        exit_scope(m).scopes.len() >= 1,
        exit_scope(m).next == m.next,
{
    let m2 = exit_scope(m);
    assert forall|i: int, j: int|
        0 <= i < m2.scopes.len() && 0 <= j < m2.scopes[i].vars.len() implies (
    #[trigger] m2.scopes[i].vars[j]).1.0.0 < m2.next by {
        assert(m2.scopes[i] == m.scopes[i]);
    }
    assert forall|i: int, j: int|
        0 <= i < m2.scopes.len() && 0 <= j < m2.scopes[i].params.len() implies (
    #[trigger] m2.scopes[i].params[j]).1.0.0 < m2.next by {
        assert(m2.scopes[i] == m.scopes[i]);
    }
}

/// Emitting parameter stores touches no scope and mints nothing.
proof fn lemma_store_params_frame(bindings: Seq<(String, Local)>, m: LowerModel)
    ensures
        store_params(bindings, m).scopes == m.scopes,
        store_params(bindings, m).next == m.next,
    decreases bindings.len(),
{
    if bindings.len() > 0 {
        lemma_store_params_frame(
            bindings.drop_last(),
            push_instr(m, Instruction::StLoc(bindings.last().1)),
        );
    }
}

/// Binding parameters keeps every bound token below the mint.
proof fn lemma_bind_params_keeps_tokens_below(params: Seq<String>, m: LowerModel)
    requires
        tokens_below(m),
        m.scopes.len() >= 1,
        0 <= m.next,
    ensures
        match bind_params(params, m) {
            Ok(m2) => tokens_below(m2) && m2.next >= m.next && m2.scopes.len() >= 1 && 0
                <= m2.next,
            Err(_) => true,
        },
    decreases params.len(),
{
    if params.len() > 0 && !(bound_in(m.scopes.last().params, params[0]@) is Some) && m.next
        < id_limit() {
        lemma_minted_local_fresh(m, params[0]);
        lemma_bind_params_keeps_tokens_below(params.drop_first(), mint_param(m, params[0]).0);
    }
}

/// Lowering a function definition keeps every bound token below the mint.
proof fn lemma_fn_lowering_keeps_tokens_below(f: Function, m: LowerModel)
    requires
        tokens_below(m),
        m.scopes.len() >= 1,
        0 <= m.next,
    ensures
        match lower_fn_spec(f, m) {
            Ok(m2) => tokens_below(m2) && m2.next >= m.next && m2.scopes.len() >= 1 && 0
                <= m2.next,
            Err(_) => true,
        },
    decreases f,
{
    if m.next < id_limit() {
        let end = Label(Uuid(m.next as u128));
        let m1 = enter_scope(LowerModel { next: m.next + 1, ..m });
        lemma_tokens_below_mono(m, LowerModel { next: m.next + 1, ..m });
        lemma_enter_keeps_tokens_below(LowerModel { next: m.next + 1, ..m });
        match fn_label(m1.functions, f.name@) {
            None => {},
            Some(lbl) => {
                let m2 = push_instr(push_instr(m1, Instruction::Jmp(end)), Instruction::Label(lbl));
                lemma_bind_params_keeps_tokens_below(f.params@, m2);
                match bind_params(f.params@, m2) {
                    Err(_) => {},
                    Ok(m3) => {
                        let fresh = m3.scopes.last().params.skip(
                            m2.scopes.last().params.len() as int,
                        );
                        let m4 = store_params(fresh, m3);
                        lemma_store_params_frame(fresh, m3);
                        lemma_tokens_below_mono(m3, m4);
                        lemma_lowering_keeps_tokens_below(f.body, m4);
                        match lower_spec(f.body, m4) {
                            Err(_) => {},
                            Ok(m5) => {
                                lemma_exit_keeps_tokens_below(
                                    push_instr(
                                        push_instr(m5, Instruction::Ret),
                                        Instruction::Label(end),
                                    ),
                                );
                            },
                        }
                    },
                }
            },
        }
    }
}

/// Lowering a list of expressions keeps every bound token below the mint.
proof fn lemma_list_lowering_keeps_tokens_below(es: Seq<Expr>, m: LowerModel)
    requires
        tokens_below(m),
        m.scopes.len() >= 1,
        0 <= m.next,
    ensures
        match lower_list(es, m) {
            Ok(m2) => tokens_below(m2) && m2.next >= m.next && m2.scopes.len() >= 1 && 0
                <= m2.next,
            Err(_) => true,
        },
    decreases es,
{
    if es.len() > 0 {
        lemma_lowering_keeps_tokens_below(es[0], m);
        match lower_spec(es[0], m) {
            Ok(m1) => {
                lemma_list_lowering_keeps_tokens_below(es.drop_first(), m1);
            },
            Err(_) => {},
        }
    }
}

/// Lowering keeps every bound token below the mint, and the mint never
/// moves backwards: so the local a definition mints, at any point of one
/// lowering run, differs from every local bound before it, and a
/// branch-local definition can never capture an outer binding's store key.
#[verifier::rlimit(100)]
#[verifier::spinoff_prover]
pub proof fn lemma_lowering_keeps_tokens_below(e: Expr, m: LowerModel)
    requires
        tokens_below(m),
        m.scopes.len() >= 1,
        0 <= m.next,
    ensures
        match lower_spec(e, m) {
            Ok(m2) => tokens_below(m2) && m2.next >= m.next && m2.scopes.len() >= 1 && 0
                <= m2.next,
            Err(_) => true,
        },
    decreases e,
{
    match e {
        Expr::Noop(_) => {},
        Expr::String(_) => {},
        Expr::Number(_) => {},
        Expr::RefVar(_) => {},
        Expr::RefParam(_) => {},
        Expr::Assign(a) => {
            lemma_lowering_keeps_tokens_below(a.expr, m);
        },
        Expr::Define(d) => {
            if !(bound_in(m.scopes.last().vars, d.ident@) is Some) && m.next < id_limit() {
                lemma_minted_local_fresh(m, d.ident);
                lemma_lowering_keeps_tokens_below(d.expr, mint_var(m, d.ident).0);
            }
        },
        Expr::UnaryOp(u) => {
            lemma_lowering_keeps_tokens_below(u.expr, m);
        },
        Expr::BinaryOp(b) => {
            lemma_lowering_keeps_tokens_below(b.rhs, m);
            match lower_spec(b.rhs, m) {
                Ok(m1) => {
                    lemma_lowering_keeps_tokens_below(b.lhs, m1);
                },
                Err(_) => {},
            }
        },
        Expr::If(i) => {
            if m.next + 2 <= id_limit() {
                let end = Label(Uuid(m.next as u128));
                let body = Label(Uuid((m.next + 1) as u128));
                let m0 = LowerModel { next: m.next + 2, ..m };
                lemma_tokens_below_mono(m, m0);
                match i.condition {
                    Expr::BinaryOp(b) => {
                        if b.op == BinaryOperator::Eq || b.op == BinaryOperator::Lt {
                            lemma_lowering_keeps_tokens_below(b.rhs, m0);
                            match lower_spec(b.rhs, m0) {
                                Ok(mc1) => {
                                    lemma_lowering_keeps_tokens_below(b.lhs, mc1);
                                },
                                Err(_) => {},
                            }
                        } else {
                            lemma_lowering_keeps_tokens_below(Expr::BinaryOp(b), m0);
                        }
                    },
                    cond => {
                        lemma_lowering_keeps_tokens_below(cond, m0);
                    },
                }
                match lower_if_cond_spec(i.condition, m0, body) {
                    Err(_) => {},
                    Ok(m1) => {
                        match i.fallthrough {
                            Some(ft) => {
                                lemma_enter_keeps_tokens_below(m1);
                                lemma_lowering_keeps_tokens_below(ft, enter_scope(m1));
                                match lower_spec(ft, enter_scope(m1)) {
                                    Ok(mf) => {
                                        lemma_exit_keeps_tokens_below(mf);
                                    },
                                    Err(_) => {},
                                }
                            },
                            None => {},
                        }
                        match lower_if_ft_spec(i.fallthrough, m1, end) {
                            Err(_) => {},
                            Ok(m2) => {
                                let m3 = enter_scope(
                                    push_instr(m2, Instruction::Label(body)),
                                );
                                lemma_enter_keeps_tokens_below(
                                    push_instr(m2, Instruction::Label(body)),
                                );
                                lemma_lowering_keeps_tokens_below(i.body, m3);
                                match lower_spec(i.body, m3) {
                                    Err(_) => {},
                                    Ok(m4) => {
                                        lemma_exit_keeps_tokens_below(m4);
                                    },
                                }
                            },
                        }
                    },
                }
            }
        },
        Expr::Function(f) => {
            lemma_fn_lowering_keeps_tokens_below(*f, m);
        },
        Expr::Call(c) => {
            match c.args {
                Some(a) => {
                    lemma_lowering_keeps_tokens_below(a, m);
                },
                None => {},
            }
        },
        Expr::Compound(c) => {
            lemma_list_lowering_keeps_tokens_below(c.0@, m);
        },
    }
}

/// The arithmetic request a binary operator's instruction makes of the
/// host.
pub open spec fn arith_of(op: BinaryOperator) -> ArithOp {
    match op {
        BinaryOperator::Add => ArithOp::Add,
        BinaryOperator::Sub => ArithOp::Sub,
        BinaryOperator::Mul => ArithOp::Mul,
        BinaryOperator::Div => ArithOp::Div,
        BinaryOperator::Mod => ArithOp::Mod,
        _ => ArithOp::Pow,
    }
}

/// Whether a binary operator is arithmetic.
pub open spec fn is_arith_op(op: BinaryOperator) -> bool {
    match op {
        BinaryOperator::Add => true,
        BinaryOperator::Sub => true,
        BinaryOperator::Mul => true,
        BinaryOperator::Div => true,
        BinaryOperator::Mod => true,
        BinaryOperator::Pow => true,
        _ => false,
    }
}

/// Compiling an operator applied to two number literals emits the right
/// operand's load first and the left operand's load second, so that the
/// left operand ends up on top of the stack.
pub proof fn lemma_binary_literals_compile(e: Expr, neg: String)
    requires
        e matches Expr::BinaryOp(b) && b.lhs matches Expr::Number(_) && b.rhs matches Expr::Number(
            _,
        ),
    ensures
        compile_spec(e, neg) == Ok::<Seq<Instruction>, crate::hir::error::CompileError>(
            seq![
                Instruction::LdNum(e->BinaryOp_0.rhs->Number_0.0),
                Instruction::LdNum(e->BinaryOp_0.lhs->Number_0.0),
                op_instr(e->BinaryOp_0.op),
            ],
        ),
{
    let b = e->BinaryOp_0;
    assert(scan_spec(b.lhs, Seq::empty(), 0) == Ok::<
        (Seq<(String, crate::ir::instr::Label)>, int),
        crate::hir::error::CompileError,
    >((Seq::empty(), 0)));
    assert(scan_spec(b.rhs, Seq::empty(), 0) == Ok::<
        (Seq<(String, crate::ir::instr::Label)>, int),
        crate::hir::error::CompileError,
    >((Seq::empty(), 0)));
    assert(scan_spec(e, Seq::empty(), 0) == Ok::<
        (Seq<(String, crate::ir::instr::Label)>, int),
        crate::hir::error::CompileError,
    >((Seq::empty(), 0)));
    let m0 = LowerModel {
        scopes: seq![crate::hir::empty_frame()],
        functions: Seq::empty(),
        instructions: Seq::empty(),
        next: 0,
        neg_one: neg,
    };
    let m1 = lower_spec(b.rhs, m0)->Ok_0;
    let m2 = lower_spec(b.lhs, m1)->Ok_0;
    assert(m1.instructions =~= seq![Instruction::LdNum(b.rhs->Number_0.0)]);
    assert(m2.instructions =~= seq![
        Instruction::LdNum(b.rhs->Number_0.0),
        Instruction::LdNum(b.lhs->Number_0.0),
    ]);
    assert(lower_spec(e, m0)->Ok_0.instructions =~= seq![
        Instruction::LdNum(b.rhs->Number_0.0),
        Instruction::LdNum(b.lhs->Number_0.0),
        op_instr(b.op),
    ]);
}

/// Running the compiled form of an arithmetic operator over two number
/// literals asks the host to decode the right operand, then the left, and
/// then asks for `left op right` in that order: the first value popped is
/// the left operand.  Swapping the operands of a subtraction would swap the
/// request.
pub proof fn lemma_binary_operand_order(
    op: BinaryOperator,
    rhs_spelling: String,
    lhs_spelling: String,
    bs: Seq<String>,
    x: u64,
    y: u64,
)
    requires
        is_arith_op(op),
    ensures
        ({
            let prog = seq![
                Instruction::LdNum(rhs_spelling),
                Instruction::LdNum(lhs_spelling),
                op_instr(op),
            ];
            let m0 = initial_model(prog, bs);
            // decode the right operand first,
            &&& step_spec(m0) == Ok::<SpecStep, crate::vm::error::VmError>(
                SpecStep::Ask(
                    VmModel { pending: Some(Pending::PushNumber), ..m0 },
                    Effect::NumDecode { spelling: rhs_spelling },
                ),
            )
            // then, `y` pushed for it, decode the left operand,
            &&& step_spec(
                VmModel { pc: 1, stack: seq![Value::Number(y)], ..m0 },
            ) == Ok::<SpecStep, crate::vm::error::VmError>(
                SpecStep::Ask(
                    VmModel {
                        pc: 1,
                        stack: seq![Value::Number(y)],
                        pending: Some(Pending::PushNumber),
                        ..m0
                    },
                    Effect::NumDecode { spelling: lhs_spelling },
                ),
            )
            // then, `x` pushed on top, the arithmetic request binds the
            // first pop `x` to the left-hand side.
            &&& step_spec(
                VmModel { pc: 2, stack: seq![Value::Number(y), Value::Number(x)], ..m0 },
            ) == Ok::<SpecStep, crate::vm::error::VmError>(
                SpecStep::Ask(
                    VmModel { pc: 2, stack: Seq::empty(), pending: Some(Pending::PushNumber), ..m0 },
                    Effect::NumBinary { op: arith_of(op), lhs: x, rhs: y },
                ),
            )
        }),
{
    let prog = seq![
        Instruction::LdNum(rhs_spelling),
        Instruction::LdNum(lhs_spelling),
        op_instr(op),
    ];
    let m0 = initial_model(prog, bs);
    let ms = VmModel { pc: 2, stack: seq![Value::Number(y), Value::Number(x)], ..m0 };
    assert(ms.stack.last() == Value::Number(x));
    assert(ms.stack.drop_last().last() == Value::Number(y));
    assert(ms.stack.drop_last().drop_last() =~= Seq::<Value>::empty());
    assert(arith(ms, arith_of(op)) == step_spec(ms));
}

/// No quiet step leaves this machine: it has completed, is waiting on its
/// host, or is about to ask or fault.
pub open spec fn stopped(m: VmModel) -> bool {
    !(m.pc < m.script.len() && m.pending is None && (step_spec(m) matches Ok(
        SpecStep::Quiet(_),
    )))
}

/// A quiet run splits: the first `k` of `n` quiet steps land somewhere, and
/// the rest continue from there.
proof fn lemma_after_silent_split(m0: VmModel, k: nat, n: nat)
    requires
        k <= n,
        after_silent(m0, n) is Some,
    ensures
        after_silent(m0, k) is Some,
        after_silent(after_silent(m0, k)->Some_0, (n - k) as nat) == after_silent(m0, n),
    decreases k,
{
    if k > 0 {
        let mm = match step_spec(m0) {
            Ok(SpecStep::Quiet(mm)) => mm,
            _ => m0,
        };
        lemma_after_silent_split(mm, (k - 1) as nat, (n - 1) as nat);
    }
}

/// Quiet running stops at most once: two step counts that both reach a
/// stopped machine reach the same machine.
proof fn lemma_stop_unique(m0: VmModel, na: nat, nb: nat)
    requires
        na <= nb,
        after_silent(m0, na) matches Some(mma) && stopped(mma),
        after_silent(m0, nb) is Some,
    ensures
        after_silent(m0, na) == after_silent(m0, nb),
{
    if na < nb {
        lemma_after_silent_split(m0, na, nb);
        let mma = after_silent(m0, na)->Some_0;
        assert(after_silent(mma, (nb - na) as nat) == after_silent(m0, nb));
        assert(after_silent(mma, (nb - na) as nat) is None);
    }
}

/// The machine's outcome is determined: two runs from one state that each
/// end — at completion or at a request to the host — end in the same state
/// with the same request.  With `lemma_fresh_runs_agree`, two runs of one
/// compiled program, answered alike by the host, cannot diverge.
pub proof fn lemma_run_outcome_unique(
    m0: VmModel,
    ma: VmModel,
    ea: Effect,
    mb: VmModel,
    eb: Effect,
)
    requires
        runs_to(m0, ma, ea),
        runs_to(m0, mb, eb),
        !(ea is Paused),
        !(eb is Paused),
    ensures
        ea == eb,
        ma == mb,
{
    let na = choose|n: nat|
        match #[trigger] after_silent(m0, n) {
            Some(mm) => match ea {
                Effect::Done => ma == mm && mm.pc >= mm.script.len(),
                Effect::Paused => ma == mm,
                _ => mm.pc < mm.script.len() && mm.pending is None && step_spec(mm) == Ok::<
                    SpecStep,
                    crate::vm::error::VmError,
                >(SpecStep::Ask(ma, ea)),
            },
            None => false,
        };
    let nb = choose|n: nat|
        match #[trigger] after_silent(m0, n) {
            Some(mm) => match eb {
                Effect::Done => mb == mm && mm.pc >= mm.script.len(),
                Effect::Paused => mb == mm,
                _ => mm.pc < mm.script.len() && mm.pending is None && step_spec(mm) == Ok::<
                    SpecStep,
                    crate::vm::error::VmError,
                >(SpecStep::Ask(mb, eb)),
            },
            None => false,
        };
    let mma = after_silent(m0, na)->Some_0;
    let mmb = after_silent(m0, nb)->Some_0;
    assert(stopped(mma));
    assert(stopped(mmb));
    if na <= nb {
        lemma_stop_unique(m0, na, nb);
    } else {
        lemma_stop_unique(m0, nb, na);
    }
    assert(mma == mmb);
    if ea is Done {
        assert(mma.pc >= mma.script.len());
        assert(!(eb is Done) ==> mmb.pc < mmb.script.len());
        assert(eb is Done);
    } else {
        assert(mma.pc < mma.script.len());
        assert(!(eb is Done));
        assert(step_spec(mma) == Ok::<SpecStep, crate::vm::error::VmError>(
            SpecStep::Ask(ma, ea),
        ));
        assert(step_spec(mmb) == Ok::<SpecStep, crate::vm::error::VmError>(
            SpecStep::Ask(mb, eb),
        ));
    }
}

/// A machine freshly loaded with a program is a function of the program
/// alone, and stepping is a function of the machine's state: two runs of
/// one program, answered alike by the host, pass through the same states.
/// Nothing survives from one run into a freshly loaded machine.
pub proof fn lemma_fresh_runs_agree(a: VirtualMachine, b: VirtualMachine, n: nat)
    requires
        a.model() == initial_model(a.script@, Seq::<String>::empty()),
        b.model() == initial_model(b.script@, Seq::<String>::empty()),
        a.script@ == b.script@,
    ensures
        a.model() == b.model(),
        after_silent(a.model(), n) == after_silent(b.model(), n),
{
}

} // verus!
