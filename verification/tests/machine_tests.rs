use chalc::ast::expr::{
    Assign, BinaryOp, BinaryOperator, Call, Compound, Define, Expr, Function, If, NumberLit,
    RefParam, RefVar, StringLit, UnaryOp, UnaryOperator,
};
use chalc::hir::compile;
use chalc::hir::error::CompileError;
use std::collections::HashSet;
use chalc::hir::scope::Local;
use chalc::ir::instr::{Instruction, Label};
use chalc::util::uuid::Uuid;
use chalc::vm::error::VmError;
use chalc::vm::stack::Stack;
use chalc::vm::types::{ArithOp, CmpKind, Effect, Value};
use chalc::vm::VirtualMachine;

fn num(s: &str) -> Expr {
    Expr::Number(NumberLit(s.to_string()))
}

fn text(s: &str) -> Expr {
    Expr::String(StringLit(s.to_string()))
}

fn var(s: &str) -> Expr {
    Expr::RefVar(RefVar(s.to_string()))
}

fn def(name: &str, e: Expr) -> Expr {
    Expr::Define(Box::new(Define {
        ident: name.to_string(),
        expr: e,
    }))
}

fn binop(op: BinaryOperator, lhs: Expr, rhs: Expr) -> Expr {
    Expr::BinaryOp(Box::new(BinaryOp { lhs, op, rhs }))
}

fn compound(es: Vec<Expr>) -> Expr {
    Expr::Compound(Box::new(Compound(es)))
}

/// Run a machine to completion, computing every number request with `f64`
/// arithmetic and running builtins through `builtin`.
fn drive<F: FnMut(&mut VirtualMachine, &str)>(vm: &mut VirtualMachine, mut builtin: F) {
    let mut queued: Option<Effect> = None;
    loop {
        let e = match queued.take() {
            Some(e) => e,
            None => vm.run(1_000_000).unwrap(),
        };
        match e {
            Effect::Done => break,
            Effect::Paused => {}
            Effect::NumDecode { spelling } => {
                let bits = spelling.parse::<f64>().unwrap().to_bits();
                vm.resume_number(bits).unwrap();
            }
            Effect::NumBinary { op, lhs, rhs } => {
                let a = f64::from_bits(lhs);
                let b = f64::from_bits(rhs);
                let r = match op {
                    ArithOp::Add => a + b,
                    ArithOp::Sub => a - b,
                    ArithOp::Mul => a * b,
                    ArithOp::Div => a / b,
                    ArithOp::Mod => a % b,
                    ArithOp::Pow => a.powf(b),
                };
                vm.resume_number(r.to_bits()).unwrap();
            }
            Effect::NumCompare { op, lhs, rhs } => {
                let a = f64::from_bits(lhs);
                let b = f64::from_bits(rhs);
                let t = match op {
                    CmpKind::Eq => a == b,
                    CmpKind::NEq => a != b,
                    CmpKind::Lt => a < b,
                    CmpKind::Gt => a > b,
                    CmpKind::LtEq => a <= b,
                    CmpKind::GtEq => a >= b,
                };
                vm.resume_flag(t).unwrap();
            }
            Effect::NumTruncate { lhs, rhs } => {
                let a = f64::from_bits(lhs) as u64;
                let b = f64::from_bits(rhs) as u64;
                queued = Some(vm.resume_ints(a, b));
            }
            Effect::NumTruncate32 { value } => {
                let a = f64::from_bits(value) as u32 as u64;
                queued = Some(vm.resume_int(a));
            }
            Effect::NumWiden { value } => {
                vm.resume_number((value as f64).to_bits()).unwrap();
            }
            Effect::Builtin { name } => {
                builtin(vm, &name);
                vm.resume_ran();
            }
        }
    }
}

fn no_builtins(_vm: &mut VirtualMachine, name: &str) {
    panic!("no builtin registered under `{}`", name);
}

/// Compile an expression, run it, and hand back the machine.
fn compile_and_run(e: Expr) -> VirtualMachine {
    let program = compile(&e).unwrap();
    let mut vm = VirtualMachine::new(program);
    drive(&mut vm, no_builtins);
    vm
}

fn local_of(vm: &VirtualMachine, l: Local) -> Value {
    for i in 0..vm.locals.len() {
        if vm.locals[i].0 == l {
            return vm.locals[i].1.clone();
        }
    }
    Value::Null
}

#[test]
fn test_arithmetic_leaves_sum_on_stack() {
    let mut vm = compile_and_run(binop(BinaryOperator::Add, num("2"), num("3")));
    assert_eq!(vm.host_pop().unwrap(), Value::Number(5f64.to_bits()));
}

#[test]
fn test_subtraction_keeps_operand_order() {
    let mut vm = compile_and_run(binop(BinaryOperator::Sub, num("5"), num("3")));
    assert_eq!(vm.host_pop().unwrap(), Value::Number(2f64.to_bits()));
}

#[test]
fn test_division_keeps_operand_order() {
    let mut vm = compile_and_run(binop(BinaryOperator::Div, num("8"), num("2")));
    assert_eq!(vm.host_pop().unwrap(), Value::Number(4f64.to_bits()));
}

#[test]
fn test_define_then_reference_round_trip() {
    let mut vm = compile_and_run(compound(vec![def("x", num("5")), var("x")]));
    assert_eq!(vm.host_pop().unwrap(), Value::Number(5f64.to_bits()));
}

#[test]
fn test_branch_definition_shadows_without_leaking() {
    // Defining `x` inside the branch must not change the outer `x` after
    // the branch completes.
    let program = compound(vec![
        def("x", num("5")),
        Expr::If(Box::new(If {
            condition: binop(BinaryOperator::Eq, num("1"), num("1")),
            body: def("x", num("9")),
            fallthrough: None,
        })),
        var("x"),
    ]);
    let mut vm = compile_and_run(program);
    assert_eq!(vm.host_pop().unwrap(), Value::Number(5f64.to_bits()));
}

#[test]
fn test_equality_condition_compiles_to_direct_jump() {
    let program = compound(vec![
        def("a", num("1")),
        Expr::If(Box::new(If {
            condition: binop(BinaryOperator::Eq, var("a"), num("1")),
            body: text("one"),
            fallthrough: Some(text("other")),
        })),
    ]);
    let instrs = compile(&program).unwrap();
    let mut saw_jmp_eq = false;
    for i in 0..instrs.len() {
        match &instrs[i] {
            Instruction::JmpEq(_) => saw_jmp_eq = true,
            Instruction::LdTrue => panic!("the comparison materialized a boolean"),
            _ => {}
        }
    }
    assert!(saw_jmp_eq);

    let mut vm = VirtualMachine::new(instrs);
    drive(&mut vm, no_builtins);
    let top = vm.host_pop().unwrap();
    match top {
        Value::Str(h) => assert_eq!(vm.read_string(h).unwrap(), "one"),
        other => panic!("expected a string on top, got {:?}", other),
    }
}

#[test]
fn test_bitwise_or_truncates_fractions() {
    let mut vm = compile_and_run(binop(BinaryOperator::BOr, num("5.7"), num("2.3")));
    assert_eq!(vm.host_pop().unwrap(), Value::Number(7f64.to_bits()));
}

#[test]
fn test_builtin_mutation_is_seen_through_aliases() {
    // `t` is defined from `s`, so both hold the same buffer; a builtin that
    // appends through `s` must be visible through `t`.
    let program = compound(vec![
        def("s", text("hi")),
        def("t", var("s")),
        Expr::Call(Box::new(Call {
            name: "bang".to_string(),
            args: Some(var("s")),
        })),
        var("t"),
    ]);
    let instrs = compile(&program).unwrap();
    let mut vm = VirtualMachine::new(instrs).builtin("bang".to_string());
    drive(&mut vm, |vm, name| {
        assert_eq!(name, "bang");
        match vm.host_pop().unwrap() {
            Value::Str(h) => vm.string_append(h, "!").unwrap(),
            other => panic!("expected a string argument, got {:?}", other),
        }
    });
    match vm.host_pop().unwrap() {
        Value::Str(h) => assert_eq!(vm.read_string(h).unwrap(), "hi!"),
        other => panic!("expected a string on top, got {:?}", other),
    }
}

#[test]
fn test_fresh_runs_give_identical_output() {
    let make = || {
        compound(vec![
            def("x", num("2")),
            Expr::Assign(Box::new(Assign {
                ident: "x".to_string(),
                expr: binop(BinaryOperator::Mul, var("x"), num("21")),
            })),
            var("x"),
        ])
    };
    let mut first = compile_and_run(make());
    let mut second = compile_and_run(make());
    let a = first.host_pop().unwrap();
    let b = second.host_pop().unwrap();
    assert_eq!(a, Value::Number(42f64.to_bits()));
    assert_eq!(a, b);
}

#[test]
fn test_pop_on_empty_stack_is_a_fault() {
    let mut stack = Stack::new(4);
    assert!(matches!(stack.pop(), Err(VmError::StackUnderflow)));
}

#[test]
fn test_push_at_capacity_is_a_fault() {
    let mut stack = Stack::new(2);
    stack.push(Value::Null).unwrap();
    stack.push(Value::Null).unwrap();
    assert!(matches!(
        stack.push(Value::Null),
        Err(VmError::StackOverflow)
    ));
}

#[test]
fn test_call_and_return_support_recursion() {
    // (fun countdown (n) (if (< 0 n) (countdown (- n 1)) n)) (countdown 5)
    let program = compound(vec![
        Expr::Function(Box::new(Function {
            name: "countdown".to_string(),
            params: vec!["n".to_string()],
            body: Expr::If(Box::new(If {
                condition: binop(BinaryOperator::Lt, num("0"), Expr::RefParam(RefParam("n".to_string()))),
                body: Expr::Call(Box::new(Call {
                    name: "countdown".to_string(),
                    args: Some(binop(
                        BinaryOperator::Sub,
                        Expr::RefParam(RefParam("n".to_string())),
                        num("1"),
                    )),
                })),
                fallthrough: Some(Expr::RefParam(RefParam("n".to_string()))),
            })),
        })),
        Expr::Call(Box::new(Call {
            name: "countdown".to_string(),
            args: Some(num("5")),
        })),
    ]);
    let mut vm = compile_and_run(program);
    assert_eq!(vm.host_pop().unwrap(), Value::Number(0f64.to_bits()));
}

#[test]
fn test_nop() {
    let mut vm = VirtualMachine::new(vec![Instruction::Nop]);
    drive(&mut vm, no_builtins);
    assert_eq!(vm.pc, 1);
}

#[test]
fn test_ld_null() {
    let mut vm = VirtualMachine::new(vec![Instruction::LdNull]);
    drive(&mut vm, no_builtins);
    assert_eq!(vm.pc, 1);
    assert_eq!(vm.host_pop().unwrap(), Value::Null);
}

#[test]
fn test_ld_true() {
    let mut vm = VirtualMachine::new(vec![Instruction::LdTrue]);
    drive(&mut vm, no_builtins);
    assert_eq!(vm.pc, 1);
    assert_eq!(vm.host_pop().unwrap(), Value::Bool(true));
}

#[test]
fn test_ld_false() {
    let mut vm = VirtualMachine::new(vec![Instruction::LdFalse]);
    drive(&mut vm, no_builtins);
    assert_eq!(vm.pc, 1);
    assert_eq!(vm.host_pop().unwrap(), Value::Bool(false));
}

#[test]
fn test_ld_str() {
    let mut vm = VirtualMachine::new(vec![Instruction::LdStr("test".to_string())]);
    drive(&mut vm, no_builtins);
    assert_eq!(vm.pc, 1);
    match vm.host_pop().unwrap() {
        Value::Str(h) => assert_eq!(vm.read_string(h).unwrap(), "test"),
        other => panic!("expected a string, got {:?}", other),
    }
}

#[test]
fn test_ld_f64() {
    let mut vm = VirtualMachine::new(vec![Instruction::LdNum("1337.69".to_string())]);
    drive(&mut vm, no_builtins);
    assert_eq!(vm.pc, 1);
    assert_eq!(vm.host_pop().unwrap(), Value::Number(1337.69f64.to_bits()));
}

#[test]
fn test_ld_addr() {
    let mut vm = VirtualMachine::new(vec![Instruction::LdAddr(0xdeadbeaf)]);
    drive(&mut vm, no_builtins);
    assert_eq!(vm.pc, 1);
    assert_eq!(vm.host_pop().unwrap(), Value::Addr(0xdeadbeaf));
}

#[test]
fn test_ld_import() {
    let mut vm = VirtualMachine::new(vec![Instruction::LdImport("printf".to_string())])
        .builtin("printf".to_string());
    drive(&mut vm, no_builtins);
    assert_eq!(vm.pc, 1);
    assert!(matches!(vm.host_pop().unwrap(), Value::BuiltIn(_)));
}

#[test]
fn test_ld_loc() {
    let slot = Local(Uuid::new(0));
    let mut vm = VirtualMachine::new(vec![
        Instruction::LdNum("69.420".to_string()),
        Instruction::StLoc(slot),
        Instruction::LdLoc(slot),
    ]);
    drive(&mut vm, no_builtins);
    assert_eq!(vm.pc, 3);
    assert_eq!(vm.host_pop().unwrap(), Value::Number(69.420f64.to_bits()));
}

#[test]
fn test_stloc() {
    let slot = Local(Uuid::new(0));
    let mut vm = VirtualMachine::new(vec![
        Instruction::LdNum("69.420".to_string()),
        Instruction::StLoc(slot),
    ]);
    drive(&mut vm, no_builtins);
    assert_eq!(vm.pc, 2);
    assert_eq!(local_of(&vm, slot), Value::Number(69.420f64.to_bits()));
    assert!(vm.stack.is_empty());
}

/// A jump scaffold: the comparison jumps to `taken` when it holds, else
/// falls through to `missed`; the outcome lands in the local.
fn jump_program(a: &str, b: &str, make: fn(Label) -> Instruction) -> Vec<Instruction> {
    let slot = Local(Uuid::new(0));
    let taken = Label(Uuid::new(1));
    let out = Label(Uuid::new(2));
    vec![
        Instruction::LdNum(a.to_string()),
        Instruction::LdNum(b.to_string()),
        make(taken),
        Instruction::LdFalse,
        Instruction::StLoc(slot),
        Instruction::Jmp(out),
        Instruction::Label(taken),
        Instruction::LdTrue,
        Instruction::StLoc(slot),
        Instruction::Label(out),
    ]
}

fn jump_outcome(a: &str, b: &str, make: fn(Label) -> Instruction) -> Value {
    let mut vm = VirtualMachine::new(jump_program(a, b, make));
    drive(&mut vm, no_builtins);
    local_of(&vm, Local(Uuid::new(0)))
}

#[test]
fn test_jmp_eq() {
    assert_eq!(
        jump_outcome("69.420", "69.420", Instruction::JmpEq),
        Value::Bool(true)
    );
    assert_eq!(
        jump_outcome("420.60", "69.420", Instruction::JmpEq),
        Value::Bool(false)
    );
}

#[test]
fn test_jmp_neq() {
    assert_eq!(
        jump_outcome("420.69", "69.420", Instruction::JmpNEq),
        Value::Bool(true)
    );
    assert_eq!(
        jump_outcome("69.420", "69.420", Instruction::JmpNEq),
        Value::Bool(false)
    );
}

#[test]
fn test_jmp_lt() {
    // the second load ends up on top, and is the left operand
    assert_eq!(
        jump_outcome("420.69", "69.420", Instruction::JmpLt),
        Value::Bool(true)
    );
    assert_eq!(
        jump_outcome("69.420", "420.69", Instruction::JmpLt),
        Value::Bool(false)
    );
}

#[test]
fn test_jmp_gt() {
    assert_eq!(
        jump_outcome("69.420", "420.69", Instruction::JmpGt),
        Value::Bool(true)
    );
    assert_eq!(
        jump_outcome("420.69", "69.420", Instruction::JmpGt),
        Value::Bool(false)
    );
}

#[test]
fn test_jmp_lt_eq() {
    assert_eq!(
        jump_outcome("420.69", "69.420", Instruction::JmpLtEq),
        Value::Bool(true)
    );
    assert_eq!(
        jump_outcome("420.69", "420.69", Instruction::JmpLtEq),
        Value::Bool(true)
    );
    assert_eq!(
        jump_outcome("69.420", "420.69", Instruction::JmpLtEq),
        Value::Bool(false)
    );
}

#[test]
fn test_jmp_gt_eq() {
    assert_eq!(
        jump_outcome("69.420", "420.69", Instruction::JmpGtEq),
        Value::Bool(true)
    );
    assert_eq!(
        jump_outcome("420.69", "420.69", Instruction::JmpGtEq),
        Value::Bool(true)
    );
    assert_eq!(
        jump_outcome("420.69", "69.420", Instruction::JmpGtEq),
        Value::Bool(false)
    );
}

#[test]
fn test_unknown_builtin_is_a_fault() {
    let mut vm = VirtualMachine::new(vec![Instruction::CallF("missing".to_string())]);
    assert!(matches!(
        vm.run(1_000).unwrap_err(),
        VmError::UnknownBuiltin(_)
    ));
}

#[test]
fn test_jump_to_unknown_label_is_a_fault() {
    let mut vm = VirtualMachine::new(vec![Instruction::Jmp(Label(Uuid::new(7)))]);
    assert!(matches!(vm.run(1_000).unwrap_err(), VmError::UnknownLabel(_)));
}

#[test]
fn test_arithmetic_on_non_number_is_a_fault() {
    let mut vm = VirtualMachine::new(vec![
        Instruction::LdTrue,
        Instruction::LdNull,
        Instruction::Add,
    ]);
    assert!(matches!(vm.run(1_000).unwrap_err(), VmError::TypeMismatch));
}

#[test]
fn test_undefined_variable_is_a_compile_fault() {
    assert!(matches!(
        compile(&var("ghost_name")),
        Err(CompileError::UndefinedVariable(_))
    ));
}

#[test]
fn test_duplicate_definition_is_a_compile_fault() {
    assert!(matches!(
        compile(&compound(vec![def("x", num("1")), def("x", num("2"))])),
        Err(CompileError::DuplicateVariable(_))
    ));
}

#[test]
fn test_increment_form_is_a_compile_fault() {
    let e = Expr::UnaryOp(Box::new(UnaryOp {
        op: UnaryOperator::AddInc,
        expr: num("1"),
    }));
    assert!(matches!(compile(&e), Err(CompileError::UnsupportedUnary)));
}

#[test]
fn test_negation_multiplies_by_negative_one() {
    let e = Expr::UnaryOp(Box::new(UnaryOp {
        op: UnaryOperator::Neg,
        expr: num("4"),
    }));
    let mut vm = compile_and_run(e);
    assert_eq!(vm.host_pop().unwrap(), Value::Number((-4f64).to_bits()));
}

#[test]
fn test_bitwise_not_inverts_thirty_two_bits() {
    let e = Expr::UnaryOp(Box::new(UnaryOp {
        op: UnaryOperator::BNot,
        expr: num("0"),
    }));
    let mut vm = compile_and_run(e);
    assert_eq!(
        vm.host_pop().unwrap(),
        Value::Number((u32::MAX as f64).to_bits())
    );
}

#[test]
fn test_compile() {
    // the countdown program again, compiled only
    let program = compound(vec![
        Expr::Function(Box::new(Function {
            name: "countdown".to_string(),
            params: vec!["n".to_string()],
            body: Expr::RefParam(RefParam("n".to_string())),
        })),
        Expr::Call(Box::new(Call {
            name: "countdown".to_string(),
            args: Some(num("5")),
        })),
    ]);
    let instrs = compile(&program).unwrap();
    assert!(instrs.len() > 0);
    println!("{:?}", instrs);
}

#[test]
fn test_unique() {
    let mut ids = HashSet::<u128>::new();
    let count = 10_000;
    for value in 0..count {
        ids.insert(Uuid::new(value as u128).0);
    }
    assert_eq!(ids.len(), count);
}

#[test]
fn test_undefined_parameter_is_a_compile_fault() {
    assert!(matches!(
        compile(&Expr::RefParam(RefParam("ghost_param".to_string()))),
        Err(CompileError::UndefinedParameter(_))
    ));
}

#[test]
fn test_duplicate_parameter_is_a_compile_fault() {
    let e = Expr::Function(Box::new(Function {
        name: "twice".to_string(),
        params: vec!["a".to_string(), "a".to_string()],
        body: num("1"),
    }));
    assert!(matches!(compile(&e), Err(CompileError::DuplicateParameter(_))));
}

#[test]
fn test_return_without_call_is_a_fault() {
    let mut vm = VirtualMachine::new(vec![Instruction::Ret]);
    assert!(matches!(
        vm.run(1_000).unwrap_err(),
        VmError::ReturnWithoutCall
    ));
}

#[test]
fn test_stale_string_handle_is_refused() {
    let mut vm = VirtualMachine::new(vec![]);
    assert!(matches!(
        vm.host_push(Value::Str(99)),
        Err(VmError::BadStringHandle)
    ));
    assert!(matches!(vm.read_string(0), Err(VmError::BadStringHandle)));
}

#[test]
fn test_comparison_of_mismatched_kinds_is_false() {
    // order tests between non-numbers settle to false rather than faulting
    let mut vm = VirtualMachine::new(vec![
        Instruction::LdNull,
        Instruction::LdTrue,
        Instruction::Lt,
    ]);
    drive(&mut vm, no_builtins);
    assert_eq!(vm.host_pop().unwrap(), Value::Bool(false));
}

#[test]
fn test_string_equality_compares_contents() {
    let mut vm = VirtualMachine::new(vec![
        Instruction::LdStr("same".to_string()),
        Instruction::LdStr("same".to_string()),
        Instruction::Eq,
    ]);
    drive(&mut vm, no_builtins);
    assert_eq!(vm.host_pop().unwrap(), Value::Bool(true));
}

#[test]
fn test_zero_budget_pauses_without_stepping() {
    let mut vm = VirtualMachine::new(vec![Instruction::LdTrue]);
    assert!(matches!(vm.run(0).unwrap(), Effect::Paused));
    // nothing ran: the counter still points at the first instruction
    assert_eq!(vm.pc, 0);
    assert!(vm.stack.is_empty());
    // a further run with budget continues and finishes the program
    assert!(matches!(vm.run(10).unwrap(), Effect::Done));
    assert_eq!(vm.host_pop().unwrap(), Value::Bool(true));
}

#[test]
fn test_exhausted_budget_pauses_and_resumes() {
    let mut vm = VirtualMachine::new(vec![
        Instruction::LdTrue,
        Instruction::LdFalse,
        Instruction::Nop,
        Instruction::LdNull,
    ]);
    // two steps, then a pause with exactly two instructions done
    assert!(matches!(vm.run(2).unwrap(), Effect::Paused));
    assert_eq!(vm.pc, 2);
    assert!(matches!(vm.run(100).unwrap(), Effect::Done));
    assert_eq!(vm.host_pop().unwrap(), Value::Null);
    assert_eq!(vm.host_pop().unwrap(), Value::Bool(false));
    assert_eq!(vm.host_pop().unwrap(), Value::Bool(true));
}
