use rune_compile::assemble::{Ctxt, Needs};
use rune_compile::ast::{
    Arm, BinOp, BindingKind, Block, Expr, ExprKind, FnDecl, Literal, Pat, PatKind, Span, Stmt,
};
use rune_compile::compile::compile_function;
use rune_compile::error::CompileError;
use rune_compile::inst::{InstKind, Operand};
use rune_compile::scopes::Var;

fn at(n: u32) -> Span {
    Span { start: n, end: n + 1 }
}

fn name(text: &str) -> String {
    String::from(text)
}

fn expr(kind: ExprKind, n: u32) -> Expr {
    Expr { kind, span: at(n) }
}

fn num(value: i64, n: u32) -> Expr {
    expr(ExprKind::Lit(Literal::Integer(value)), n)
}

fn boolean(value: bool, n: u32) -> Expr {
    expr(ExprKind::Lit(Literal::Bool(value)), n)
}

fn var(text: &str, n: u32) -> Expr {
    expr(ExprKind::Ident { name: name(text), binding: BindingKind::Local }, n)
}

fn binary(op: BinOp, lhs: Expr, rhs: Expr, n: u32) -> Expr {
    expr(ExprKind::Binary { op, lhs: Box::new(lhs), rhs: Box::new(rhs) }, n)
}

fn block(stmts: Vec<Stmt>, tail: Option<Expr>, n: u32) -> Block {
    Block { stmts, tail: tail.map(Box::new), span: at(n) }
}

fn block_expr(stmts: Vec<Stmt>, tail: Option<Expr>, n: u32) -> Expr {
    expr(ExprKind::Block(block(stmts, tail, n)), n)
}

fn bind(text: &str, init: Expr) -> Stmt {
    Stmt::Let { name: name(text), init }
}

fn brk(label: Option<&str>, value: Option<Expr>, n: u32) -> Expr {
    expr(ExprKind::Break { label: label.map(name), value: value.map(Box::new) }, n)
}

fn cont(label: Option<&str>, n: u32) -> Expr {
    expr(ExprKind::Continue { label: label.map(name) }, n)
}

fn pat(kind: PatKind, n: u32) -> Pat {
    Pat { kind, span: at(n) }
}

/// An assembler in which the given variables are declared, in slots 0, 1, ...
fn with_locals(names: &[&str]) -> Ctxt {
    let mut cx = Ctxt::new(Vec::new());
    for text in names {
        cx.push_value();
        cx.bind(name(text));
    }
    cx
}

fn kinds(cx: Ctxt) -> Vec<InstKind> {
    cx.finish(0).insts.iter().map(|inst| inst.kind).collect()
}

fn no_jump_waits(kinds: &[InstKind]) -> bool {
    kinds.iter().all(|kind| match kind {
        InstKind::Jump { target }
        | InstKind::JumpIfNot { target }
        | InstKind::JumpIfOrPop { target }
        | InstKind::JumpIfNotOrPop { target }
        | InstKind::PopAndJumpIfNot { target, .. }
        | InstKind::IterNext { target, .. } => match target {
            Some(to) => *to <= kinds.len(),
            None => false,
        },
        _ => true,
    })
}

#[test]
fn a_block_of_two_lets_and_a_sum() {
    // { let a = 1; let b = 2; a + b }
    let e = block_expr(
        vec![bind("a", num(1, 1)), bind("b", num(2, 2))],
        Some(binary(BinOp::Add, var("a", 3), var("b", 4), 5)),
        0,
    );
    let mut cx = Ctxt::new(Vec::new());
    assert_eq!(cx.expr(&e, Needs::Value), Ok(()));
    assert_eq!(cx.depth(), 1);
    assert_eq!(cx.resolve(&name("a")), None);
    assert_eq!(cx.resolve(&name("b")), None);
    // What is left is the sum, in the slot that `a` had: the slots of the block
    // were given back when its layer was closed.
    assert!(cx.is_live(0));
    assert!(!cx.is_live(1));
    assert!(!cx.is_live(2));
    let f = cx.finish(0);
    let got: Vec<InstKind> = f.insts.iter().map(|inst| inst.kind).collect();
    assert_eq!(
        got,
        vec![
            InstKind::Push { constant: 0 },
            InstKind::Push { constant: 1 },
            InstKind::Op { op: BinOp::Add, a: Operand::Slot(0), b: Operand::Slot(1) },
            InstKind::Clean { count: 2 },
        ]
    );
    assert_eq!(f.consts, vec![Literal::Integer(1), Literal::Integer(2)]);
    assert_eq!(f.frame, 3);
    assert_eq!(f.insts[2].span, at(5));
}

#[test]
fn the_slots_of_a_block_are_free_again_behind_it() {
    let e = block_expr(vec![bind("a", num(1, 1)), bind("b", num(2, 2))], None, 0);
    let mut cx = Ctxt::new(Vec::new());
    assert_eq!(cx.expr(&e, Needs::Nothing), Ok(()));
    assert_eq!(cx.depth(), 0);
    assert!(!cx.is_live(0));
    assert!(!cx.is_live(1));
    assert_eq!(cx.push_value(), 0);
    assert_eq!(cx.push_value(), 1);
    assert_eq!(
        kinds(cx),
        vec![
            InstKind::Push { constant: 0 },
            InstKind::Push { constant: 1 },
            InstKind::Pop { count: 2 },
        ]
    );
}

#[test]
fn while_true_break() {
    // while true { break }
    let e = expr(
        ExprKind::While {
            label: None,
            cond: Box::new(boolean(true, 1)),
            body: block(vec![], Some(brk(None, None, 2)), 3),
        },
        0,
    );
    let mut cx = Ctxt::new(Vec::new());
    assert_eq!(cx.expr(&e, Needs::Nothing), Ok(()));
    assert_eq!(cx.depth(), 0);
    assert_eq!(cx.loop_count(), 0);
    let got = kinds(cx);
    assert_eq!(
        got,
        vec![
            InstKind::Push { constant: 0 },
            InstKind::JumpIfNot { target: Some(4) },
            InstKind::Jump { target: Some(4) },
            InstKind::Jump { target: Some(0) },
        ]
    );
    assert!(no_jump_waits(&got));
}

#[test]
fn continue_in_a_for_loop_goes_to_the_next_item() {
    // for x in seq { if x == 2 { continue }; use(x) }
    let body = block(
        vec![Stmt::Semi(expr(
            ExprKind::If {
                cond: Box::new(binary(BinOp::Eq, var("x", 3), num(2, 4), 5)),
                then_branch: block(vec![], Some(cont(None, 6)), 7),
                else_branch: None,
            },
            8,
        ))],
        Some(expr(ExprKind::Call { function: 7, args: vec![var("x", 9)] }, 10)),
        11,
    );
    let decl = FnDecl {
        params: vec![name("seq")],
        captures: vec![],
        body: expr(
            ExprKind::For { label: None, var: name("x"), iter: Box::new(var("seq", 1)), body },
            2,
        ),
        span: at(0),
    };
    let f = compile_function(&decl).unwrap();
    let got: Vec<InstKind> = f.insts.iter().map(|inst| inst.kind).collect();
    assert_eq!(
        got,
        vec![
            InstKind::Copy { slot: 0 },
            InstKind::IterNext { slot: 1, target: Some(12) },
            InstKind::Push { constant: 0 },
            InstKind::Op { op: BinOp::Eq, a: Operand::Slot(2), b: Operand::Top },
            InstKind::JumpIfNot { target: Some(7) },
            InstKind::Pop { count: 1 },
            InstKind::Jump { target: Some(1) },
            InstKind::Copy { slot: 2 },
            InstKind::Call { function: 7, args: 1 },
            InstKind::Pop { count: 1 },
            InstKind::Pop { count: 1 },
            InstKind::Jump { target: Some(1) },
            InstKind::Pop { count: 1 },
            InstKind::Push { constant: 1 },
            InstKind::Return,
        ]
    );
    // The jump of `continue` is the one at 6: it goes to where the next item is
    // fetched, and not behind the loop.
    assert!(matches!(got[1], InstKind::IterNext { .. }));
    assert_eq!(got[6], InstKind::Jump { target: Some(1) });
    assert_ne!(got[6], InstKind::Jump { target: Some(12) });
    assert_eq!(f.consts, vec![Literal::Integer(2), Literal::Unit]);
    assert_eq!(f.params, 1);
    assert_eq!(f.frame, 4);
    assert!(no_jump_waits(&got));
}

#[test]
fn an_unknown_variable_stops_the_function() {
    // y + 1
    let decl = FnDecl {
        params: vec![],
        captures: vec![],
        body: binary(BinOp::Add, var("y", 4), num(1, 6), 5),
        span: at(0),
    };
    let got = compile_function(&decl);
    assert_eq!(
        got.map(|f| f.insts.len()),
        Err(CompileError::UnresolvedVariable { name: name("y"), span: at(4) })
    );
}

#[test]
fn a_labelled_break_unwinds_to_the_depth_of_its_loop() {
    // 'outer: while true { let a = 1; loop { let b = 2; break 'outer } }
    let inner = expr(
        ExprKind::Loop {
            label: None,
            body: block(vec![bind("b", num(2, 5))], Some(brk(Some("outer"), None, 6)), 7),
        },
        4,
    );
    let e = expr(
        ExprKind::While {
            label: Some(name("outer")),
            cond: Box::new(boolean(true, 1)),
            body: block(vec![bind("a", num(1, 2))], Some(inner), 3),
        },
        0,
    );
    let mut cx = Ctxt::new(Vec::new());
    assert_eq!(cx.expr(&e, Needs::Nothing), Ok(()));
    assert_eq!(cx.depth(), 0);
    let got = kinds(cx);
    assert_eq!(
        got,
        vec![
            InstKind::Push { constant: 0 },
            InstKind::JumpIfNot { target: Some(10) },
            InstKind::Push { constant: 1 },
            InstKind::Push { constant: 2 },
            // `a` and `b` go: the depth at the entry of 'outer is 0, that of the
            // inner loop is 1.
            InstKind::Pop { count: 2 },
            InstKind::Jump { target: Some(10) },
            InstKind::Pop { count: 1 },
            InstKind::Jump { target: Some(3) },
            InstKind::Pop { count: 1 },
            InstKind::Jump { target: Some(0) },
        ]
    );
    assert!(no_jump_waits(&got));
}

#[test]
fn an_unlabelled_break_unwinds_to_the_depth_of_the_innermost_loop() {
    // 'outer: while true { let a = 1; loop { let b = 2; break } }
    let inner = expr(
        ExprKind::Loop {
            label: None,
            body: block(vec![bind("b", num(2, 5))], Some(brk(None, None, 6)), 7),
        },
        4,
    );
    let e = expr(
        ExprKind::While {
            label: Some(name("outer")),
            cond: Box::new(boolean(true, 1)),
            body: block(vec![bind("a", num(1, 2))], Some(inner), 3),
        },
        0,
    );
    let mut cx = Ctxt::new(Vec::new());
    assert_eq!(cx.expr(&e, Needs::Nothing), Ok(()));
    let got = kinds(cx);
    assert_eq!(got[4], InstKind::Pop { count: 1 });
    assert_eq!(got[5], InstKind::Jump { target: Some(8) });
    assert_eq!(got[7], InstKind::Jump { target: Some(3) });
    assert!(no_jump_waits(&got));
}

#[test]
fn a_literal_is_pushed_only_if_it_is_needed() {
    let mut cx = Ctxt::new(Vec::new());
    assert_eq!(cx.expr(&num(7, 0), Needs::Nothing), Ok(()));
    assert_eq!(cx.depth(), 0);
    assert_eq!(cx.here(), 0);
    assert_eq!(cx.expr(&num(7, 0), Needs::Value), Ok(()));
    assert_eq!(cx.depth(), 1);
    assert_eq!(kinds(cx), vec![InstKind::Push { constant: 0 }]);
}

#[test]
fn a_variable_is_copied_only_if_it_is_needed() {
    let mut cx = with_locals(&["a", "b"]);
    assert_eq!(cx.expr(&var("b", 0), Needs::Nothing), Ok(()));
    assert_eq!(cx.here(), 0);
    assert_eq!(cx.expr(&var("b", 0), Needs::Value), Ok(()));
    assert_eq!(cx.depth(), 3);
    assert_eq!(kinds(cx), vec![InstKind::Copy { slot: 1 }]);
}

#[test]
fn a_variable_that_is_not_needed_must_still_be_known() {
    let mut cx = with_locals(&["a"]);
    assert_eq!(
        cx.expr(&var("zz", 9), Needs::Nothing),
        Err(CompileError::UnresolvedVariable { name: name("zz"), span: at(9) })
    );
}

#[test]
fn constants_and_functions_by_name() {
    let mut cx = Ctxt::new(Vec::new());
    let c = expr(
        ExprKind::Ident { name: name("LIMIT"), binding: BindingKind::Constant(Literal::Integer(64)) },
        1,
    );
    let f = expr(ExprKind::Ident { name: name("f"), binding: BindingKind::Function(12) }, 2);
    assert_eq!(cx.expr(&c, Needs::Value), Ok(()));
    assert_eq!(cx.expr(&f, Needs::Value), Ok(()));
    assert_eq!(cx.expr(&f, Needs::Nothing), Ok(()));
    assert_eq!(cx.depth(), 2);
    let out = cx.finish(0);
    assert_eq!(out.consts, vec![Literal::Integer(64)]);
    assert_eq!(out.insts[0].kind, InstKind::Push { constant: 0 });
    assert_eq!(out.insts[1].kind, InstKind::Function { function: 12 });
    assert_eq!(out.insts.len(), 2);
}

#[test]
fn equal_constants_share_one_place_in_the_pool() {
    // (1, 1, 2)
    let e = expr(ExprKind::Tuple(vec![num(1, 1), num(1, 2), num(2, 3)]), 0);
    let mut cx = Ctxt::new(Vec::new());
    assert_eq!(cx.expr(&e, Needs::Value), Ok(()));
    assert_eq!(cx.depth(), 1);
    let out = cx.finish(0);
    assert_eq!(out.consts, vec![Literal::Integer(1), Literal::Integer(2)]);
    let got: Vec<InstKind> = out.insts.iter().map(|inst| inst.kind).collect();
    assert_eq!(
        got,
        vec![
            InstKind::Push { constant: 0 },
            InstKind::Push { constant: 0 },
            InstKind::Push { constant: 1 },
            InstKind::Tuple { count: 3 },
        ]
    );
    assert_eq!(out.frame, 3);
}

#[test]
fn a_call_whose_result_is_dropped() {
    // f(1, x);
    let e = expr(ExprKind::Call { function: 5, args: vec![num(1, 1), var("x", 2)] }, 0);
    let mut cx = with_locals(&["x"]);
    assert_eq!(cx.expr(&e, Needs::Nothing), Ok(()));
    assert_eq!(cx.depth(), 1);
    assert_eq!(
        kinds(cx),
        vec![
            InstKind::Push { constant: 0 },
            InstKind::Copy { slot: 0 },
            InstKind::Call { function: 5, args: 2 },
            InstKind::Pop { count: 1 },
        ]
    );
}

#[test]
fn operands_on_the_stack_and_in_slots() {
    // (x + 1) * x
    let e = binary(
        BinOp::Mul,
        binary(BinOp::Add, var("x", 1), num(1, 2), 3),
        var("x", 4),
        5,
    );
    let mut cx = with_locals(&["x"]);
    assert_eq!(cx.expr(&e, Needs::Value), Ok(()));
    assert_eq!(cx.depth(), 2);
    assert_eq!(
        kinds(cx),
        vec![
            InstKind::Push { constant: 0 },
            InstKind::Op { op: BinOp::Add, a: Operand::Slot(0), b: Operand::Top },
            InstKind::Op { op: BinOp::Mul, a: Operand::Top, b: Operand::Slot(0) },
        ]
    );
}

#[test]
fn and_jumps_over_its_right_operand() {
    let e = binary(BinOp::And, var("a", 1), var("b", 2), 3);
    let mut cx = with_locals(&["a", "b"]);
    assert_eq!(cx.expr(&e, Needs::Value), Ok(()));
    assert_eq!(cx.depth(), 3);
    assert_eq!(
        kinds(cx),
        vec![
            InstKind::Copy { slot: 0 },
            InstKind::JumpIfNotOrPop { target: Some(3) },
            InstKind::Copy { slot: 1 },
        ]
    );
}

#[test]
fn or_that_is_not_needed_pops_behind_the_join() {
    let e = binary(BinOp::Or, var("a", 1), var("b", 2), 3);
    let mut cx = with_locals(&["a", "b"]);
    assert_eq!(cx.expr(&e, Needs::Nothing), Ok(()));
    assert_eq!(cx.depth(), 2);
    assert_eq!(
        kinds(cx),
        vec![
            InstKind::Copy { slot: 0 },
            InstKind::JumpIfOrPop { target: Some(3) },
            InstKind::Copy { slot: 1 },
            InstKind::Pop { count: 1 },
        ]
    );
}

#[test]
fn both_branches_of_if_leave_one_value() {
    // if c { 1 } else { 2 }
    let e = expr(
        ExprKind::If {
            cond: Box::new(var("c", 1)),
            then_branch: block(vec![], Some(num(1, 2)), 3),
            else_branch: Some(Box::new(block_expr(vec![], Some(num(2, 4)), 5))),
        },
        0,
    );
    let mut cx = with_locals(&["c"]);
    assert_eq!(cx.expr(&e, Needs::Value), Ok(()));
    assert_eq!(cx.depth(), 2);
    let out = cx.finish(0);
    let got: Vec<InstKind> = out.insts.iter().map(|inst| inst.kind).collect();
    assert_eq!(
        got,
        vec![
            InstKind::Copy { slot: 0 },
            InstKind::JumpIfNot { target: Some(4) },
            InstKind::Push { constant: 0 },
            InstKind::Jump { target: Some(5) },
            InstKind::Push { constant: 1 },
        ]
    );
    assert_eq!(out.frame, 2);
}

#[test]
fn if_without_else_has_the_unit_value() {
    let e = expr(
        ExprKind::If {
            cond: Box::new(var("c", 1)),
            then_branch: block(vec![], Some(num(1, 2)), 3),
            else_branch: None,
        },
        0,
    );
    let mut cx = with_locals(&["c"]);
    assert_eq!(cx.expr(&e, Needs::Value), Ok(()));
    assert_eq!(cx.depth(), 2);
    let out = cx.finish(0);
    assert_eq!(out.consts, vec![Literal::Integer(1), Literal::Unit]);
    let got: Vec<InstKind> = out.insts.iter().map(|inst| inst.kind).collect();
    assert_eq!(
        got,
        vec![
            InstKind::Copy { slot: 0 },
            InstKind::JumpIfNot { target: Some(4) },
            InstKind::Push { constant: 0 },
            InstKind::Jump { target: Some(5) },
            InstKind::Push { constant: 1 },
        ]
    );
}

#[test]
fn if_without_else_that_is_not_needed_has_one_jump() {
    // if c { f() }
    let e = expr(
        ExprKind::If {
            cond: Box::new(var("c", 1)),
            then_branch: block(
                vec![Stmt::Semi(expr(ExprKind::Call { function: 1, args: vec![] }, 2))],
                None,
                3,
            ),
            else_branch: None,
        },
        0,
    );
    let mut cx = with_locals(&["c"]);
    assert_eq!(cx.expr(&e, Needs::Nothing), Ok(()));
    assert_eq!(cx.depth(), 1);
    assert_eq!(
        kinds(cx),
        vec![
            InstKind::Copy { slot: 0 },
            InstKind::JumpIfNot { target: Some(4) },
            InstKind::Call { function: 1, args: 0 },
            InstKind::Pop { count: 1 },
        ]
    );
}

#[test]
fn a_loop_hands_on_the_value_of_break() {
    // loop { let a = 1; break a }
    let e = expr(
        ExprKind::Loop {
            label: None,
            body: block(vec![bind("a", num(1, 1))], Some(brk(None, Some(var("a", 2)), 3)), 4),
        },
        0,
    );
    let mut cx = Ctxt::new(Vec::new());
    assert_eq!(cx.expr(&e, Needs::Value), Ok(()));
    assert_eq!(cx.depth(), 1);
    let got = kinds(cx);
    assert_eq!(
        got,
        vec![
            InstKind::Push { constant: 0 },
            InstKind::Copy { slot: 0 },
            InstKind::Clean { count: 1 },
            InstKind::Jump { target: Some(6) },
            InstKind::Pop { count: 1 },
            InstKind::Jump { target: Some(0) },
        ]
    );
    assert!(no_jump_waits(&got));
}

#[test]
fn break_without_a_value_hands_on_the_unit_value() {
    // loop { break }
    let e = expr(ExprKind::Loop { label: None, body: block(vec![], Some(brk(None, None, 1)), 2) }, 0);
    let mut cx = Ctxt::new(Vec::new());
    assert_eq!(cx.expr(&e, Needs::Value), Ok(()));
    assert_eq!(cx.depth(), 1);
    let out = cx.finish(0);
    assert_eq!(out.consts, vec![Literal::Unit]);
    let got: Vec<InstKind> = out.insts.iter().map(|inst| inst.kind).collect();
    assert_eq!(
        got,
        vec![
            InstKind::Push { constant: 0 },
            InstKind::Jump { target: Some(3) },
            InstKind::Jump { target: Some(0) },
        ]
    );
}

#[test]
fn the_value_of_break_is_dropped_where_the_loop_hands_none_on() {
    // while c { break 5 }
    let e = expr(
        ExprKind::While {
            label: None,
            cond: Box::new(var("c", 1)),
            body: block(vec![], Some(brk(None, Some(num(5, 2)), 3)), 4),
        },
        0,
    );
    let mut cx = with_locals(&["c"]);
    assert_eq!(cx.expr(&e, Needs::Value), Ok(()));
    assert_eq!(cx.depth(), 2);
    let out = cx.finish(0);
    assert_eq!(out.consts, vec![Literal::Unit]);
    let got: Vec<InstKind> = out.insts.iter().map(|inst| inst.kind).collect();
    assert_eq!(
        got,
        vec![
            InstKind::Copy { slot: 0 },
            InstKind::JumpIfNot { target: Some(4) },
            InstKind::Jump { target: Some(4) },
            InstKind::Jump { target: Some(0) },
            InstKind::Push { constant: 0 },
        ]
    );
}

#[test]
fn a_pattern_that_always_matches_is_not_tested() {
    // match v { x => x }
    let e = expr(
        ExprKind::Match {
            scrutinee: Box::new(var("v", 1)),
            arms: vec![Arm { pat: pat(PatKind::Binding(name("x")), 2), body: var("x", 3) }],
        },
        0,
    );
    let mut cx = with_locals(&["v"]);
    assert_eq!(cx.expr(&e, Needs::Value), Ok(()));
    assert_eq!(cx.depth(), 2);
    assert_eq!(cx.resolve(&name("x")), None);
    let got = kinds(cx);
    assert_eq!(
        got,
        vec![
            InstKind::Copy { slot: 0 },
            InstKind::Copy { slot: 1 },
            InstKind::Copy { slot: 2 },
            InstKind::Clean { count: 1 },
            InstKind::Jump { target: Some(6) },
            InstKind::Push { constant: 0 },
            InstKind::Clean { count: 1 },
        ]
    );
    assert!(got.iter().all(|kind| !matches!(
        kind,
        InstKind::EqConst { .. } | InstKind::IsTuple { .. } | InstKind::PopAndJumpIfNot { .. }
    )));
}

#[test]
fn a_literal_pattern_is_tested_and_branches_to_the_next_arm() {
    // match v { 1 => 10, _ => 20 }
    let e = expr(
        ExprKind::Match {
            scrutinee: Box::new(var("v", 1)),
            arms: vec![
                Arm { pat: pat(PatKind::Lit(Literal::Integer(1)), 2), body: num(10, 3) },
                Arm { pat: pat(PatKind::Ignore, 4), body: num(20, 5) },
            ],
        },
        0,
    );
    let mut cx = with_locals(&["v"]);
    assert_eq!(cx.expr(&e, Needs::Value), Ok(()));
    assert_eq!(cx.depth(), 2);
    let got = kinds(cx);
    assert_eq!(
        got,
        vec![
            InstKind::Copy { slot: 0 },
            InstKind::EqConst { slot: 1, constant: 0 },
            InstKind::PopAndJumpIfNot { count: 0, target: Some(5) },
            InstKind::Push { constant: 1 },
            InstKind::Jump { target: Some(8) },
            InstKind::Push { constant: 2 },
            InstKind::Jump { target: Some(8) },
            InstKind::Push { constant: 3 },
            InstKind::Clean { count: 1 },
        ]
    );
    assert!(no_jump_waits(&got));
}

#[test]
fn a_tuple_pattern_against_a_tuple_of_the_same_length() {
    // match (a, b) { (x, _) => x }  -- nothing is tested, the second element is not fetched
    let e = expr(
        ExprKind::Match {
            scrutinee: Box::new(expr(ExprKind::Tuple(vec![var("a", 1), var("b", 2)]), 3)),
            arms: vec![Arm {
                pat: pat(
                    PatKind::Tuple(vec![
                        pat(PatKind::Binding(name("x")), 4),
                        pat(PatKind::Ignore, 5),
                    ]),
                    6,
                ),
                body: var("x", 7),
            }],
        },
        0,
    );
    let mut cx = with_locals(&["a", "b"]);
    assert_eq!(cx.expr(&e, Needs::Nothing), Ok(()));
    assert_eq!(cx.depth(), 2);
    assert_eq!(
        kinds(cx),
        vec![
            InstKind::Copy { slot: 0 },
            InstKind::Copy { slot: 1 },
            InstKind::Tuple { count: 2 },
            InstKind::TupleGet { slot: 2, index: 0 },
            InstKind::Copy { slot: 3 },
            InstKind::Pop { count: 2 },
            InstKind::Jump { target: Some(7) },
            InstKind::Pop { count: 1 },
        ]
    );
}

#[test]
fn a_tuple_pattern_against_a_tuple_of_another_length() {
    // match (a, b) { (x, y, z) => x }
    let e = expr(
        ExprKind::Match {
            scrutinee: Box::new(expr(ExprKind::Tuple(vec![var("a", 1), var("b", 2)]), 3)),
            arms: vec![Arm {
                pat: pat(
                    PatKind::Tuple(vec![
                        pat(PatKind::Binding(name("x")), 4),
                        pat(PatKind::Binding(name("y")), 5),
                        pat(PatKind::Binding(name("z")), 6),
                    ]),
                    7,
                ),
                body: var("x", 8),
            }],
        },
        0,
    );
    let mut cx = with_locals(&["a", "b"]);
    assert_eq!(cx.expr(&e, Needs::Value), Err(CompileError::PatternArityMismatch { span: at(7) }));
}

#[test]
fn a_tuple_pattern_against_a_value_of_unknown_shape() {
    // match v { (1, y) => y, _ => v }
    let e = expr(
        ExprKind::Match {
            scrutinee: Box::new(var("v", 1)),
            arms: vec![
                Arm {
                    pat: pat(
                        PatKind::Tuple(vec![
                            pat(PatKind::Lit(Literal::Integer(1)), 2),
                            pat(PatKind::Binding(name("y")), 3),
                        ]),
                        4,
                    ),
                    body: var("y", 5),
                },
                Arm { pat: pat(PatKind::Ignore, 6), body: var("v", 7) },
            ],
        },
        0,
    );
    let mut cx = with_locals(&["v"]);
    assert_eq!(cx.expr(&e, Needs::Value), Ok(()));
    assert_eq!(cx.depth(), 2);
    let got = kinds(cx);
    assert_eq!(
        got,
        vec![
            InstKind::Copy { slot: 0 },
            InstKind::IsTuple { slot: 1, len: 2 },
            InstKind::PopAndJumpIfNot { count: 0, target: Some(11) },
            InstKind::TupleGet { slot: 1, index: 0 },
            InstKind::EqConst { slot: 2, constant: 0 },
            // the element that was fetched goes with the branch
            InstKind::PopAndJumpIfNot { count: 1, target: Some(11) },
            InstKind::TupleGet { slot: 1, index: 1 },
            InstKind::Copy { slot: 3 },
            InstKind::Copy { slot: 4 },
            InstKind::Clean { count: 3 },
            InstKind::Jump { target: Some(14) },
            InstKind::Copy { slot: 0 },
            InstKind::Jump { target: Some(14) },
            InstKind::Push { constant: 1 },
            InstKind::Clean { count: 1 },
        ]
    );
    assert!(no_jump_waits(&got));
}

#[test]
fn a_match_without_arms_has_the_unit_value() {
    let e = expr(ExprKind::Match { scrutinee: Box::new(var("v", 1)), arms: vec![] }, 0);
    let mut cx = with_locals(&["v"]);
    assert_eq!(cx.expr(&e, Needs::Value), Ok(()));
    assert_eq!(cx.depth(), 2);
    assert_eq!(
        kinds(cx),
        vec![
            InstKind::Copy { slot: 0 },
            InstKind::Push { constant: 0 },
            InstKind::Clean { count: 1 },
        ]
    );
}

#[test]
fn a_closure_takes_the_values_of_its_variables_along() {
    let e = expr(ExprKind::Closure { function: 3, captures: vec![name("b"), name("a")] }, 0);
    let mut cx = with_locals(&["a", "b"]);
    assert_eq!(cx.expr(&e, Needs::Value), Ok(()));
    assert_eq!(cx.depth(), 3);
    assert_eq!(
        kinds(cx),
        vec![
            InstKind::Copy { slot: 1 },
            InstKind::Copy { slot: 0 },
            InstKind::Closure { function: 3, captures: 2 },
        ]
    );
}

#[test]
fn a_closure_cannot_take_an_unknown_variable_along() {
    let e = expr(ExprKind::Closure { function: 3, captures: vec![name("a"), name("q")] }, 8);
    let mut cx = with_locals(&["a"]);
    assert_eq!(
        cx.expr(&e, Needs::Value),
        Err(CompileError::UnresolvedVariable { name: name("q"), span: at(8) })
    );
}

#[test]
fn the_body_of_a_closure_reads_its_environment() {
    // |p| a + p, with `a` from the function around
    let decl = FnDecl {
        params: vec![name("p")],
        captures: vec![name("a")],
        body: binary(
            BinOp::Add,
            expr(ExprKind::Ident { name: name("a"), binding: BindingKind::Captured }, 1),
            var("p", 2),
            3,
        ),
        span: at(0),
    };
    let f = compile_function(&decl).unwrap();
    let got: Vec<InstKind> = f.insts.iter().map(|inst| inst.kind).collect();
    assert_eq!(
        got,
        vec![
            InstKind::Capture { index: 0 },
            InstKind::Op { op: BinOp::Add, a: Operand::Top, b: Operand::Slot(0) },
            InstKind::Return,
        ]
    );
    assert_eq!(f.params, 1);
    assert_eq!(f.frame, 2);
}

#[test]
fn a_function_of_two_parameters() {
    let decl = FnDecl {
        params: vec![name("a"), name("b")],
        captures: vec![],
        body: binary(BinOp::Sub, var("a", 1), var("b", 2), 3),
        span: at(9),
    };
    let f = compile_function(&decl).unwrap();
    let got: Vec<InstKind> = f.insts.iter().map(|inst| inst.kind).collect();
    assert_eq!(
        got,
        vec![
            InstKind::Op { op: BinOp::Sub, a: Operand::Slot(0), b: Operand::Slot(1) },
            InstKind::Return,
        ]
    );
    assert_eq!(f.params, 2);
    assert_eq!(f.frame, 3);
    assert_eq!(f.insts[1].span, at(9));
    assert!(f.consts.is_empty());
}

#[test]
fn break_outside_of_a_loop_is_an_error() {
    let decl = FnDecl { params: vec![], captures: vec![], body: brk(None, None, 4), span: at(0) };
    assert_eq!(
        compile_function(&decl).map(|f| f.insts.len()),
        Err(CompileError::BreakOutsideLoop { span: at(4) })
    );
}

#[test]
fn continue_outside_of_a_loop_is_an_error() {
    let decl = FnDecl { params: vec![], captures: vec![], body: cont(None, 4), span: at(0) };
    assert_eq!(
        compile_function(&decl).map(|f| f.insts.len()),
        Err(CompileError::ContinueOutsideLoop { span: at(4) })
    );
}

#[test]
fn a_label_that_no_loop_carries_is_an_error() {
    // 'a: loop { break 'x }
    let e = expr(
        ExprKind::Loop {
            label: Some(name("a")),
            body: block(vec![], Some(brk(Some("x"), None, 3)), 2),
        },
        1,
    );
    let mut cx = Ctxt::new(Vec::new());
    assert_eq!(
        cx.expr(&e, Needs::Nothing),
        Err(CompileError::UnknownLabel { label: name("x"), span: at(3) })
    );
}

#[test]
fn a_label_of_an_enclosing_loop_cannot_be_used_again() {
    // 'a: loop { 'a: while true {} }
    let inner = expr(
        ExprKind::While {
            label: Some(name("a")),
            cond: Box::new(boolean(true, 5)),
            body: block(vec![], None, 6),
        },
        4,
    );
    let e = expr(ExprKind::Loop { label: Some(name("a")), body: block(vec![], Some(inner), 2) }, 1);
    let mut cx = Ctxt::new(Vec::new());
    assert_eq!(
        cx.expr(&e, Needs::Nothing),
        Err(CompileError::DuplicateLabel { label: name("a"), span: at(4) })
    );
}

#[test]
fn the_same_label_on_loops_side_by_side() {
    // { 'a: loop { break 'a }; 'a: loop { break 'a } }
    let one = |n: u32| {
        expr(
            ExprKind::Loop {
                label: Some(name("a")),
                body: block(vec![], Some(brk(Some("a"), None, n + 1)), n + 2),
            },
            n,
        )
    };
    let e = block_expr(vec![Stmt::Semi(one(1))], Some(one(5)), 0);
    let mut cx = Ctxt::new(Vec::new());
    assert_eq!(cx.expr(&e, Needs::Nothing), Ok(()));
    let got = kinds(cx);
    assert_eq!(
        got,
        vec![
            InstKind::Jump { target: Some(2) },
            InstKind::Jump { target: Some(0) },
            InstKind::Jump { target: Some(4) },
            InstKind::Jump { target: Some(2) },
        ]
    );
}

#[test]
fn the_first_fault_in_the_order_of_the_text_is_reported() {
    // (p, break) + q   -- `p` comes before the `break`, `q` behind it
    let e = binary(
        BinOp::Add,
        expr(ExprKind::Tuple(vec![var("p", 1), brk(None, None, 2)]), 3),
        var("q", 4),
        5,
    );
    let mut cx = Ctxt::new(Vec::new());
    assert_eq!(
        cx.expr(&e, Needs::Value),
        Err(CompileError::UnresolvedVariable { name: name("p"), span: at(1) })
    );
    let mut cx = with_locals(&["p"]);
    assert_eq!(cx.expr(&e, Needs::Value), Err(CompileError::BreakOutsideLoop { span: at(2) }));
}

#[test]
fn the_depth_changes_by_what_is_needed() {
    let samples = || -> Vec<Expr> {
        vec![
            num(1, 0),
            var("a", 0),
            binary(BinOp::Add, var("a", 0), num(2, 0), 0),
            binary(BinOp::And, var("a", 0), var("b", 0), 0),
            expr(ExprKind::Tuple(vec![var("a", 0), num(2, 0), var("b", 0)]), 0),
            expr(ExprKind::Call { function: 1, args: vec![var("b", 0)] }, 0),
            block_expr(vec![bind("t", num(3, 0)), Stmt::Semi(var("t", 0))], Some(var("t", 0)), 0),
            block_expr(vec![bind("t", num(3, 0))], None, 0),
            expr(
                ExprKind::If {
                    cond: Box::new(var("a", 0)),
                    then_branch: block(vec![bind("t", num(3, 0))], Some(var("t", 0)), 0),
                    else_branch: None,
                },
                0,
            ),
            expr(
                ExprKind::While {
                    label: None,
                    cond: Box::new(var("a", 0)),
                    body: block(vec![bind("t", num(3, 0))], Some(cont(None, 0)), 0),
                },
                0,
            ),
            expr(
                ExprKind::For {
                    label: Some(name("l")),
                    var: name("i"),
                    iter: Box::new(var("b", 0)),
                    body: block(vec![], Some(brk(Some("l"), None, 0)), 0),
                },
                0,
            ),
            expr(
                ExprKind::Loop { label: None, body: block(vec![], Some(brk(None, Some(var("a", 0)), 0)), 0) },
                0,
            ),
            expr(
                ExprKind::Match {
                    scrutinee: Box::new(var("a", 0)),
                    arms: vec![
                        Arm { pat: pat(PatKind::Lit(Literal::Bool(true)), 0), body: var("b", 0) },
                        Arm { pat: pat(PatKind::Binding(name("o")), 0), body: var("o", 0) },
                    ],
                },
                0,
            ),
            expr(ExprKind::Closure { function: 2, captures: vec![name("a")] }, 0),
        ]
    };
    for e in samples() {
        let mut cx = with_locals(&["a", "b"]);
        assert_eq!(cx.expr(&e, Needs::Nothing), Ok(()));
        assert_eq!(cx.depth(), 2, "{:?}", e);
        assert_eq!(cx.loop_count(), 0);
        assert_eq!(cx.resolve(&name("b")), Some(Var::Local(1)));
        assert!(no_jump_waits(&kinds(cx)));
    }
    for e in samples() {
        let mut cx = with_locals(&["a", "b"]);
        assert_eq!(cx.expr(&e, Needs::Value), Ok(()));
        assert_eq!(cx.depth(), 3, "{:?}", e);
        assert_eq!(cx.loop_count(), 0);
        assert_eq!(cx.resolve(&name("b")), Some(Var::Local(1)));
        assert!(no_jump_waits(&kinds(cx)));
    }
}

#[test]
fn closing_the_loop_aims_every_recorded_jump_behind_it() {
    let mut cx = Ctxt::new(Vec::new());
    assert_eq!(cx.enter_loop(&None, 0, Needs::Nothing, at(0)), Ok(()));
    let first = cx.emit(InstKind::Jump { target: None }, at(1));
    cx.record_break(0, first);
    cx.emit(InstKind::Pop { count: 1 }, at(2));
    let second = cx.emit(InstKind::JumpIfNot { target: None }, at(3));
    cx.record_break(0, second);
    cx.emit(InstKind::Jump { target: Some(0) }, at(4));
    cx.exit_loop();
    assert_eq!(cx.loop_count(), 0);
    assert_eq!(
        kinds(cx),
        vec![
            InstKind::Jump { target: Some(4) },
            InstKind::Pop { count: 1 },
            InstKind::JumpIfNot { target: Some(4) },
            InstKind::Jump { target: Some(0) },
        ]
    );
}

#[test]
fn unwinding_keeps_the_topmost_value_if_it_is_needed() {
    let mut cx = with_locals(&["a", "b", "c"]);
    cx.unwind(1, at(0), Needs::Nothing);
    cx.unwind(1, at(0), Needs::Value);
    cx.unwind(3, at(0), Needs::Nothing);
    cx.unwind(2, at(0), Needs::Value);
    assert_eq!(cx.depth(), 3);
    assert_eq!(kinds(cx), vec![InstKind::Pop { count: 2 }, InstKind::Clean { count: 1 }]);
}

#[test]
fn the_live_slots_are_those_below_the_depth() {
    let mut cx = with_locals(&["a", "b"]);
    let e = expr(ExprKind::Tuple(vec![var("a", 0), num(2, 0), var("b", 0)]), 0);
    assert_eq!(cx.expr(&e, Needs::Value), Ok(()));
    assert_eq!(cx.depth(), 3);
    for slot in 0..8 {
        assert_eq!(cx.is_live(slot), slot < 3);
    }
    cx.pop_value();
    for slot in 0..8 {
        assert_eq!(cx.is_live(slot), slot < 2);
    }
    cx.close();
    for slot in 0..8 {
        assert!(!cx.is_live(slot));
    }
    assert_eq!(cx.finish(2).frame, 5);
}

#[test]
fn an_assembler_starts_with_nothing() {
    let cx = Ctxt::new(vec![name("outer")]);
    assert_eq!(cx.depth(), 0);
    assert_eq!(cx.here(), 0);
    assert_eq!(cx.local(), 0);
    assert_eq!(cx.loop_count(), 0);
    assert_eq!(cx.resolve(&name("outer")), Some(Var::Captured(0)));
    let f = cx.finish(0);
    assert!(f.insts.is_empty());
    assert!(f.consts.is_empty());
    assert_eq!(f.frame, 0);
}

#[test]
fn every_jump_of_a_function_has_a_target_within_it() {
    // fn(n) { 'l: loop { if n && n { break 'l n } else { continue } } }
    let body = expr(
        ExprKind::Loop {
            label: Some(name("l")),
            body: block(
                vec![],
                Some(expr(
                    ExprKind::If {
                        cond: Box::new(binary(BinOp::And, var("n", 1), var("n", 2), 3)),
                        then_branch: block(vec![], Some(brk(Some("l"), Some(var("n", 4)), 5)), 6),
                        else_branch: Some(Box::new(cont(None, 7))),
                    },
                    8,
                )),
                9,
            ),
        },
        10,
    );
    let decl = FnDecl { params: vec![name("n")], captures: vec![], body, span: at(0) };
    let f = compile_function(&decl).unwrap();
    let got: Vec<InstKind> = f.insts.iter().map(|inst| inst.kind).collect();
    assert_eq!(
        got,
        vec![
            InstKind::Copy { slot: 0 },
            InstKind::JumpIfNotOrPop { target: Some(3) },
            InstKind::Copy { slot: 0 },
            InstKind::JumpIfNot { target: Some(7) },
            InstKind::Copy { slot: 0 },
            InstKind::Jump { target: Some(9) },
            InstKind::Jump { target: Some(8) },
            InstKind::Jump { target: Some(0) },
            InstKind::Jump { target: Some(0) },
            InstKind::Return,
        ]
    );
    for kind in &got {
        match kind {
            InstKind::Jump { target }
            | InstKind::JumpIfNot { target }
            | InstKind::JumpIfNotOrPop { target } => assert!(target.unwrap() < got.len()),
            _ => {},
        }
    }
    assert_eq!(f.frame, 2);
}
