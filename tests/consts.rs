use rune::ast::Span;
use rune::error::IrErrorKind;
use rune::ir::{apply, eval_expr, find_const, BinOp, Ir, IrKind, DEFAULT_BUDGET};
use rune::item::{Component, Item};

fn sp(start: usize, end: usize) -> Span {
    Span { start, end }
}

fn lit(v: i64, s: usize) -> Ir {
    Ir { span: sp(s, s + 1), kind: IrKind::Value(v) }
}

fn bin(op: BinOp, l: Ir, r: Ir, s: usize) -> Ir {
    Ir { span: sp(s, s + 5), kind: IrKind::Binary(op, Box::new(l), Box::new(r)) }
}

fn run(ir: &Ir) -> Result<i64, (IrErrorKind, Span)> {
    let mut env = Vec::new();
    let mut budget = DEFAULT_BUDGET;
    eval_expr(ir, &mut env, &Vec::new(), &mut budget)
}

#[test]
fn arithmetic_values() {
    assert_eq!(run(&bin(BinOp::Add, lit(2, 0), lit(3, 4), 0)), Ok(5));
    assert_eq!(run(&bin(BinOp::Sub, lit(2, 0), lit(3, 4), 0)), Ok(-1));
    assert_eq!(run(&bin(BinOp::Div, lit(-7, 0), lit(2, 4), 0)), Ok(-3));
    assert_eq!(run(&bin(BinOp::Shl, lit(3, 0), lit(4, 4), 0)), Ok(48));
    assert_eq!(apply(BinOp::Shl, -1, 63), Ok(i64::MIN));
}

#[test]
fn arithmetic_errors() {
    assert_eq!(run(&bin(BinOp::Div, lit(1, 0), lit(0, 4), 7)), Err((IrErrorKind::DivideByZero, sp(7, 12))));
    assert_eq!(run(&bin(BinOp::Shl, lit(1, 0), lit(-1, 4), 7)), Err((IrErrorKind::NegativeShift, sp(7, 12))));
    assert_eq!(run(&bin(BinOp::Add, lit(i64::MAX, 0), lit(1, 4), 7)), Err((IrErrorKind::Overflow, sp(7, 12))));
    assert_eq!(run(&bin(BinOp::Div, lit(i64::MIN, 0), lit(-1, 4), 7)), Err((IrErrorKind::Overflow, sp(7, 12))));
    assert_eq!(apply(BinOp::Shl, 1, 63), Err(IrErrorKind::Overflow));
    assert_eq!(apply(BinOp::Shl, 0, 64), Err(IrErrorKind::Overflow));
}

#[test]
fn scopes_and_locals() {
    let ir = Ir {
        span: sp(0, 30),
        kind: IrKind::Let(
            "x".to_string(),
            Box::new(lit(4, 8)),
            Box::new(Ir {
                span: sp(10, 30),
                kind: IrKind::Let(
                    "x".to_string(),
                    Box::new(bin(BinOp::Mul, Ir { span: sp(12, 13), kind: IrKind::Var("x".to_string()) }, lit(10, 15), 12)),
                    Box::new(Ir { span: sp(20, 21), kind: IrKind::Var("x".to_string()) }),
                ),
            }),
        ),
    };
    let mut env = Vec::new();
    let mut budget: usize = 100;
    assert_eq!(eval_expr(&ir, &mut env, &Vec::new(), &mut budget), Ok(40));
    assert!(env.is_empty());
    assert_eq!(budget, 100 - 7);
    let missing = Ir { span: sp(3, 4), kind: IrKind::Var("y".to_string()) };
    assert_eq!(run(&missing), Err((IrErrorKind::MissingLocal, sp(3, 4))));
}

#[test]
fn budget_runs_out() {
    let ir = bin(BinOp::Add, lit(1, 0), lit(2, 4), 0);
    let mut env = Vec::new();
    let mut budget: usize = 2;
    assert_eq!(eval_expr(&ir, &mut env, &Vec::new(), &mut budget), Err((IrErrorKind::BudgetExceeded, sp(4, 5))));
    let mut budget: usize = 3;
    assert_eq!(eval_expr(&ir, &mut env, &Vec::new(), &mut budget), Ok(3));
    assert_eq!(budget, 0);
}

#[test]
fn const_references() {
    let a = Item::root().join(Component::Str("A".to_string()));
    let b = Item::root().join(Component::Str("B".to_string()));
    let table = vec![(a.duplicate(), 11), (a.duplicate(), 12)];
    assert_eq!(find_const(&table, &a), Some(12));
    assert_eq!(find_const(&table, &b), None);
    let ir = bin(BinOp::Add, Ir { span: sp(0, 1), kind: IrKind::Const(a.duplicate()) }, lit(1, 4), 0);
    let mut env = Vec::new();
    let mut budget = DEFAULT_BUDGET;
    assert_eq!(eval_expr(&ir, &mut env, &table, &mut budget), Ok(13));
    let ir = Ir { span: sp(5, 6), kind: IrKind::Const(b) };
    assert_eq!(eval_expr(&ir, &mut env, &table, &mut budget), Err((IrErrorKind::MissingConst, sp(5, 6))));
}

#[test]
fn fresh_interpreters_agree() {
    let ir = bin(BinOp::Mul, bin(BinOp::Sub, lit(9, 0), lit(4, 2), 0), lit(3, 6), 0);
    let first = run(&ir);
    let second = run(&ir);
    assert_eq!(first, second);
    assert_eq!(first, Ok(15));
}
