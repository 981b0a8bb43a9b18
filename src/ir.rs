//! Constant expressions and the budgeted interpreter that evaluates them.
use vstd::prelude::*;
use crate::ast::Span;
use crate::error::IrErrorKind;
use crate::item::{ComponentView, Item};

verus! {

/// The initial budget of one constant evaluation, in IR nodes visited.
pub const DEFAULT_BUDGET: usize = 1_000_000;

/// A binary operator of constant expressions.
#[derive(Clone, Copy, Debug, PartialEq, Eq, Structural)]
pub enum BinOp {
    Add,
    Sub,
    Mul,
    Div,
    Shl,
}

/// A node of a constant expression, with the span it came from.
#[derive(Debug)]
pub struct Ir {
    pub span: Span,
    pub kind: IrKind,
}

/// The shapes of constant-expression nodes.
#[derive(Debug)]
pub enum IrKind {
    /// A literal.
    Value(i64),
    /// A binary operation.
    Binary(BinOp, Box<Ir>, Box<Ir>),
    /// A scope block: `{ let name = value; body }`.
    Let(String, Box<Ir>, Box<Ir>),
    /// A reference to a local of an enclosing scope block.
    Var(String),
    /// A reference to another constant item.
    Const(Item),
}

/// Doubling `a` `n` times, failing on the first overflow.
pub open spec fn shl_spec(a: i64, n: nat) -> Result<i64, IrErrorKind>
    decreases n,
{
    if n == 0 {
        Ok(a)
    } else {
        match a.checked_mul(2) {
            Some(v) => shl_spec(v, (n - 1) as nat),
            None => Err(IrErrorKind::Overflow),
        }
    }
}

/// The value of `a op b`, or the error it raises.
pub open spec fn apply_spec(op: BinOp, a: i64, b: i64) -> Result<i64, IrErrorKind> {
    match op {
        BinOp::Add => match a.checked_add(b) {
            Some(v) => Ok(v),
            None => Err(IrErrorKind::Overflow),
        },
        BinOp::Sub => match a.checked_sub(b) {
            Some(v) => Ok(v),
            None => Err(IrErrorKind::Overflow),
        },
        BinOp::Mul => match a.checked_mul(b) {
            Some(v) => Ok(v),
            None => Err(IrErrorKind::Overflow),
        },
        BinOp::Div => if b == 0 {
            Err(IrErrorKind::DivideByZero)
        } else {
            match a.checked_div(b) {
                Some(v) => Ok(v),
                None => Err(IrErrorKind::Overflow),
            }
        },
        BinOp::Shl => if b < 0 {
            Err(IrErrorKind::NegativeShift)
        } else if b >= 64 {
            Err(IrErrorKind::Overflow)
        } else {
            shl_spec(a, b as nat)
        },
    }
}

/// The innermost binding of `name` in `env`.
pub open spec fn lookup_local(env: Seq<(Seq<char>, i64)>, name: Seq<char>) -> Option<i64>
    decreases env.len(),
{
    if env.len() == 0 {
        None
    } else if env.last().0 == name {
        Some(env.last().1)
    } else {
        lookup_local(env.drop_last(), name)
    }
}

/// The value recorded for constant `item` in `consts`.
pub open spec fn lookup_const(consts: Seq<(Seq<ComponentView>, i64)>, item: Seq<ComponentView>) -> Option<i64>
    decreases consts.len(),
{
    if consts.len() == 0 {
        None
    } else if consts.last().0 == item {
        Some(consts.last().1)
    } else {
        lookup_const(consts.drop_last(), item)
    }
}

/// The value of `ir` in the scopes `env`, with the constants `consts`
/// already evaluated, from `budget` nodes: the value and the budget left, or
/// the error and the span it points at. Every node visited costs one unit.
pub open spec fn eval_spec(
    ir: Ir,
    env: Seq<(Seq<char>, i64)>,
    consts: Seq<(Seq<ComponentView>, i64)>,
    budget: nat,
) -> Result<(i64, nat), (IrErrorKind, Span)>
    decreases ir,
{
    if budget == 0 {
        Err((IrErrorKind::BudgetExceeded, ir.span))
    } else {
        let b = (budget - 1) as nat;
        match ir.kind {
            IrKind::Value(v) => Ok((v, b)),
            IrKind::Binary(op, lhs, rhs) => match eval_spec(*lhs, env, consts, b) {
                Err(e) => Err(e),
                Ok((x, b1)) => match eval_spec(*rhs, env, consts, b1) {
                    Err(e) => Err(e),
                    Ok((y, b2)) => match apply_spec(op, x, y) {
                        Ok(v) => Ok((v, b2)),
                        Err(k) => Err((k, ir.span)),
                    },
                },
            },
            IrKind::Let(name, value, body) => match eval_spec(*value, env, consts, b) {
                Err(e) => Err(e),
                Ok((x, b1)) => eval_spec(*body, env.push((name@, x)), consts, b1),
            },
            IrKind::Var(name) => match lookup_local(env, name@) {
                Some(v) => Ok((v, b)),
                None => Err((IrErrorKind::MissingLocal, ir.span)),
            },
            IrKind::Const(item) => match lookup_const(consts, item@) {
                Some(v) => Ok((v, b)),
                None => Err((IrErrorKind::MissingConst, ir.span)),
            },
        }
    }
}

/// The local scopes of an evaluation, innermost last.
pub open spec fn env_view(env: Seq<(String, i64)>) -> Seq<(Seq<char>, i64)> {
    env.map_values(|e: (String, i64)| (e.0@, e.1))
}

/// The evaluated constants, latest last.
pub open spec fn consts_view(consts: Seq<(Item, i64)>) -> Seq<(Seq<ComponentView>, i64)> {
    consts.map_values(|e: (Item, i64)| (e.0@, e.1))
}

/// Evaluate `a op b`.
pub fn apply(op: BinOp, a: i64, b: i64) -> (r: Result<i64, IrErrorKind>)
    ensures
        r == apply_spec(op, a, b),
{
    match op {
        BinOp::Add => match a.checked_add(b) {
            Some(v) => Ok(v),
            None => Err(IrErrorKind::Overflow),
        },
        BinOp::Sub => match a.checked_sub(b) {
            Some(v) => Ok(v),
            None => Err(IrErrorKind::Overflow),
        },
        BinOp::Mul => match a.checked_mul(b) {
            Some(v) => Ok(v),
            None => Err(IrErrorKind::Overflow),
        },
        BinOp::Div => if b == 0 {
            Err(IrErrorKind::DivideByZero)
        } else {
            match a.checked_div(b) {
                Some(v) => Ok(v),
                None => Err(IrErrorKind::Overflow),
            }
        },
        BinOp::Shl => if b < 0 {
            Err(IrErrorKind::NegativeShift)
        } else if b >= 64 {
            Err(IrErrorKind::Overflow)
        } else {
            let mut v = a;
            let mut n: u32 = b as u32;
            while n > 0
                invariant
                    n < 64,
                    0 <= b < 64,
                    op == BinOp::Shl,
                    shl_spec(a, b as nat) == shl_spec(v, n as nat),
                decreases n,
            {
                match v.checked_mul(2) {
                    Some(w) => v = w,
                    None => {
                        assert(shl_spec(v, n as nat) == Err::<i64, IrErrorKind>(IrErrorKind::Overflow));
                        return Err(IrErrorKind::Overflow);
                    },
                }
                n = n - 1;
            }
            Ok(v)
        },
    }
}

fn find_local(env: &Vec<(String, i64)>, name: &String) -> (r: Option<i64>)
    ensures
        r == lookup_local(env_view(env@), name@),
{
    let mut i: usize = env.len();
    proof {
        assert(env_view(env@.subrange(0, i as int)) =~= env_view(env@));
    }
    while i > 0
        invariant
            i <= env@.len(),
            lookup_local(env_view(env@), name@) == lookup_local(env_view(env@.subrange(0, i as int)), name@),
        decreases i,
    {
        proof {
            assert(env_view(env@.subrange(0, i as int)).drop_last() =~= env_view(env@.subrange(0, i as int - 1)));
        }
        if env[i - 1].0.eq(name) {
            return Some(env[i - 1].1);
        }
        i = i - 1;
    }
    None
}

/// The value of constant `item` among the evaluated constants.
pub fn find_const(consts: &Vec<(Item, i64)>, item: &Item) -> (r: Option<i64>)
    ensures
        r == lookup_const(consts_view(consts@), item@),
{
    let mut i: usize = consts.len();
    proof {
        assert(consts_view(consts@.subrange(0, i as int)) =~= consts_view(consts@));
    }
    while i > 0
        invariant
            i <= consts@.len(),
            lookup_const(consts_view(consts@), item@) == lookup_const(consts_view(consts@.subrange(0, i as int)), item@),
        decreases i,
    {
        proof {
            assert(consts_view(consts@.subrange(0, i as int)).drop_last() =~= consts_view(consts@.subrange(0, i as int - 1)));
        }
        if consts[i - 1].0.same(item) {
            return Some(consts[i - 1].1);
        }
        i = i - 1;
    }
    None
}

/// Evaluate `ir` in the scopes `env` with the evaluated constants `consts`,
/// spending one unit of `budget` per node visited. The scopes are left as
/// they were.
pub fn eval_expr(
    ir: &Ir,
    env: &mut Vec<(String, i64)>,
    consts: &Vec<(Item, i64)>,
    budget: &mut usize,
) -> (r: Result<i64, (IrErrorKind, Span)>)
    ensures
        final(env)@ == old(env)@,
        match eval_spec(*ir, env_view(old(env)@), consts_view(consts@), *old(budget) as nat) {
            Ok((v, b)) => r == Ok::<i64, (IrErrorKind, Span)>(v) && *final(budget) as nat == b,
            Err(e) => r == Err::<i64, (IrErrorKind, Span)>(e),
        },
    decreases ir,
{
    if *budget == 0 {
        return Err((IrErrorKind::BudgetExceeded, ir.span));
    }
    *budget = *budget - 1;
    match &ir.kind {
        IrKind::Value(v) => Ok(*v),
        IrKind::Binary(op, lhs, rhs) => {
            let x = eval_expr(lhs, env, consts, budget)?;
            let y = eval_expr(rhs, env, consts, budget)?;
            match apply(*op, x, y) {
                Ok(v) => Ok(v),
                Err(k) => Err((k, ir.span)),
            }
        },
        IrKind::Let(name, value, body) => {
            let x = eval_expr(value, env, consts, budget)?;
            env.push((name.clone(), x));
            proof {
                assert(env_view(env@) =~= env_view(old(env)@).push((name@, x)));
            }
            let r = eval_expr(body, env, consts, budget);
            env.pop();
            proof {
                assert(env@ =~= old(env)@);
            }
            r
        },
        IrKind::Var(name) => match find_local(env, name) {
            Some(v) => Ok(v),
            None => Err((IrErrorKind::MissingLocal, ir.span)),
        },
        IrKind::Const(item) => match find_const(consts, item) {
            Some(v) => Ok(v),
            None => Err((IrErrorKind::MissingConst, ir.span)),
        },
    }
}

/// Evaluation is deterministic: the same expression, scopes, constants and
/// budget give the same outcome, so two fresh interpreters agree.
pub proof fn lemma_const_determinism(
    ir1: Ir,
    ir2: Ir,
    env: Seq<(Seq<char>, i64)>,
    consts: Seq<(Seq<ComponentView>, i64)>,
    budget: nat,
)
    requires
        ir1 == ir2,
    ensures
        eval_spec(ir1, env, consts, budget) == eval_spec(ir2, env, consts, budget),
{
}

} // verus!
