//! The evaluation of a token list: rearranged to postfix, then run on one
//! stack of operands. A parameter is read when an operator needs its value
//! and written by an assignment.

use vstd::prelude::*;
use crate::elements::expr::arithmetic::elem::{
    elem_views,
    ArithElem,
    AssignOp,
    BinaryOp,
    ElemView,
    UnaryOp,
};
use crate::elements::expr::arithmetic::rev_polish::{
    all_below,
    indices,
    postfix_order,
    rev_polish_order,
};
use crate::error::arith::{ArithError, ArithErrorView};
use crate::error::exec::{ExecError, ExecErrorView};
use crate::shell::database::{DataBase, DbView};
use crate::utils::number::{int_to_string, numeral_of, parse_i128, parse_spec};

verus! {

/// What waits on the stack: a number, or a parameter that was not read yet.
pub enum Operand {
    Num(i128),
    Var(String),
}

/// An operand of the stack as plain values.
pub enum OperandView {
    Num(i128),
    Var(Seq<char>),
}

impl OperandView {
    /// How the operand shows in a message.
    pub open spec fn text(self) -> Seq<char> {
        match self {
            OperandView::Num(n) => numeral_of(n as int),
            OperandView::Var(s) => s,
        }
    }
}

impl View for Operand {
    type V = OperandView;

    open spec fn view(&self) -> OperandView {
        match self {
            Operand::Num(n) => OperandView::Num(*n),
            Operand::Var(s) => OperandView::Var(s@),
        }
    }
}

/// The operands of a stack as plain values.
pub open spec fn operand_views(v: Seq<Operand>) -> Seq<OperandView> {
    Seq::new(v.len(), |i: int| v[i]@)
}

/// An arithmetic failure as a failure of the evaluation.
pub open spec fn arith(e: ArithErrorView) -> ExecErrorView {
    ExecErrorView::ArithError(Seq::empty(), e)
}

/// The absolute value.
pub open spec fn magnitude(x: int) -> int {
    if x < 0 {
        -x
    } else {
        x
    }
}

/// The quotient rounded toward zero.
pub open spec fn truncated_div(a: int, b: int) -> int {
    let q = magnitude(a) / magnitude(b);
    if (a < 0) == (b < 0) {
        q
    } else {
        -q
    }
}

/// The remainder of the division rounded toward zero: it has the sign of
/// the dividend.
pub open spec fn truncated_rem(a: int, b: int) -> int {
    let r = magnitude(a) % magnitude(b);
    if a < 0 {
        -r
    } else {
        r
    }
}

/// A value one step above the largest wide integer wraps to the smallest.
pub open spec fn wrapped(x: int) -> i128 {
    if x > i128::MAX {
        i128::MIN
    } else {
        x as i128
    }
}

/// 1 for a condition that holds, 0 for one that does not.
pub open spec fn truth(b: bool) -> i128 {
    if b {
        1
    } else {
        0
    }
}

/// The value of a unary operator on `a`.
pub open spec fn unary_result(op: UnaryOp, a: i128) -> i128 {
    match op {
        UnaryOp::Plus => a,
        UnaryOp::Minus => 0i128.wrapping_sub(a),
        UnaryOp::Not => truth(a == 0),
        UnaryOp::BitNot => !a,
    }
}

/// The value of a binary operator on `a` and `b`: wide signed integers that
/// wrap on overflow, division rounded toward zero, division by zero a
/// failure. A shift by a count outside 0..128 shifts everything out.
pub open spec fn binary_result(op: BinaryOp, a: i128, b: i128) -> Result<i128, ArithErrorView> {
    match op {
        BinaryOp::Mul => Ok(a.wrapping_mul(b)),
        BinaryOp::Div => if b == 0 {
            Err(ArithErrorView::DivZero)
        } else {
            Ok(wrapped(truncated_div(a as int, b as int)))
        },
        BinaryOp::Rem => if b == 0 {
            Err(ArithErrorView::DivZero)
        } else {
            Ok(truncated_rem(a as int, b as int) as i128)
        },
        BinaryOp::Add => Ok(a.wrapping_add(b)),
        BinaryOp::Sub => Ok(a.wrapping_sub(b)),
        BinaryOp::Shl => Ok(
            if 0 <= b < 128 {
                a.wrapping_shl(b as u32)
            } else {
                0
            },
        ),
        BinaryOp::Shr => Ok(
            if 0 <= b < 128 {
                a.wrapping_shr(b as u32)
            } else if a < 0 {
                (-1) as i128
            } else {
                0
            },
        ),
        BinaryOp::Le => Ok(truth(a <= b)),
        BinaryOp::Ge => Ok(truth(a >= b)),
        BinaryOp::Lt => Ok(truth(a < b)),
        BinaryOp::Gt => Ok(truth(a > b)),
        BinaryOp::Eq => Ok(truth(a == b)),
        BinaryOp::Ne => Ok(truth(a != b)),
        BinaryOp::BitAnd => Ok(a & b),
        BinaryOp::BitXor => Ok(a ^ b),
        BinaryOp::BitOr => Ok(a | b),
        BinaryOp::And => Ok(truth(a != 0 && b != 0)),
        BinaryOp::Or => Ok(truth(a != 0 || b != 0)),
        BinaryOp::Comma => Ok(b),
    }
}

/// The binary operator that a compound assignment applies; none for `=`.
pub open spec fn assign_binary(op: AssignOp) -> Option<BinaryOp> {
    match op {
        AssignOp::Assign => None,
        AssignOp::Mul => Some(BinaryOp::Mul),
        AssignOp::Div => Some(BinaryOp::Div),
        AssignOp::Rem => Some(BinaryOp::Rem),
        AssignOp::Add => Some(BinaryOp::Add),
        AssignOp::Sub => Some(BinaryOp::Sub),
        AssignOp::Shl => Some(BinaryOp::Shl),
        AssignOp::Shr => Some(BinaryOp::Shr),
        AssignOp::And => Some(BinaryOp::BitAnd),
        AssignOp::Xor => Some(BinaryOp::BitXor),
        AssignOp::Or => Some(BinaryOp::BitOr),
    }
}

/// The value of an operand: the number, or what the parameter reads as,
/// taken as a numeral; a parameter that is unset or empty counts 0.
pub open spec fn operand_value(db: DbView, o: OperandView) -> Result<i128, ArithErrorView> {
    match o {
        OperandView::Num(n) => Ok(n),
        OperandView::Var(name) => {
            let s = db.variable(name);
            if s.len() == 0 {
                Ok(0)
            } else {
                match parse_spec(s, i128::MIN as int, i128::MAX as int) {
                    Ok(n) => Ok(n as i128),
                    Err(e) => Err(ArithErrorView::InvalidNumber(s, e)),
                }
            }
        },
    }
}

/// The stack after a unary operator.
pub open spec fn unary_step(db: DbView, op: UnaryOp, stack: Seq<OperandView>) -> Result<
    Seq<OperandView>,
    ArithErrorView,
> {
    if stack.len() < 1 {
        Err(ArithErrorView::OperandExpected(Seq::empty()))
    } else {
        match operand_value(db, stack.last()) {
            Ok(v) => Ok(stack.drop_last().push(OperandView::Num(unary_result(op, v)))),
            Err(e) => Err(e),
        }
    }
}

/// The stack after a binary operator. `&&` and `||` do not read their right
/// operand where the left one decides.
pub open spec fn binary_step(db: DbView, op: BinaryOp, stack: Seq<OperandView>) -> Result<
    Seq<OperandView>,
    ArithErrorView,
> {
    if stack.len() < 2 {
        Err(ArithErrorView::OperandExpected(Seq::empty()))
    } else {
        let right = stack[stack.len() - 1];
        let left = stack[stack.len() - 2];
        let rest = stack.take(stack.len() - 2);
        match operand_value(db, left) {
            Err(e) => Err(e),
            Ok(a) => if op == BinaryOp::And && a == 0 {
                Ok(rest.push(OperandView::Num(0)))
            } else if op == BinaryOp::Or && a != 0 {
                Ok(rest.push(OperandView::Num(1)))
            } else {
                match operand_value(db, right) {
                    Err(e) => Err(e),
                    Ok(b) => match binary_result(op, a, b) {
                        Ok(v) => Ok(rest.push(OperandView::Num(v))),
                        Err(e) => Err(e),
                    },
                }
            },
        }
    }
}

/// The value that an assignment stores: the right side for `=`, else the
/// operator applied to what the parameter holds and the right side.
pub open spec fn assigned_value(db: DbView, op: AssignOp, name: Seq<char>, right: OperandView) -> Result<
    i128,
    ArithErrorView,
> {
    match operand_value(db, right) {
        Err(e) => Err(e),
        Ok(b) => match assign_binary(op) {
            None => Ok(b),
            Some(bin) => match operand_value(db, OperandView::Var(name)) {
                Err(e) => Err(e),
                Ok(a) => binary_result(bin, a, b),
            },
        },
    }
}

/// The store and the stack after an assignment: the value is written to
/// the parameter on the left as a scalar, and stays on the stack.
pub open spec fn assign_step(db: DbView, op: AssignOp, stack: Seq<OperandView>) -> (
    DbView,
    Result<Seq<OperandView>, ExecErrorView>,
) {
    if stack.len() < 2 {
        (db, Err(arith(ArithErrorView::OperandExpected(Seq::empty()))))
    } else {
        let right = stack[stack.len() - 1];
        let left = stack[stack.len() - 2];
        let rest = stack.take(stack.len() - 2);
        match left {
            OperandView::Num(_) => (
                db,
                Err(arith(ArithErrorView::AssignmentToNonVariable(left.text()))),
            ),
            OperandView::Var(name) => match assigned_value(db, op, name, right) {
                Err(e) => (db, Err(arith(e))),
                Ok(v) => {
                    let (db1, r) = db.set_param(name, numeral_of(v as int), None);
                    match r {
                        Ok(()) => (db1, Ok(rest.push(OperandView::Num(v)))),
                        Err(e) => (db1, Err(e)),
                    }
                },
            },
        }
    }
}

/// The result once the postfix list is through: the value of the one
/// operand that is left.
pub open spec fn finish(db: DbView, stack: Seq<OperandView>) -> Result<i128, ExecErrorView> {
    if stack.len() == 0 {
        Err(arith(ArithErrorView::OperandExpected(Seq::empty())))
    } else if stack.len() > 1 {
        Err(arith(ArithErrorView::SyntaxError(stack.last().text())))
    } else {
        match operand_value(db, stack[0]) {
            Ok(v) => Ok(v),
            Err(e) => Err(arith(e)),
        }
    }
}

/// The store and the stack after the token at index `idx`.
pub open spec fn step(db: DbView, tokens: Seq<ElemView>, idx: int, stack: Seq<OperandView>) -> (
    DbView,
    Result<Seq<OperandView>, ExecErrorView>,
)
    decreases tokens, 0nat, 0nat,
{
    if idx < 0 || idx >= tokens.len() {
        (db, Err(arith(ArithErrorView::OperandExpected(Seq::empty()))))
    } else {
        match tokens[idx] {
            ElemView::Integer(n) => (db, Ok(stack.push(OperandView::Num(n)))),
            ElemView::Name(s) => (db, Ok(stack.push(OperandView::Var(s)))),
            ElemView::InParen(inner) => {
                let (db1, r) = eval_tokens(db, inner);
                match r {
                    Ok(v) => (db1, Ok(stack.push(OperandView::Num(v)))),
                    Err(e) => (db1, Err(e)),
                }
            },
            ElemView::UnaryOp(op) => match unary_step(db, op, stack) {
                Ok(s) => (db, Ok(s)),
                Err(e) => (db, Err(arith(e))),
            },
            ElemView::BinaryOp(op) => match binary_step(db, op, stack) {
                Ok(s) => (db, Ok(s)),
                Err(e) => (db, Err(arith(e))),
            },
            ElemView::AssignOp(op) => assign_step(db, op, stack),
            ElemView::Ternary(yes, no) => if stack.len() < 1 {
                (db, Err(arith(ArithErrorView::OperandExpected(Seq::empty()))))
            } else {
                match operand_value(db, stack.last()) {
                    Err(e) => (db, Err(arith(e))),
                    Ok(c) => {
                        let (db1, r) = eval_tokens(
                            db,
                            if c != 0 {
                                yes
                            } else {
                                no
                            },
                        );
                        match r {
                            Ok(v) => (db1, Ok(stack.drop_last().push(OperandView::Num(v)))),
                            Err(e) => (db1, Err(e)),
                        }
                    },
                }
            },
        }
    }
}

/// The store and the result after the tokens of `order` from its `k`-th on.
pub open spec fn eval_order(
    db: DbView,
    tokens: Seq<ElemView>,
    order: Seq<int>,
    k: int,
    stack: Seq<OperandView>,
) -> (DbView, Result<i128, ExecErrorView>)
    decreases tokens, 1nat, order.len() - k,
{
    if k < 0 || k >= order.len() {
        (db, finish(db, stack))
    } else {
        let (db1, r) = step(db, tokens, order[k], stack);
        match r {
            Ok(s) => eval_order(db1, tokens, order, k + 1, s),
            Err(e) => (db1, Err(e)),
        }
    }
}

/// The store and the value after the evaluation of an infix token list.
pub open spec fn eval_tokens(db: DbView, tokens: Seq<ElemView>) -> (DbView, Result<i128, ExecErrorView>)
    decreases tokens, 2nat, 0nat,
{
    match postfix_order(tokens) {
        Err(e) => (db, Err(arith(e))),
        Ok(order) => eval_order(db, tokens, order, 0, Seq::empty()),
    }
}

/// Whether the token is an assignment or holds one.
pub open spec fn writes(e: ElemView) -> bool
    decreases e,
{
    match e {
        ElemView::AssignOp(_) => true,
        ElemView::InParen(inner) => any_writes(inner),
        ElemView::Ternary(yes, no) => any_writes(yes) || any_writes(no),
        _ => false,
    }
}

/// Whether one of the tokens is an assignment or holds one.
pub open spec fn any_writes(tokens: Seq<ElemView>) -> bool
    decreases tokens,
{
    exists|i: int| 0 <= i < tokens.len() && writes(#[trigger] tokens[i])
}

/// The token at an index of a list without assignments leaves the store as
/// it is.
pub proof fn lemma_step_reads(db: DbView, tokens: Seq<ElemView>, idx: int, stack: Seq<OperandView>)
    requires
        !any_writes(tokens),
    ensures
        step(db, tokens, idx, stack).0 == db,
    decreases tokens, 0nat, 0nat,
{
    if 0 <= idx < tokens.len() {
        assert(!writes(tokens[idx]));
        match tokens[idx] {
            ElemView::InParen(inner) => {
                lemma_eval_reads(db, inner);
            },
            ElemView::Ternary(yes, no) => {
                lemma_eval_reads(db, yes);
                lemma_eval_reads(db, no);
            },
            _ => {},
        }
    }
}

/// The tokens of an order over a list without assignments leave the store
/// as it is.
pub proof fn lemma_order_reads(
    db: DbView,
    tokens: Seq<ElemView>,
    order: Seq<int>,
    k: int,
    stack: Seq<OperandView>,
)
    requires
        !any_writes(tokens),
    ensures
        eval_order(db, tokens, order, k, stack).0 == db,
    decreases tokens, 1nat, order.len() - k,
{
    if 0 <= k < order.len() {
        lemma_step_reads(db, tokens, order[k], stack);
        let (db1, r) = step(db, tokens, order[k], stack);
        match r {
            Ok(s) => {
                lemma_order_reads(db1, tokens, order, k + 1, s);
            },
            Err(_) => {},
        }
    }
}

/// The evaluation of an expression without assignments, however it ends,
/// leaves the store as it is.
pub proof fn lemma_eval_reads(db: DbView, tokens: Seq<ElemView>)
    requires
        !any_writes(tokens),
    ensures
        eval_tokens(db, tokens).0 == db,
    decreases tokens, 2nat, 0nat,
{
    match postfix_order(tokens) {
        Ok(order) => {
            lemma_order_reads(db, tokens, order, 0, Seq::empty());
        },
        Err(_) => {},
    }
}

fn magnitude_of(x: i128) -> (m: u128)
    ensures
        m == magnitude(x as int),
{
    if x < 0 {
        (-(x + 1)) as u128 + 1
    } else {
        x as u128
    }
}

/// The quotient rounded toward zero, wrapped where it does not fit.
pub fn div_trunc(a: i128, b: i128) -> (r: i128)
    requires
        b != 0,
    ensures
        r == wrapped(truncated_div(a as int, b as int)),
{
    let ma = magnitude_of(a);
    let mb = magnitude_of(b);
    let q: u128 = ma / mb;
    assert(q <= ma) by (nonlinear_arith)
        requires
            q == ma / mb,
            mb >= 1,
    ;
    if (a < 0) == (b < 0) {
        if q > i128::MAX as u128 {
            i128::MIN
        } else {
            q as i128
        }
    } else {
        if q > i128::MAX as u128 {
            i128::MIN
        } else {
            -(q as i128)
        }
    }
}

/// The remainder of the division rounded toward zero.
pub fn rem_trunc(a: i128, b: i128) -> (r: i128)
    requires
        b != 0,
    ensures
        r == truncated_rem(a as int, b as int),
{
    let ma = magnitude_of(a);
    let mb = magnitude_of(b);
    let m: u128 = ma % mb;
    assert(m < mb) by (nonlinear_arith)
        requires
            m == ma % mb,
            mb >= 1,
    ;
    if a < 0 {
        -(m as i128)
    } else {
        m as i128
    }
}

fn truth_of(b: bool) -> (r: i128)
    ensures
        r == truth(b),
{
    if b {
        1
    } else {
        0
    }
}

/// The value of a unary operator on `a`.
pub fn unary_calc(op: UnaryOp, a: i128) -> (r: i128)
    ensures
        r == unary_result(op, a),
{
    match op {
        UnaryOp::Plus => a,
        UnaryOp::Minus => 0i128.wrapping_sub(a),
        UnaryOp::Not => truth_of(a == 0),
        UnaryOp::BitNot => !a,
    }
}

/// The value of a binary operator on `a` and `b`.
pub fn bin_calc(op: BinaryOp, a: i128, b: i128) -> (r: Result<i128, ArithError>)
    ensures
        match r {
            Ok(v) => binary_result(op, a, b) == Ok::<i128, ArithErrorView>(v),
            Err(e) => binary_result(op, a, b) == Err::<i128, ArithErrorView>(e@),
        },
{
    match op {
        BinaryOp::Mul => Ok(a.wrapping_mul(b)),
        BinaryOp::Div => {
            if b == 0 {
                Err(ArithError::DivZero)
            } else {
                Ok(div_trunc(a, b))
            }
        },
        BinaryOp::Rem => {
            if b == 0 {
                Err(ArithError::DivZero)
            } else {
                Ok(rem_trunc(a, b))
            }
        },
        BinaryOp::Add => Ok(a.wrapping_add(b)),
        BinaryOp::Sub => Ok(a.wrapping_sub(b)),
        BinaryOp::Shl => {
            if 0 <= b && b < 128 {
                Ok(a.wrapping_shl(b as u32))
            } else {
                Ok(0)
            }
        },
        BinaryOp::Shr => {
            if 0 <= b && b < 128 {
                Ok(a.wrapping_shr(b as u32))
            } else if a < 0 {
                Ok(-1)
            } else {
                Ok(0)
            }
        },
        BinaryOp::Le => Ok(truth_of(a <= b)),
        BinaryOp::Ge => Ok(truth_of(a >= b)),
        BinaryOp::Lt => Ok(truth_of(a < b)),
        BinaryOp::Gt => Ok(truth_of(a > b)),
        BinaryOp::Eq => Ok(truth_of(a == b)),
        BinaryOp::Ne => Ok(truth_of(a != b)),
        BinaryOp::BitAnd => Ok(a & b),
        BinaryOp::BitXor => Ok(a ^ b),
        BinaryOp::BitOr => Ok(a | b),
        BinaryOp::And => Ok(truth_of(a != 0 && b != 0)),
        BinaryOp::Or => Ok(truth_of(a != 0 || b != 0)),
        BinaryOp::Comma => Ok(b),
    }
}

fn binary_of(op: AssignOp) -> (r: Option<BinaryOp>)
    ensures
        r == assign_binary(op),
{
    match op {
        AssignOp::Assign => None,
        AssignOp::Mul => Some(BinaryOp::Mul),
        AssignOp::Div => Some(BinaryOp::Div),
        AssignOp::Rem => Some(BinaryOp::Rem),
        AssignOp::Add => Some(BinaryOp::Add),
        AssignOp::Sub => Some(BinaryOp::Sub),
        AssignOp::Shl => Some(BinaryOp::Shl),
        AssignOp::Shr => Some(BinaryOp::Shr),
        AssignOp::And => Some(BinaryOp::BitAnd),
        AssignOp::Xor => Some(BinaryOp::BitXor),
        AssignOp::Or => Some(BinaryOp::BitOr),
    }
}

/// The value of the parameter `name` as a number.
pub fn variable_value(db: &DataBase, name: &str) -> (r: Result<i128, ArithError>)
    requires
        db.wf(),
    ensures
        match r {
            Ok(v) => operand_value(db@, OperandView::Var(name@)) == Ok::<i128, ArithErrorView>(v),
            Err(e) => operand_value(db@, OperandView::Var(name@)) == Err::<i128, ArithErrorView>(e@),
        },
{
    let s = db.get_variable(name);
    if s.as_str().is_empty() {
        return Ok(0);
    }
    match parse_i128(s.as_str()) {
        Ok(n) => Ok(n),
        Err(e) => Err(ArithError::InvalidNumber(s, e)),
    }
}

/// The value of an operand.
pub fn value_of(db: &DataBase, o: &Operand) -> (r: Result<i128, ArithError>)
    requires
        db.wf(),
    ensures
        match r {
            Ok(v) => operand_value(db@, o@) == Ok::<i128, ArithErrorView>(v),
            Err(e) => operand_value(db@, o@) == Err::<i128, ArithErrorView>(e@),
        },
{
    match o {
        Operand::Num(n) => Ok(*n),
        Operand::Var(name) => variable_value(db, name.as_str()),
    }
}

/// Takes the top of the stack.
fn pop_operand(stack: &mut Vec<Operand>) -> (r: Operand)
    requires
        old(stack).len() > 0,
    ensures
        r@ == operand_views(old(stack)@).last(),
        final(stack).len() == old(stack).len() - 1,
        operand_views(final(stack)@) == operand_views(old(stack)@).drop_last(),
{
    let r = stack.pop().unwrap();
    assert(operand_views(stack@) =~= operand_views(old(stack)@).drop_last());
    r
}

/// Puts a number on the stack.
fn push_num(stack: &mut Vec<Operand>, v: i128)
    ensures
        operand_views(final(stack)@) == operand_views(old(stack)@).push(OperandView::Num(v)),
{
    stack.push(Operand::Num(v));
    assert(operand_views(stack@) =~= operand_views(old(stack)@).push(OperandView::Num(v)));
}

/// Applies a unary operator to the top of the stack.
fn unary_operation(db: &DataBase, op: UnaryOp, stack: &mut Vec<Operand>) -> (r: Result<(), ArithError>)
    requires
        db.wf(),
    ensures
        match r {
            Ok(()) => unary_step(db@, op, operand_views(old(stack)@)) == Ok::<
                Seq<OperandView>,
                ArithErrorView,
            >(operand_views(final(stack)@)),
            Err(e) => unary_step(db@, op, operand_views(old(stack)@)) == Err::<
                Seq<OperandView>,
                ArithErrorView,
            >(e@),
        },
{
    if stack.len() < 1 {
        return Err(ArithError::OperandExpected(String::new()));
    }
    let top = pop_operand(stack);
    let v = value_of(db, &top)?;
    push_num(stack, unary_calc(op, v));
    Ok(())
}

/// Applies a binary operator to the two operands on top of the stack.
fn binary_operation(db: &DataBase, op: BinaryOp, stack: &mut Vec<Operand>) -> (r: Result<(), ArithError>)
    requires
        db.wf(),
    ensures
        match r {
            Ok(()) => binary_step(db@, op, operand_views(old(stack)@)) == Ok::<
                Seq<OperandView>,
                ArithErrorView,
            >(operand_views(final(stack)@)),
            Err(e) => binary_step(db@, op, operand_views(old(stack)@)) == Err::<
                Seq<OperandView>,
                ArithErrorView,
            >(e@),
        },
{
    if stack.len() < 2 {
        return Err(ArithError::OperandExpected(String::new()));
    }
    let ghost s0 = operand_views(stack@);
    let right = pop_operand(stack);
    let left = pop_operand(stack);
    proof {
        assert(operand_views(stack@) =~= s0.take(s0.len() - 2));
        assert(left@ == s0[s0.len() - 2]);
    }
    let a = value_of(db, &left)?;
    if let BinaryOp::And = op {
        if a == 0 {
            push_num(stack, 0);
            return Ok(());
        }
    }
    if let BinaryOp::Or = op {
        if a != 0 {
            push_num(stack, 1);
            return Ok(());
        }
    }
    let b = value_of(db, &right)?;
    let v = bin_calc(op, a, b)?;
    push_num(stack, v);
    Ok(())
}

/// Applies an assignment to the two operands on top of the stack.
fn assign_operation(db: &mut DataBase, op: AssignOp, stack: &mut Vec<Operand>) -> (r: Result<
    (),
    ExecError,
>)
    requires
        old(db).wf(),
    ensures
        final(db).wf(),
        final(db)@ == assign_step(old(db)@, op, operand_views(old(stack)@)).0,
        match r {
            Ok(()) => assign_step(old(db)@, op, operand_views(old(stack)@)).1 == Ok::<
                Seq<OperandView>,
                ExecErrorView,
            >(operand_views(final(stack)@)),
            Err(e) => assign_step(old(db)@, op, operand_views(old(stack)@)).1 == Err::<
                Seq<OperandView>,
                ExecErrorView,
            >(e@),
        },
{
    if stack.len() < 2 {
        return Err(ExecError::ArithError(String::new(), ArithError::OperandExpected(String::new())));
    }
    let ghost s0 = operand_views(stack@);
    let right = pop_operand(stack);
    let left = pop_operand(stack);
    proof {
        assert(operand_views(stack@) =~= s0.take(s0.len() - 2));
        assert(left@ == s0[s0.len() - 2]);
    }
    let name = match left {
        Operand::Num(n) => {
            return Err(
                ExecError::ArithError(
                    String::new(),
                    ArithError::AssignmentToNonVariable(int_to_string(n)),
                ),
            );
        },
        Operand::Var(name) => name,
    };
    let b = match value_of(db, &right) {
        Ok(b) => b,
        Err(e) => {
            return Err(ExecError::ArithError(String::new(), e));
        },
    };
    let v = match binary_of(op) {
        None => b,
        Some(bin) => {
            let a = match variable_value(db, name.as_str()) {
                Ok(a) => a,
                Err(e) => {
                    return Err(ExecError::ArithError(String::new(), e));
                },
            };
            match bin_calc(bin, a, b) {
                Ok(v) => v,
                Err(e) => {
                    return Err(ExecError::ArithError(String::new(), e));
                },
            }
        },
    };
    let text = int_to_string(v);
    db.set_param(name.as_str(), text.as_str(), None)?;
    push_num(stack, v);
    Ok(())
}

/// Evaluates an infix token list against the store.
#[verifier::loop_isolation(false)]
pub fn eval_elems(elements: &Vec<ArithElem>, db: &mut DataBase) -> (r: Result<i128, ExecError>)
    requires
        old(db).wf(),
    ensures
        final(db).wf(),
        final(db)@ == eval_tokens(old(db)@, elem_views(elements@)).0,
        match r {
            Ok(v) => eval_tokens(old(db)@, elem_views(elements@)).1 == Ok::<i128, ExecErrorView>(v),
            Err(e) => eval_tokens(old(db)@, elem_views(elements@)).1 == Err::<i128, ExecErrorView>(
                e@,
            ),
        },
    decreases elements@,
{
    let ghost tokens = elem_views(elements@);
    let ghost db0 = db@;
    let order = match rev_polish_order(elements.as_slice()) {
        Ok(order) => order,
        Err(e) => {
            return Err(ExecError::ArithError(String::new(), e));
        },
    };
    let mut stack: Vec<Operand> = Vec::new();
    let mut k: usize = 0;
    proof {
        assert(operand_views(stack@) =~= Seq::<OperandView>::empty());
    }
    while k < order.len()
        invariant
            k <= order.len(),
            db.wf(),
            tokens == elem_views(elements@),
            all_below(indices(order@), elements.len() as int),
            eval_tokens(db0, tokens) == eval_order(
                db@,
                tokens,
                indices(order@),
                k as int,
                operand_views(stack@),
            ),
        decreases order.len() - k,
    {
        let idx = order[k];
        proof {
            assert(indices(order@)[k as int] == idx);
            assert(0 <= indices(order@)[k as int] < elements.len());
            assert(tokens[idx as int] == elements[idx as int]@);
        }
        let ghost s0 = operand_views(stack@);
        let ghost mid = db@;
        match &elements[idx] {
            ArithElem::Integer(n) => {
                push_num(&mut stack, *n);
            },
            ArithElem::Name(s) => {
                stack.push(Operand::Var(s.clone()));
                assert(operand_views(stack@) =~= s0.push(OperandView::Var(s@)));
            },
            ArithElem::InParen(inner) => {
                assert(tokens[idx as int] == ElemView::InParen(elem_views(inner@)));
                match eval_elems(inner, db) {
                    Ok(v) => {
                        push_num(&mut stack, v);
                    },
                    Err(e) => {
                        assert(step(mid, tokens, idx as int, s0) == (db@, Err::<
                            Seq<OperandView>,
                            ExecErrorView,
                        >(e@)));
                        return Err(e);
                    },
                }
            },
            ArithElem::UnaryOp(op) => {
                match unary_operation(db, *op, &mut stack) {
                    Ok(()) => {},
                    Err(e) => {
                        assert(step(mid, tokens, idx as int, s0) == (mid, Err::<
                            Seq<OperandView>,
                            ExecErrorView,
                        >(arith(e@))));
                        return Err(ExecError::ArithError(String::new(), e));
                    },
                }
            },
            ArithElem::BinaryOp(op) => {
                match binary_operation(db, *op, &mut stack) {
                    Ok(()) => {},
                    Err(e) => {
                        assert(step(mid, tokens, idx as int, s0) == (mid, Err::<
                            Seq<OperandView>,
                            ExecErrorView,
                        >(arith(e@))));
                        return Err(ExecError::ArithError(String::new(), e));
                    },
                }
            },
            ArithElem::AssignOp(op) => {
                match assign_operation(db, *op, &mut stack) {
                    Ok(()) => {},
                    Err(e) => {
                        assert(step(mid, tokens, idx as int, s0) == (db@, Err::<
                            Seq<OperandView>,
                            ExecErrorView,
                        >(e@)));
                        return Err(e);
                    },
                }
            },
            ArithElem::Ternary(yes, no) => {
                assert(tokens[idx as int] == ElemView::Ternary(elem_views(yes@), elem_views(no@)));
                if stack.len() < 1 {
                    assert(step(mid, tokens, idx as int, s0).1 is Err);
                    return Err(
                        ExecError::ArithError(
                            String::new(),
                            ArithError::OperandExpected(String::new()),
                        ),
                    );
                }
                let top = pop_operand(&mut stack);
                let c = match value_of(db, &top) {
                    Ok(c) => c,
                    Err(e) => {
                        assert(step(mid, tokens, idx as int, s0) == (mid, Err::<
                            Seq<OperandView>,
                            ExecErrorView,
                        >(arith(e@))));
                        return Err(ExecError::ArithError(String::new(), e));
                    },
                };
                assert(tokens[idx as int] == ElemView::Ternary(elem_views(yes@), elem_views(no@)));
                let branch = if c != 0 {
                    eval_elems(yes, db)
                } else {
                    eval_elems(no, db)
                };
                match branch {
                    Ok(v) => {
                        push_num(&mut stack, v);
                    },
                    Err(e) => {
                        assert(step(mid, tokens, idx as int, s0) == (db@, Err::<
                            Seq<OperandView>,
                            ExecErrorView,
                        >(e@)));
                        return Err(e);
                    },
                }
            },
        }
        assert(step(mid, tokens, idx as int, s0) == (db@, Ok::<Seq<OperandView>, ExecErrorView>(
            operand_views(stack@),
        )));
        k += 1;
    }
    if stack.len() == 0 {
        return Err(ExecError::ArithError(String::new(), ArithError::OperandExpected(String::new())));
    }
    if stack.len() > 1 {
        let last = &stack[stack.len() - 1];
        let text = match last {
            Operand::Num(n) => int_to_string(*n),
            Operand::Var(s) => s.clone(),
        };
        return Err(ExecError::ArithError(String::new(), ArithError::SyntaxError(text)));
    }
    match value_of(db, &stack[0]) {
        Ok(v) => Ok(v),
        Err(e) => Err(ExecError::ArithError(String::new(), e)),
    }
}

} // verus!
