//! The tokens of an arithmetic expression.

use vstd::prelude::*;
use crate::utils::number::{int_to_string, numeral_of};

verus! {

/// The operators with one operand.
#[derive(Clone, Copy, Debug, PartialEq, Eq, Structural)]
pub enum UnaryOp {
    /// `+`
    Plus,
    /// `-`
    Minus,
    /// `!`
    Not,
    /// `~`
    BitNot,
}

/// The operators with two operands, the comma among them.
#[derive(Clone, Copy, Debug, PartialEq, Eq, Structural)]
pub enum BinaryOp {
    /// `*`
    Mul,
    /// `/`
    Div,
    /// `%`
    Rem,
    /// `+`
    Add,
    /// `-`
    Sub,
    /// `<<`
    Shl,
    /// `>>`
    Shr,
    /// `<=`
    Le,
    /// `>=`
    Ge,
    /// `<`
    Lt,
    /// `>`
    Gt,
    /// `==`
    Eq,
    /// `!=`
    Ne,
    /// `&`
    BitAnd,
    /// `^`
    BitXor,
    /// `|`
    BitOr,
    /// `&&`
    And,
    /// `||`
    Or,
    /// `,`
    Comma,
}

/// The assignments: plain, and combined with a binary operator.
#[derive(Clone, Copy, Debug, PartialEq, Eq, Structural)]
pub enum AssignOp {
    /// `=`
    Assign,
    /// `*=`
    Mul,
    /// `/=`
    Div,
    /// `%=`
    Rem,
    /// `+=`
    Add,
    /// `-=`
    Sub,
    /// `<<=`
    Shl,
    /// `>>=`
    Shr,
    /// `&=`
    And,
    /// `^=`
    Xor,
    /// `|=`
    Or,
}

/// A token of an arithmetic expression: an operand or an operator.
#[derive(Debug, PartialEq, Eq)]
pub enum ArithElem {
    /// An operand: a number.
    Integer(i128),
    /// An operand: a parameter, read when an operator needs its value and
    /// written by an assignment.
    Name(String),
    /// An operand: an expression in parentheses.
    InParen(Vec<ArithElem>),
    UnaryOp(UnaryOp),
    BinaryOp(BinaryOp),
    AssignOp(AssignOp),
    /// The ternary operator after its condition: the expression for a
    /// condition that holds, and the one for a condition that does not.
    Ternary(Vec<ArithElem>, Vec<ArithElem>),
}

/// A token as plain values.
pub enum ElemView {
    Integer(i128),
    Name(Seq<char>),
    InParen(Seq<ElemView>),
    UnaryOp(UnaryOp),
    BinaryOp(BinaryOp),
    AssignOp(AssignOp),
    Ternary(Seq<ElemView>, Seq<ElemView>),
}

/// The tokens of a sequence as plain values.
pub open spec fn elem_views(v: Seq<ArithElem>) -> Seq<ElemView>
    decreases v,
{
    Seq::new(
        v.len(),
        |i: int|
            if 0 <= i < v.len() {
                v[i].view()
            } else {
                ElemView::Integer(0)
            },
    )
}

/// The precedence of a binary operator.
pub open spec fn binary_order(op: BinaryOp) -> int {
    match op {
        BinaryOp::Mul | BinaryOp::Div | BinaryOp::Rem => 16,
        BinaryOp::Add | BinaryOp::Sub => 15,
        BinaryOp::Shl | BinaryOp::Shr => 14,
        BinaryOp::Le | BinaryOp::Ge | BinaryOp::Lt | BinaryOp::Gt => 13,
        BinaryOp::Eq | BinaryOp::Ne => 12,
        BinaryOp::BitAnd => 11,
        BinaryOp::BitXor => 10,
        BinaryOp::BitOr => 9,
        BinaryOp::And => 8,
        BinaryOp::Or => 7,
        BinaryOp::Comma => 0,
    }
}

impl ElemView {
    /// Whether the token is an operand.
    pub open spec fn is_operand(self) -> bool {
        self is Integer || self is Name || self is InParen
    }

    /// The precedence of the token: the higher, the tighter it binds. The
    /// assignments have 2, the ternary operator 3, the comma 0.
    pub open spec fn order(self) -> int {
        match self {
            ElemView::UnaryOp(op) => match op {
                UnaryOp::Plus | UnaryOp::Minus => 19,
                _ => 18,
            },
            ElemView::BinaryOp(op) => binary_order(op),
            ElemView::AssignOp(_) => 2,
            ElemView::Ternary(_, _) => 3,
            _ => 1,
        }
    }

    /// How an operand shows in a message: a number as its numeral, a name as
    /// it is, an expression in parentheses as `(`.
    pub open spec fn text(self) -> Seq<char> {
        match self {
            ElemView::Integer(n) => numeral_of(n as int),
            ElemView::Name(s) => s,
            ElemView::InParen(_) => "("@,
            _ => Seq::empty(),
        }
    }
}

impl ArithElem {
    /// The token as plain values.
    pub open spec fn view(&self) -> ElemView
        decreases self,
    {
        match self {
            ArithElem::Integer(n) => ElemView::Integer(*n),
            ArithElem::Name(s) => ElemView::Name(s@),
            ArithElem::InParen(v) => ElemView::InParen(elem_views(v@)),
            ArithElem::UnaryOp(op) => ElemView::UnaryOp(*op),
            ArithElem::BinaryOp(op) => ElemView::BinaryOp(*op),
            ArithElem::AssignOp(op) => ElemView::AssignOp(*op),
            ArithElem::Ternary(l, r) => ElemView::Ternary(elem_views(l@), elem_views(r@)),
        }
    }

    /// Whether the token is an operand.
    pub fn is_operand(&self) -> (r: bool)
        ensures
            r == self@.is_operand(),
    {
        match self {
            ArithElem::Integer(_) | ArithElem::Name(_) | ArithElem::InParen(_) => true,
            _ => false,
        }
    }

    /// The precedence of the token.
    pub fn order(&self) -> (r: u8)
        ensures
            r == self@.order(),
    {
        match self {
            ArithElem::UnaryOp(op) => match op {
                UnaryOp::Plus | UnaryOp::Minus => 19,
                _ => 18,
            },
            ArithElem::BinaryOp(op) => match op {
                BinaryOp::Mul | BinaryOp::Div | BinaryOp::Rem => 16,
                BinaryOp::Add | BinaryOp::Sub => 15,
                BinaryOp::Shl | BinaryOp::Shr => 14,
                BinaryOp::Le | BinaryOp::Ge | BinaryOp::Lt | BinaryOp::Gt => 13,
                BinaryOp::Eq | BinaryOp::Ne => 12,
                BinaryOp::BitAnd => 11,
                BinaryOp::BitXor => 10,
                BinaryOp::BitOr => 9,
                BinaryOp::And => 8,
                BinaryOp::Or => 7,
                BinaryOp::Comma => 0,
            },
            ArithElem::AssignOp(_) => 2,
            ArithElem::Ternary(_, _) => 3,
            _ => 1,
        }
    }

    /// How an operand shows in a message.
    pub fn to_text(&self) -> (r: String)
        ensures
            r@ == self@.text(),
    {
        match self {
            ArithElem::Integer(n) => int_to_string(*n),
            ArithElem::Name(s) => s.clone(),
            ArithElem::InParen(_) => "(".to_owned(),
            _ => String::new(),
        }
    }

    /// A copy of the token.
    pub fn duplicate(&self) -> (r: Self)
        ensures
            r@ == self@,
        decreases self,
    {
        match self {
            ArithElem::Integer(n) => ArithElem::Integer(*n),
            ArithElem::Name(s) => ArithElem::Name(s.clone()),
            ArithElem::InParen(v) => ArithElem::InParen(duplicate_all(v)),
            ArithElem::UnaryOp(op) => ArithElem::UnaryOp(*op),
            ArithElem::BinaryOp(op) => ArithElem::BinaryOp(*op),
            ArithElem::AssignOp(op) => ArithElem::AssignOp(*op),
            ArithElem::Ternary(l, r) => ArithElem::Ternary(duplicate_all(l), duplicate_all(r)),
        }
    }
}

/// A copy of each token.
pub fn duplicate_all(v: &Vec<ArithElem>) -> (r: Vec<ArithElem>)
    ensures
        elem_views(r@) == elem_views(v@),
    decreases v,
{
    let mut out: Vec<ArithElem> = Vec::new();
    let mut i: usize = 0;
    while i < v.len()
        invariant
            i <= v.len(),
            out.len() == i,
            forall|j: int| 0 <= j < i ==> out[j]@ == v[j]@,
        decreases v.len() - i,
    {
        out.push(v[i].duplicate());
        i += 1;
    }
    assert(elem_views(out@) =~= elem_views(v@));
    out
}

} // verus!
