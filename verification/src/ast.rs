use vstd::prelude::*;

verus! {

use crate::error::CalcError;
use crate::error::ErrView;
use crate::number::{Number, spec_neg, dec_add, dec_sub, dec_mul, dec_div, dec_pow};
use crate::number::{num_add, num_sub, num_mul, num_div, num_pow};

/// The expression tree: an owned, finite, immutable recursive value.
#[derive(Debug, PartialEq)]
pub enum Node {
    Add(Box<Node>, Box<Node>),
    Sub(Box<Node>, Box<Node>),
    Mul(Box<Node>, Box<Node>),
    Div(Box<Node>, Box<Node>),
    Power(Box<Node>, Box<Node>),
    Negative(Box<Node>),
    Number(Number),
}

/// Every literal of the tree is a representable decimal.
pub open spec fn node_wf(n: Node) -> bool
    decreases n,
{
    match n {
        Node::Add(l, r) => node_wf(*l) && node_wf(*r),
        Node::Sub(l, r) => node_wf(*l) && node_wf(*r),
        Node::Mul(l, r) => node_wf(*l) && node_wf(*r),
        Node::Div(l, r) => node_wf(*l) && node_wf(*r),
        Node::Power(l, r) => node_wf(*l) && node_wf(*r),
        Node::Negative(e) => node_wf(*e),
        Node::Number(v) => v.wf(),
    }
}

/// Lifts one decimal operation over the two evaluated operands: the left
/// operand's error wins, then the right one's, and an operation that leaves
/// the representable range is an overflow.
pub open spec fn lift_op(
    l: Result<Number, ErrView>,
    r: Result<Number, ErrView>,
    out: Option<Number>,
) -> Result<Number, ErrView> {
    match (l, r) {
        (Ok(_), Ok(_)) => match out {
            Some(v) => Ok(v),
            None => Err(ErrView::NumericOverflow),
        },
        (Err(e), _) => Err(e),
        (Ok(_), Err(e)) => Err(e),
    }
}

/// What evaluation returns: a pure fold over the tree, each arithmetic step
/// the checked decimal operation of `rust_decimal`. Division by a value that
/// evaluated to zero is its own error.
pub open spec fn spec_eval(n: Node) -> Result<Number, ErrView>
    decreases n,
{
    match n {
        Node::Number(v) => Ok(v),
        Node::Negative(e) => match spec_eval(*e) {
            Ok(v) => Ok(spec_neg(v)),
            Err(er) => Err(er),
        },
        Node::Add(l, r) => lift_op(
            spec_eval(*l),
            spec_eval(*r),
            eval_args(spec_eval(*l), spec_eval(*r), |a: Number, b: Number| dec_add(a, b)),
        ),
        Node::Sub(l, r) => lift_op(
            spec_eval(*l),
            spec_eval(*r),
            eval_args(spec_eval(*l), spec_eval(*r), |a: Number, b: Number| dec_sub(a, b)),
        ),
        Node::Mul(l, r) => lift_op(
            spec_eval(*l),
            spec_eval(*r),
            eval_args(spec_eval(*l), spec_eval(*r), |a: Number, b: Number| dec_mul(a, b)),
        ),
        Node::Div(l, r) => match (spec_eval(*l), spec_eval(*r)) {
            (Ok(a), Ok(b)) => if b.spec_is_zero() {
                Err(ErrView::DivisionByZero)
            } else {
                match dec_div(a, b) {
                    Some(v) => Ok(v),
                    None => Err(ErrView::NumericOverflow),
                }
            },
            (Err(e), _) => Err(e),
            (Ok(_), Err(e)) => Err(e),
        },
        Node::Power(l, r) => lift_op(
            spec_eval(*l),
            spec_eval(*r),
            eval_args(spec_eval(*l), spec_eval(*r), |a: Number, b: Number| dec_pow(a, b)),
        ),
    }
}

/// Applies the operation once both operands evaluated.
pub open spec fn eval_args(
    l: Result<Number, ErrView>,
    r: Result<Number, ErrView>,
    op: spec_fn(Number, Number) -> Option<Number>,
) -> Option<Number> {
    match (l, r) {
        (Ok(a), Ok(b)) => op(a, b),
        _ => None,
    }
}

impl Node {
    /// Evaluates the tree. Division by zero and any step that leaves the
    /// representable decimal range surface as errors instead of panics.
    pub fn eval(&self) -> (r: Result<Number, CalcError>)
        requires
            node_wf(*self),
        ensures
            match r {
                Ok(v) => spec_eval(*self) == Ok::<Number, ErrView>(v) && v.wf(),
                Err(e) => spec_eval(*self) == Err::<Number, ErrView>(e@),
            },
        decreases *self,
    {
        match self {
            Node::Number(v) => Ok(*v),
            Node::Negative(e) => {
                let v = match e.eval() {
                    Ok(v) => v,
                    Err(er) => return Err(er),
                };
                Ok(v.neg())
            },
            Node::Add(l, r) => {
                let a = match l.eval() {
                    Ok(v) => v,
                    Err(er) => return Err(er),
                };
                let b = match r.eval() {
                    Ok(v) => v,
                    Err(er) => return Err(er),
                };
                match num_add(&a, &b) {
                    Some(v) => Ok(v),
                    None => Err(CalcError::NumericOverflow),
                }
            },
            Node::Sub(l, r) => {
                let a = match l.eval() {
                    Ok(v) => v,
                    Err(er) => return Err(er),
                };
                let b = match r.eval() {
                    Ok(v) => v,
                    Err(er) => return Err(er),
                };
                match num_sub(&a, &b) {
                    Some(v) => Ok(v),
                    None => Err(CalcError::NumericOverflow),
                }
            },
            Node::Mul(l, r) => {
                let a = match l.eval() {
                    Ok(v) => v,
                    Err(er) => return Err(er),
                };
                let b = match r.eval() {
                    Ok(v) => v,
                    Err(er) => return Err(er),
                };
                match num_mul(&a, &b) {
                    Some(v) => Ok(v),
                    None => Err(CalcError::NumericOverflow),
                }
            },
            Node::Div(l, r) => {
                let a = match l.eval() {
                    Ok(v) => v,
                    Err(er) => return Err(er),
                };
                let b = match r.eval() {
                    Ok(v) => v,
                    Err(er) => return Err(er),
                };
                if b.is_zero() {
                    Err(CalcError::DivisionByZero)
                } else {
                    match num_div(&a, &b) {
                        Some(v) => Ok(v),
                        None => Err(CalcError::NumericOverflow),
                    }
                }
            },
            Node::Power(l, r) => {
                let a = match l.eval() {
                    Ok(v) => v,
                    Err(er) => return Err(er),
                };
                let b = match r.eval() {
                    Ok(v) => v,
                    Err(er) => return Err(er),
                };
                match num_pow(&a, &b) {
                    Some(v) => Ok(v),
                    None => Err(CalcError::NumericOverflow),
                }
            },
        }
    }
}

} // verus!
