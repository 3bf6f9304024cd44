use vstd::prelude::*;

verus! {

pub type CalcResult<T> = Result<T, CalcError>;

/// Everything that can make a calculation fail.
#[derive(Debug, PartialEq)]
pub enum CalcError {
    /// A character outside the token alphabet, or a malformed numeral.
    UnexpectedChar(char),
    /// A syntax error, described by its message.
    InvalidOperator(String),
    /// The right operand of a division evaluated to zero.
    DivisionByZero,
    /// A decimal operation left the representable range.
    NumericOverflow,
}

/// The spec-level image of `CalcError`, with messages as character sequences.
pub ghost enum ErrView {
    UnexpectedChar(char),
    InvalidOperator(Seq<char>),
    DivisionByZero,
    NumericOverflow,
}

impl View for CalcError {
    type V = ErrView;

    open spec fn view(&self) -> ErrView {
        match self {
            CalcError::UnexpectedChar(c) => ErrView::UnexpectedChar(*c),
            CalcError::InvalidOperator(m) => ErrView::InvalidOperator(m@),
            CalcError::DivisionByZero => ErrView::DivisionByZero,
            CalcError::NumericOverflow => ErrView::NumericOverflow,
        }
    }
}

} // verus!
