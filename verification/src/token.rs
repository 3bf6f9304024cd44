use vstd::prelude::*;
use vstd::string::StringExecFns;

verus! {

use crate::number::{Number, dec_render, num_to_text};

/// The token alphabet of the expression language.
#[derive(Debug, PartialEq, Clone, Copy)]
pub enum Token {
    Add,
    Sub,
    Mul,
    Div,
    Caret,
    LeftParen,
    RightParen,
    Number(Number),
    EOF,
}

/// Binding strength of the operators, lowest to highest; `Default` sits
/// below every real operator and acts as the sentinel of the precedence
/// climb.
#[derive(Debug, PartialEq, Clone, Copy)]
pub enum OperatorPrecedence {
    Default,
    AddOrSub,
    MulOrDiv,
    Power,
    Negative,
}

/// The numeric rank of a precedence level; a bigger rank binds tighter.
pub open spec fn prec_level(p: OperatorPrecedence) -> int {
    match p {
        OperatorPrecedence::Default => 0,
        OperatorPrecedence::AddOrSub => 1,
        OperatorPrecedence::MulOrDiv => 2,
        OperatorPrecedence::Power => 3,
        OperatorPrecedence::Negative => 4,
    }
}

impl OperatorPrecedence {
    /// The executable rank, for comparing two levels.
    pub fn level(&self) -> (r: u8)
        ensures
            r as int == prec_level(*self),
    {
        match self {
            OperatorPrecedence::Default => 0,
            OperatorPrecedence::AddOrSub => 1,
            OperatorPrecedence::MulOrDiv => 2,
            OperatorPrecedence::Power => 3,
            OperatorPrecedence::Negative => 4,
        }
    }
}

/// The precedence level each token maps to; everything that is not a binary
/// operator sits at the sentinel level.
pub open spec fn spec_precedence(t: Token) -> OperatorPrecedence {
    match t {
        Token::Add => OperatorPrecedence::AddOrSub,
        Token::Sub => OperatorPrecedence::AddOrSub,
        Token::Mul => OperatorPrecedence::MulOrDiv,
        Token::Div => OperatorPrecedence::MulOrDiv,
        Token::Caret => OperatorPrecedence::Power,
        _ => OperatorPrecedence::Default,
    }
}

/// The textual rendering of a token: operators and parentheses by their
/// symbol, numbers by their decimal value.
pub open spec fn tok_text(t: Token) -> Seq<char> {
    match t {
        Token::Add => "+"@,
        Token::Sub => "-"@,
        Token::Mul => "*"@,
        Token::Div => "/"@,
        Token::Caret => "^"@,
        Token::LeftParen => "("@,
        Token::RightParen => ")"@,
        Token::Number(n) => dec_render(n),
        Token::EOF => "EOF"@,
    }
}

/// Whether the number a token carries, if any, is representable.
pub open spec fn tok_wf(t: Token) -> bool {
    t matches Token::Number(n) ==> n.wf()
}

impl Token {
    pub fn get_precedence(&self) -> (r: OperatorPrecedence)
        ensures
            r == spec_precedence(*self),
    {
        match self {
            Token::Add => OperatorPrecedence::AddOrSub,
            Token::Sub => OperatorPrecedence::AddOrSub,
            Token::Mul => OperatorPrecedence::MulOrDiv,
            Token::Div => OperatorPrecedence::MulOrDiv,
            Token::Caret => OperatorPrecedence::Power,
            _ => OperatorPrecedence::Default,
        }
    }

    /// Renders the token as text.
    pub fn to_text(&self) -> (r: String)
        requires
            tok_wf(*self),
        ensures
            r@ == tok_text(*self),
    {
        match self {
            Token::Add => String::from_str("+"),
            Token::Sub => String::from_str("-"),
            Token::Mul => String::from_str("*"),
            Token::Div => String::from_str("/"),
            Token::Caret => String::from_str("^"),
            Token::LeftParen => String::from_str("("),
            Token::RightParen => String::from_str(")"),
            Token::Number(n) => num_to_text(n),
            Token::EOF => String::from_str("EOF"),
        }
    }
}

} // verus!
