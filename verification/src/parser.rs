use vstd::prelude::*;
use vstd::string::StringExecFns;

verus! {

use crate::ast::{Node, node_wf};
use crate::error::{CalcError, CalcResult, ErrView};
use crate::token::{Token, OperatorPrecedence, spec_precedence, prec_level, tok_text, tok_wf};
use crate::tokenizer::{Tokenizer, lex_all};

pub open spec fn msg_incomplete() -> Seq<char> {
    "incomplete expression"@
}

pub open spec fn msg_expected_rparen(t: Token) -> Seq<char> {
    "expected right parenthesis, found "@ + tok_text(t)
}

pub open spec fn msg_expected_primary(t: Token) -> Seq<char> {
    "expected a number or expression, found "@ + tok_text(t)
}

/// The binary node an operator token builds.
pub open spec fn mk_binary(op: Token, l: Node, r: Node) -> Node {
    match op {
        Token::Add => Node::Add(Box::new(l), Box::new(r)),
        Token::Sub => Node::Sub(Box::new(l), Box::new(r)),
        Token::Mul => Node::Mul(Box::new(l), Box::new(r)),
        Token::Div => Node::Div(Box::new(l), Box::new(r)),
        Token::Caret => Node::Power(Box::new(l), Box::new(r)),
        _ => arbitrary(),
    }
}

// The specification of the parser, by precedence climbing over the token
// stream. `toks` is the stream still at hand, its first element the token
// the parser currently looks at; `err` is the character on which the lexer
// will fail after the last token of `toks`, if it fails (a stream that ends
// well ends with `EOF` instead). A successful parse returns the tree and the
// stream that is left, whose first element is again the token at hand.
//
// `fuel` only forces the recursion to bottom out; any `fuel` larger than the
// stream's length gives the parse's one true value.

/// One primary: a number, a negation, or a parenthesized expression.
pub open spec fn sp_primary(toks: Seq<Token>, err: Option<char>, fuel: nat) -> Result<
    (Node, Seq<Token>),
    ErrView,
>
    decreases fuel, 0nat,
{
    if fuel == 0 || toks.len() == 0 {
        arbitrary()
    } else {
        match toks[0] {
            Token::Number(n) => if toks.len() == 1 {
                sp_pull_failed(err)
            } else {
                Ok((Node::Number(n), toks.skip(1)))
            },
            Token::Sub => if toks.len() == 1 {
                sp_pull_failed(err)
            } else {
                match sp_parse_expr(
                    toks.skip(1),
                    err,
                    OperatorPrecedence::Negative,
                    (fuel - 1) as nat,
                ) {
                    Ok((e, rest)) => Ok((Node::Negative(Box::new(e)), rest)),
                    Err(e) => Err(e),
                }
            },
            Token::LeftParen => if toks.len() == 1 {
                sp_pull_failed(err)
            } else {
                match sp_parse_expr(
                    toks.skip(1),
                    err,
                    OperatorPrecedence::Default,
                    (fuel - 1) as nat,
                ) {
                    Ok((e, rest)) => if rest.len() == 0 {
                        arbitrary()
                    } else if rest[0] is RightParen {
                        if rest.len() == 1 {
                            sp_pull_failed(err)
                        } else {
                            Ok((e, rest.skip(1)))
                        }
                    } else if rest[0] is EOF {
                        Err(ErrView::InvalidOperator(msg_incomplete()))
                    } else {
                        Err(ErrView::InvalidOperator(msg_expected_rparen(rest[0])))
                    },
                    Err(e) => Err(e),
                }
            },
            Token::EOF => Err(ErrView::InvalidOperator(msg_incomplete())),
            _ => Err(ErrView::InvalidOperator(msg_expected_primary(toks[0]))),
        }
    }
}

/// What pulling the next token yields when the stream has none left: the
/// lexer's failure.
pub open spec fn sp_pull_failed(err: Option<char>) -> Result<(Node, Seq<Token>), ErrView> {
    match err {
        Some(c) => Err(ErrView::UnexpectedChar(c)),
        None => arbitrary(),
    }
}

/// One fold step: consumes the operator at hand and parses its right operand
/// with the operator's own level as the floor, which is what folds chains of
/// same-level operators to the left.
pub open spec fn sp_binary(toks: Seq<Token>, err: Option<char>, left: Node, fuel: nat) -> Result<
    (Node, Seq<Token>),
    ErrView,
>
    decreases fuel, 0nat,
{
    if fuel == 0 || toks.len() == 0 {
        arbitrary()
    } else {
        let op = toks[0];
        if toks.len() == 1 {
            sp_pull_failed(err)
        } else {
            match sp_parse_expr(toks.skip(1), err, spec_precedence(op), (fuel - 1) as nat) {
                Ok((right, rest)) => Ok((mk_binary(op, left, right), rest)),
                Err(e) => Err(e),
            }
        }
    }
}

/// The climb: folds operators into `left` while the token at hand binds
/// strictly tighter than `min`.
pub open spec fn sp_loop(
    toks: Seq<Token>,
    err: Option<char>,
    left: Node,
    min: OperatorPrecedence,
    fuel: nat,
) -> Result<(Node, Seq<Token>), ErrView>
    decreases fuel, 1nat,
{
    if fuel == 0 || toks.len() == 0 {
        arbitrary()
    } else if prec_level(spec_precedence(toks[0])) > prec_level(min) {
        match sp_binary(toks, err, left, fuel) {
            Ok((node, rest)) => sp_loop(rest, err, node, min, (fuel - 1) as nat),
            Err(e) => Err(e),
        }
    } else {
        Ok((left, toks))
    }
}

/// A whole expression at floor `min`: one primary, then the climb.
pub open spec fn sp_parse_expr(
    toks: Seq<Token>,
    err: Option<char>,
    min: OperatorPrecedence,
    fuel: nat,
) -> Result<(Node, Seq<Token>), ErrView>
    decreases fuel, 2nat,
{
    match sp_primary(toks, err, fuel) {
        Ok((left, rest)) => sp_loop(rest, err, left, min, fuel),
        Err(e) => Err(e),
    }
}

fn incomplete_msg() -> (r: String)
    ensures
        r@ == msg_incomplete(),
{
    String::from_str("incomplete expression")
}

fn expected_rparen_msg(t: &Token) -> (r: String)
    requires
        tok_wf(*t),
    ensures
        r@ == msg_expected_rparen(*t),
{
    let mut m = String::from_str("expected right parenthesis, found ");
    let shown = t.to_text();
    m.append(shown.as_str());
    m
}

fn expected_primary_msg(t: &Token) -> (r: String)
    requires
        tok_wf(*t),
    ensures
        r@ == msg_expected_primary(*t),
{
    let mut m = String::from_str("expected a number or expression, found ");
    let shown = t.to_text();
    m.append(shown.as_str());
    m
}

/// The precedence-climbing parser: a lexer plus the single token at hand.
pub struct Parser {
    tokenizer: Tokenizer,
    current_token: Token,
}

impl Parser {
    pub closed spec fn wf(self) -> bool {
        &&& self.tokenizer.wf()
        &&& (self.tokenizer.is_ended() ==> self.current_token is EOF)
        &&& tok_wf(self.current_token)
    }

    /// The token at hand followed by everything the lexer will still produce.
    pub closed spec fn stream(self) -> Seq<Token> {
        seq![self.current_token] + self.tokenizer.stream()
    }

    /// The character on which the lexer will fail, if it will.
    pub closed spec fn lex_err(self) -> Option<char> {
        self.tokenizer.lex_err()
    }

    /// Builds the parser and eagerly pulls the first token; an input whose
    /// very first token is malformed fails here.
    pub fn new(expression: &str) -> (r: CalcResult<Parser>)
        ensures
            match r {
                Ok(p) => {
                    &&& p.wf()
                    &&& lex_all(expression@, 0).0.len() > 0
                    &&& p.stream() == lex_all(expression@, 0).0
                    &&& p.lex_err() == lex_all(expression@, 0).1
                },
                Err(e) => {
                    &&& lex_all(expression@, 0).0.len() == 0
                    &&& lex_all(expression@, 0).1 is Some
                    &&& e@ == ErrView::UnexpectedChar(lex_all(expression@, 0).1->0)
                },
            },
    {
        let mut tokenizer = Tokenizer::new(expression);
        match tokenizer.next() {
            Some(t) => {
                let p = Parser { tokenizer, current_token: t };
                proof {
                    assert(p.stream() =~= lex_all(expression@, 0).0);
                }
                Ok(p)
            },
            None => {
                let c = tokenizer.get_unexpected_char().unwrap();
                Err(CalcError::UnexpectedChar(c))
            },
        }
    }

    /// Parses one whole expression, starting at the sentinel level. Tokens
    /// after the expression are left unconsumed.
    pub fn parse(&mut self) -> (r: CalcResult<Node>)
        requires
            old(self).wf(),
        ensures
            match r {
                Ok(node) => {
                    &&& node_wf(node)
                    &&& forall|f: nat|
                        f > old(self).stream().len() ==> sp_parse_expr(
                            old(self).stream(),
                            old(self).lex_err(),
                            OperatorPrecedence::Default,
                            f,
                        ) == Ok::<_, ErrView>((node, final(self).stream()))
                },
                Err(e) => forall|f: nat|
                    f > old(self).stream().len() ==> sp_parse_expr(
                        old(self).stream(),
                        old(self).lex_err(),
                        OperatorPrecedence::Default,
                        f,
                    ) == Err::<(Node, Seq<Token>), ErrView>(e@),
            },
    {
        self.parse_expression(OperatorPrecedence::Default)
    }

    /// Replaces the token at hand by the next one from the lexer.
    fn next_token(&mut self) -> (r: CalcResult<()>)
        requires
            old(self).wf(),
            !(old(self).current_token is EOF),
        ensures
            match r {
                Ok(()) => {
                    &&& final(self).wf()
                    &&& old(self).stream().len() >= 2
                    &&& final(self).stream() == old(self).stream().skip(1)
                    &&& final(self).lex_err() == old(self).lex_err()
                },
                Err(e) => {
                    &&& old(self).stream().len() == 1
                    &&& old(self).lex_err() is Some
                    &&& e@ == ErrView::UnexpectedChar(old(self).lex_err()->0)
                },
            },
    {
        match self.tokenizer.next() {
            Some(t) => {
                self.current_token = t;
                proof {
                    assert(old(self).stream().len() == 1 + old(self).tokenizer.stream().len());
                    assert(final(self).stream() =~= old(self).stream().skip(1));
                }
                Ok(())
            },
            None => {
                let c = self.tokenizer.get_unexpected_char().unwrap();
                proof {
                    assert(old(self).stream() =~= seq![old(self).current_token]);
                }
                Err(CalcError::UnexpectedChar(c))
            },
        }
    }

    /// One primary: a number, a `-` applied at the highest level, or a
    /// parenthesized expression that must be closed.
    fn parse_number_or_expr(&mut self) -> (r: CalcResult<Node>)
        requires
            old(self).wf(),
        ensures
            match r {
                Ok(node) => {
                    &&& final(self).wf()
                    &&& node_wf(node)
                    &&& final(self).lex_err() == old(self).lex_err()
                    &&& final(self).stream().len() < old(self).stream().len()
                    &&& forall|f: nat|
                        f > old(self).stream().len() ==> sp_primary(
                            old(self).stream(),
                            old(self).lex_err(),
                            f,
                        ) == Ok::<_, ErrView>((node, final(self).stream()))
                },
                Err(e) => forall|f: nat|
                    f > old(self).stream().len() ==> sp_primary(
                        old(self).stream(),
                        old(self).lex_err(),
                        f,
                    ) == Err::<(Node, Seq<Token>), ErrView>(e@),
            },
        decreases old(self).stream().len(), 0nat,
    {
        let ghost toks0 = old(self).stream();
        let ghost err0 = old(self).lex_err();
        proof {
            assert(toks0[0] == old(self).current_token);
        }
        let t = self.current_token;
        match t {
            Token::Number(n) => {
                match self.next_token() {
                    Ok(()) => {
                        proof {
                            assert forall|f: nat| f > toks0.len() implies sp_primary(
                                toks0,
                                err0,
                                f,
                            ) == Ok::<_, ErrView>((Node::Number(n), final(self).stream())) by {}
                        }
                        Ok(Node::Number(n))
                    },
                    Err(e) => Err(e),
                }
            },
            Token::Sub => {
                match self.next_token() {
                    Ok(()) => {},
                    Err(e) => {
                        return Err(e);
                    },
                }
                let ghost toks1 = self.stream();
                match self.parse_expression(OperatorPrecedence::Negative) {
                    Ok(e) => {
                        let node = Node::Negative(Box::new(e));
                        proof {
                            assert forall|f: nat| f > toks0.len() implies sp_primary(
                                toks0,
                                err0,
                                f,
                            ) == Ok::<_, ErrView>((node, final(self).stream())) by {
                                assert(sp_parse_expr(
                                    toks0.skip(1),
                                    err0,
                                    OperatorPrecedence::Negative,
                                    (f - 1) as nat,
                                ) == Ok::<_, ErrView>((e, final(self).stream())));
                            }
                        }
                        Ok(node)
                    },
                    Err(e) => {
                        proof {
                            assert forall|f: nat| f > toks0.len() implies sp_primary(
                                toks0,
                                err0,
                                f,
                            ) == Err::<(Node, Seq<Token>), ErrView>(e@) by {
                                assert(sp_parse_expr(
                                    toks0.skip(1),
                                    err0,
                                    OperatorPrecedence::Negative,
                                    (f - 1) as nat,
                                ) == Err::<(Node, Seq<Token>), ErrView>(e@));
                            }
                        }
                        Err(e)
                    },
                }
            },
            Token::LeftParen => {
                match self.next_token() {
                    Ok(()) => {},
                    Err(e) => {
                        return Err(e);
                    },
                }
                let inner = match self.parse_expression(OperatorPrecedence::Default) {
                    Ok(e) => e,
                    Err(e) => {
                        proof {
                            assert forall|f: nat| f > toks0.len() implies sp_primary(
                                toks0,
                                err0,
                                f,
                            ) == Err::<(Node, Seq<Token>), ErrView>(e@) by {
                                assert(sp_parse_expr(
                                    toks0.skip(1),
                                    err0,
                                    OperatorPrecedence::Default,
                                    (f - 1) as nat,
                                ) == Err::<(Node, Seq<Token>), ErrView>(e@));
                            }
                        }
                        return Err(e);
                    },
                };
                let ghost rest = self.stream();
                proof {
                    assert(rest[0] == self.current_token);
                }
                match self.current_token {
                    Token::RightParen => {
                        match self.next_token() {
                            Ok(()) => {
                                proof {
                                    assert forall|f: nat| f > toks0.len() implies sp_primary(
                                        toks0,
                                        err0,
                                        f,
                                    ) == Ok::<_, ErrView>((inner, final(self).stream())) by {
                                        assert(sp_parse_expr(
                                            toks0.skip(1),
                                            err0,
                                            OperatorPrecedence::Default,
                                            (f - 1) as nat,
                                        ) == Ok::<_, ErrView>((inner, rest)));
                                    }
                                }
                                Ok(inner)
                            },
                            Err(e) => {
                                proof {
                                    assert forall|f: nat| f > toks0.len() implies sp_primary(
                                        toks0,
                                        err0,
                                        f,
                                    ) == Err::<(Node, Seq<Token>), ErrView>(e@) by {
                                        assert(sp_parse_expr(
                                            toks0.skip(1),
                                            err0,
                                            OperatorPrecedence::Default,
                                            (f - 1) as nat,
                                        ) == Ok::<_, ErrView>((inner, rest)));
                                    }
                                }
                                Err(e)
                            },
                        }
                    },
                    Token::EOF => {
                        let e = CalcError::InvalidOperator(incomplete_msg());
                        proof {
                            assert forall|f: nat| f > toks0.len() implies sp_primary(
                                toks0,
                                err0,
                                f,
                            ) == Err::<(Node, Seq<Token>), ErrView>(e@) by {
                                assert(sp_parse_expr(
                                    toks0.skip(1),
                                    err0,
                                    OperatorPrecedence::Default,
                                    (f - 1) as nat,
                                ) == Ok::<_, ErrView>((inner, rest)));
                            }
                        }
                        Err(e)
                    },
                    _ => {
                        let found = self.current_token;
                        let e = CalcError::InvalidOperator(expected_rparen_msg(&found));
                        proof {
                            assert forall|f: nat| f > toks0.len() implies sp_primary(
                                toks0,
                                err0,
                                f,
                            ) == Err::<(Node, Seq<Token>), ErrView>(e@) by {
                                assert(sp_parse_expr(
                                    toks0.skip(1),
                                    err0,
                                    OperatorPrecedence::Default,
                                    (f - 1) as nat,
                                ) == Ok::<_, ErrView>((inner, rest)));
                            }
                        }
                        Err(e)
                    },
                }
            },
            Token::EOF => Err(CalcError::InvalidOperator(incomplete_msg())),
            _ => Err(CalcError::InvalidOperator(expected_primary_msg(&t))),
        }
    }

    /// Consumes the operator at hand and builds its node, with the right
    /// operand parsed at the operator's own level.
    fn parse_binary_expression(&mut self, left_expr: Node) -> (r: CalcResult<Node>)
        requires
            old(self).wf(),
            node_wf(left_expr),
            prec_level(spec_precedence(old(self).current_token)) > 0,
        ensures
            match r {
                Ok(node) => {
                    &&& final(self).wf()
                    &&& node_wf(node)
                    &&& final(self).lex_err() == old(self).lex_err()
                    &&& final(self).stream().len() < old(self).stream().len() - 1
                    &&& forall|f: nat|
                        f > old(self).stream().len() ==> sp_binary(
                            old(self).stream(),
                            old(self).lex_err(),
                            left_expr,
                            f,
                        ) == Ok::<_, ErrView>((node, final(self).stream()))
                },
                Err(e) => forall|f: nat|
                    f > old(self).stream().len() ==> sp_binary(
                        old(self).stream(),
                        old(self).lex_err(),
                        left_expr,
                        f,
                    ) == Err::<(Node, Seq<Token>), ErrView>(e@),
            },
        decreases old(self).stream().len(), 1nat,
    {
        let ghost toks0 = old(self).stream();
        let ghost err0 = old(self).lex_err();
        proof {
            assert(toks0[0] == old(self).current_token);
        }
        let op = self.current_token;
        match self.next_token() {
            Ok(()) => {},
            Err(e) => {
                return Err(e);
            },
        }
        let level = op.get_precedence();
        let right = match self.parse_expression(level) {
            Ok(e) => e,
            Err(e) => {
                proof {
                    assert forall|f: nat| f > toks0.len() implies sp_binary(
                        toks0,
                        err0,
                        left_expr,
                        f,
                    ) == Err::<(Node, Seq<Token>), ErrView>(e@) by {
                        assert(sp_parse_expr(
                            toks0.skip(1),
                            err0,
                            spec_precedence(op),
                            (f - 1) as nat,
                        ) == Err::<(Node, Seq<Token>), ErrView>(e@));
                    }
                }
                return Err(e);
            },
        };
        let node = match op {
            Token::Add => Node::Add(Box::new(left_expr), Box::new(right)),
            Token::Sub => Node::Sub(Box::new(left_expr), Box::new(right)),
            Token::Mul => Node::Mul(Box::new(left_expr), Box::new(right)),
            Token::Div => Node::Div(Box::new(left_expr), Box::new(right)),
            Token::Caret => Node::Power(Box::new(left_expr), Box::new(right)),
            _ => {
                // excluded by the precondition: the token at hand is a binary operator
                proof {
                    assert(false);
                }
                Node::Number(crate::number::Number { mantissa: 0, scale: 0 })
            },
        };
        proof {
            assert(node == mk_binary(op, left_expr, right));
            assert forall|f: nat| f > toks0.len() implies sp_binary(toks0, err0, left_expr, f)
                == Ok::<_, ErrView>((node, final(self).stream())) by {
                assert(sp_parse_expr(toks0.skip(1), err0, spec_precedence(op), (f - 1) as nat)
                    == Ok::<_, ErrView>((right, final(self).stream())));
            }
        }
        Ok(node)
    }

    /// The climb around `parse_binary_expression`.
    fn parse_loop(&mut self, left_expr: Node, precedence: OperatorPrecedence) -> (r: CalcResult<
        Node,
    >)
        requires
            old(self).wf(),
            node_wf(left_expr),
        ensures
            match r {
                Ok(node) => {
                    &&& final(self).wf()
                    &&& node_wf(node)
                    &&& final(self).lex_err() == old(self).lex_err()
                    &&& final(self).stream().len() <= old(self).stream().len()
                    &&& forall|f: nat|
                        f > old(self).stream().len() ==> sp_loop(
                            old(self).stream(),
                            old(self).lex_err(),
                            left_expr,
                            precedence,
                            f,
                        ) == Ok::<_, ErrView>((node, final(self).stream()))
                },
                Err(e) => forall|f: nat|
                    f > old(self).stream().len() ==> sp_loop(
                        old(self).stream(),
                        old(self).lex_err(),
                        left_expr,
                        precedence,
                        f,
                    ) == Err::<(Node, Seq<Token>), ErrView>(e@),
            },
        decreases old(self).stream().len(), 2nat,
    {
        let ghost toks0 = old(self).stream();
        let ghost err0 = old(self).lex_err();
        proof {
            assert(toks0[0] == old(self).current_token);
            assert(toks0.len() >= 1);
        }
        let cur = self.current_token.get_precedence();
        if cur.level() > precedence.level() {
            let folded = match self.parse_binary_expression(left_expr) {
                Ok(n) => n,
                Err(e) => {
                    proof {
                        assert forall|f: nat| f > toks0.len() implies sp_loop(
                            toks0,
                            err0,
                            left_expr,
                            precedence,
                            f,
                        ) == Err::<(Node, Seq<Token>), ErrView>(e@) by {
                            assert(sp_binary(toks0, err0, left_expr, f)
                                == Err::<(Node, Seq<Token>), ErrView>(e@));
                        }
                    }
                    return Err(e);
                },
            };
            let ghost rest = self.stream();
            match self.parse_loop(folded, precedence) {
                Ok(node) => {
                    proof {
                        assert forall|f: nat| f > toks0.len() implies sp_loop(
                            toks0,
                            err0,
                            left_expr,
                            precedence,
                            f,
                        ) == Ok::<_, ErrView>((node, final(self).stream())) by {
                            assert(sp_binary(toks0, err0, left_expr, f)
                                == Ok::<_, ErrView>((folded, rest)));
                            assert(sp_loop(rest, err0, folded, precedence, (f - 1) as nat)
                                == Ok::<_, ErrView>((node, final(self).stream())));
                        }
                    }
                    Ok(node)
                },
                Err(e) => {
                    proof {
                        assert forall|f: nat| f > toks0.len() implies sp_loop(
                            toks0,
                            err0,
                            left_expr,
                            precedence,
                            f,
                        ) == Err::<(Node, Seq<Token>), ErrView>(e@) by {
                            assert(sp_binary(toks0, err0, left_expr, f)
                                == Ok::<_, ErrView>((folded, rest)));
                            assert(sp_loop(rest, err0, folded, precedence, (f - 1) as nat)
                                == Err::<(Node, Seq<Token>), ErrView>(e@));
                        }
                    }
                    Err(e)
                },
            }
        } else {
            proof {
                assert forall|f: nat| f > toks0.len() implies sp_loop(
                    toks0,
                    err0,
                    left_expr,
                    precedence,
                    f,
                ) == Ok::<_, ErrView>((left_expr, final(self).stream())) by {}
            }
            Ok(left_expr)
        }
    }

    /// A whole expression at floor `precedence`: one primary, then the climb.
    fn parse_expression(&mut self, precedence: OperatorPrecedence) -> (r: CalcResult<Node>)
        requires
            old(self).wf(),
        ensures
            match r {
                Ok(node) => {
                    &&& final(self).wf()
                    &&& node_wf(node)
                    &&& final(self).lex_err() == old(self).lex_err()
                    &&& final(self).stream().len() < old(self).stream().len()
                    &&& forall|f: nat|
                        f > old(self).stream().len() ==> sp_parse_expr(
                            old(self).stream(),
                            old(self).lex_err(),
                            precedence,
                            f,
                        ) == Ok::<_, ErrView>((node, final(self).stream()))
                },
                Err(e) => forall|f: nat|
                    f > old(self).stream().len() ==> sp_parse_expr(
                        old(self).stream(),
                        old(self).lex_err(),
                        precedence,
                        f,
                    ) == Err::<(Node, Seq<Token>), ErrView>(e@),
            },
        decreases old(self).stream().len(), 3nat,
    {
        let ghost toks0 = old(self).stream();
        let ghost err0 = old(self).lex_err();
        let left = match self.parse_number_or_expr() {
            Ok(n) => n,
            Err(e) => {
                proof {
                    assert forall|f: nat| f > toks0.len() implies sp_parse_expr(
                        toks0,
                        err0,
                        precedence,
                        f,
                    ) == Err::<(Node, Seq<Token>), ErrView>(e@) by {
                        assert(sp_primary(toks0, err0, f) == Err::<(Node, Seq<Token>), ErrView>(
                            e@,
                        ));
                    }
                }
                return Err(e);
            },
        };
        let ghost rest = self.stream();
        match self.parse_loop(left, precedence) {
            Ok(node) => {
                proof {
                    assert forall|f: nat| f > toks0.len() implies sp_parse_expr(
                        toks0,
                        err0,
                        precedence,
                        f,
                    ) == Ok::<_, ErrView>((node, final(self).stream())) by {
                        assert(sp_primary(toks0, err0, f) == Ok::<_, ErrView>((left, rest)));
                        assert(sp_loop(rest, err0, left, precedence, f) == Ok::<_, ErrView>(
                            (node, final(self).stream()),
                        ));
                    }
                }
                Ok(node)
            },
            Err(e) => {
                proof {
                    assert forall|f: nat| f > toks0.len() implies sp_parse_expr(
                        toks0,
                        err0,
                        precedence,
                        f,
                    ) == Err::<(Node, Seq<Token>), ErrView>(e@) by {
                        assert(sp_primary(toks0, err0, f) == Ok::<_, ErrView>((left, rest)));
                        assert(sp_loop(rest, err0, left, precedence, f) == Err::<
                            (Node, Seq<Token>),
                            ErrView,
                        >(e@));
                    }
                }
                Err(e)
            },
        }
    }
}

} // verus!
