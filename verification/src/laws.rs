use vstd::prelude::*;

verus! {

use crate::ast::Node;
use crate::error::ErrView;
use crate::number::Number;
use crate::parser::{sp_parse_expr, sp_primary, sp_binary, sp_loop, mk_binary};
use crate::token::{Token, OperatorPrecedence, spec_precedence, prec_level};
use crate::tokenizer::{
    lex_all,
    lex_step,
    skip_ws,
    is_ws_char,
    is_digit_char,
    token_for_symbol,
    lemma_skip_ws_bounds,
    LexStep,
};
use crate::token::tok_text;

/// The token stream of a run that ends well holds exactly one `EOF`, as its
/// last token; a run that stops in failure holds none at all. Together with
/// `Tokenizer::next`, which yields nothing once it is ended, this is why
/// `EOF` is seen exactly once per fully consumed input.
pub proof fn lemma_eof_exactly_once(s: Seq<char>, pos: nat)
    ensures
        lex_all(s, pos).1 is None ==> lex_all(s, pos).0.len() >= 1,
        lex_all(s, pos).1 is None ==> lex_all(s, pos).0.last() is EOF,
        forall|i: int|
            0 <= i < lex_all(s, pos).0.len() - 1 ==> !(#[trigger] lex_all(s, pos).0[i] is EOF),
        lex_all(s, pos).1 is Some ==> forall|i: int|
            0 <= i < lex_all(s, pos).0.len() ==> !(#[trigger] lex_all(s, pos).0[i] is EOF),
    decreases s.len() - pos + 1,
{
    let st = lex_step(s, pos);
    match st.tok {
        None => {},
        Some(t) => {
            if t is EOF {
                assert(lex_all(s, pos).0 == seq![t]);
            } else {
                if pos <= s.len() {
                    lemma_skip_ws_bounds(s, pos);
                    let j = skip_ws(s, pos);
                    if j < s.len() && crate::tokenizer::is_digit_char(s[j as int]) {
                        crate::tokenizer::lemma_numeral_end_bounds(s, j + 1);
                    }
                } else {
                    assert(skip_ws(s, pos) == pos);
                }
                lemma_eof_exactly_once(s, st.pos);
                let rest = lex_all(s, st.pos);
                let whole = lex_all(s, pos);
                assert(whole.0 == seq![t] + rest.0);
                assert(whole.0[0] == t);
                assert forall|i: int| 0 <= i < whole.0.len() - 1 implies !(
                #[trigger] whole.0[i] is EOF) by {
                    if i > 0 {
                        assert(whole.0[i] == rest.0[i - 1]);
                    }
                }
                if whole.1 is Some {
                    assert forall|i: int| 0 <= i < whole.0.len() implies !(
                    #[trigger] whole.0[i] is EOF) by {
                        if i > 0 {
                            assert(whole.0[i] == rest.0[i - 1]);
                        }
                    }
                }
                if whole.1 is None {
                    assert(whole.0.last() == rest.0.last());
                }
            }
        },
    }
}

/// The canonical token rendering of a tree: every composite node inside its
/// own parentheses, so that the rendering is unambiguous at every level.
pub open spec fn tokens_of(n: Node) -> Seq<Token>
    decreases n,
{
    match n {
        Node::Number(v) => seq![Token::Number(v)],
        Node::Negative(e) => seq![Token::Sub] + tokens_of(*e),
        Node::Add(l, r) => seq![Token::LeftParen] + tokens_of(*l) + seq![Token::Add] + tokens_of(
            *r,
        ) + seq![Token::RightParen],
        Node::Sub(l, r) => seq![Token::LeftParen] + tokens_of(*l) + seq![Token::Sub] + tokens_of(
            *r,
        ) + seq![Token::RightParen],
        Node::Mul(l, r) => seq![Token::LeftParen] + tokens_of(*l) + seq![Token::Mul] + tokens_of(
            *r,
        ) + seq![Token::RightParen],
        Node::Div(l, r) => seq![Token::LeftParen] + tokens_of(*l) + seq![Token::Div] + tokens_of(
            *r,
        ) + seq![Token::RightParen],
        Node::Power(l, r) => seq![Token::LeftParen] + tokens_of(*l) + seq![Token::Caret]
            + tokens_of(*r) + seq![Token::RightParen],
    }
}

/// Every token's level sits at or below the unary one, so a climb whose
/// floor is the unary level folds nothing.
proof fn lemma_levels_are_bounded(t: Token)
    ensures
        0 <= prec_level(spec_precedence(t)) <= 3,
{
}

/// A rendering always holds at least one token.
proof fn lemma_tokens_of_nonempty(n: Node)
    ensures
        tokens_of(n).len() >= 1,
{
    match n {
        Node::Number(_) => {},
        Node::Negative(_) => {},
        Node::Add(_, _) => {},
        Node::Sub(_, _) => {},
        Node::Mul(_, _) => {},
        Node::Div(_, _) => {},
        Node::Power(_, _) => {},
    }
}

/// The parse of a parenthesized binary node, assembled from the parses of
/// its two operands.
proof fn binary_case(op: Token, l: Node, r: Node, rest: Seq<Token>, err: Option<char>)
    requires
        rest.len() >= 1,
        prec_level(spec_precedence(op)) > 0,
        forall|f: nat|
            f > tokens_of(l).len() + (seq![op] + tokens_of(r) + (seq![Token::RightParen]
                + rest)).len() ==> sp_primary(
                tokens_of(l) + (seq![op] + tokens_of(r) + (seq![Token::RightParen] + rest)),
                err,
                f,
            ) == Ok::<_, ErrView>(
                (l, seq![op] + tokens_of(r) + (seq![Token::RightParen] + rest)),
            ),
        forall|f: nat|
            f > tokens_of(r).len() + (seq![Token::RightParen] + rest).len() ==> sp_primary(
                tokens_of(r) + (seq![Token::RightParen] + rest),
                err,
                f,
            ) == Ok::<_, ErrView>((r, seq![Token::RightParen] + rest)),
    ensures
        forall|f: nat|
            f > (seq![Token::LeftParen] + tokens_of(l) + seq![op] + tokens_of(r)
                + seq![Token::RightParen] + rest).len() ==> sp_primary(
                seq![Token::LeftParen] + tokens_of(l) + seq![op] + tokens_of(r)
                    + seq![Token::RightParen] + rest,
                err,
                f,
            ) == Ok::<_, ErrView>((mk_binary(op, l, r), rest)),
{
    let tl = tokens_of(l);
    let tr = tokens_of(r);
    let rest_r = seq![Token::RightParen] + rest;
    let rest_l = seq![op] + tr + rest_r;
    let inner = tl + rest_l;
    let w = seq![Token::LeftParen] + tl + seq![op] + tr + seq![Token::RightParen] + rest;
    lemma_tokens_of_nonempty(l);
    lemma_tokens_of_nonempty(r);
    assert(w =~= seq![Token::LeftParen] + inner);
    assert(rest_l =~= seq![op] + (tr + rest_r));
    assert(rest_l =~= seq![op] + tr + (seq![Token::RightParen] + rest));
    assert(inner =~= tl + (seq![op] + tr + (seq![Token::RightParen] + rest)));
    assert(tr + rest_r =~= tr + (seq![Token::RightParen] + rest));
    let node = mk_binary(op, l, r);
    assert forall|f: nat| f > w.len() implies sp_primary(w, err, f) == Ok::<_, ErrView>(
        (node, rest),
    ) by {
        let f1 = (f - 1) as nat;
        let f2 = (f - 2) as nat;
        assert((f1 - 1) as nat == f2);
        assert(w[0] == Token::LeftParen);
        assert(w.skip(1) =~= inner);
        assert(sp_primary(inner, err, f1) == Ok::<_, ErrView>((l, rest_l)));
        assert(rest_l[0] == op);
        assert(rest_l.skip(1) =~= tr + rest_r);
        assert(sp_primary(tr + rest_r, err, f2) == Ok::<_, ErrView>((r, rest_r)));
        assert(rest_r[0] == Token::RightParen);
        assert(sp_loop(rest_r, err, r, spec_precedence(op), f2) == Ok::<_, ErrView>((r, rest_r)));
        assert(sp_parse_expr(tr + rest_r, err, spec_precedence(op), f2) == Ok::<_, ErrView>(
            (r, rest_r),
        ));
        assert(sp_binary(rest_l, err, l, f1) == Ok::<_, ErrView>((node, rest_r)));
        assert(sp_loop(rest_r, err, node, OperatorPrecedence::Default, f2) == Ok::<_, ErrView>(
            (node, rest_r),
        ));
        assert(sp_loop(rest_l, err, l, OperatorPrecedence::Default, f1) == Ok::<_, ErrView>(
            (node, rest_r),
        ));
        assert(sp_parse_expr(inner, err, OperatorPrecedence::Default, f1) == Ok::<_, ErrView>(
            (node, rest_r),
        ));
        assert(rest_r.skip(1) =~= rest);
    }
}

/// A canonical rendering followed by anything parses back as one primary:
/// exactly the rendered tree, with the continuation untouched.
pub proof fn lemma_parse_canonical_primary(n: Node, rest: Seq<Token>, err: Option<char>)
    requires
        rest.len() >= 1,
    ensures
        forall|f: nat|
            f > tokens_of(n).len() + rest.len() ==> sp_primary(tokens_of(n) + rest, err, f)
                == Ok::<_, ErrView>((n, rest)),
    decreases n,
{
    let w = tokens_of(n) + rest;
    match n {
        Node::Number(v) => {
            assert forall|f: nat| f > w.len() implies sp_primary(w, err, f) == Ok::<_, ErrView>(
                (n, rest),
            ) by {
                assert(w[0] == Token::Number(v));
                assert(w.skip(1) =~= rest);
            }
        },
        Node::Negative(e) => {
            let te = tokens_of(*e);
            lemma_parse_canonical_primary(*e, rest, err);
            assert(w =~= seq![Token::Sub] + (te + rest));
            assert forall|f: nat| f > w.len() implies sp_primary(w, err, f) == Ok::<_, ErrView>(
                (n, rest),
            ) by {
                let f1 = (f - 1) as nat;
                assert(w[0] == Token::Sub);
                assert(w.skip(1) =~= te + rest);
                assert(sp_primary(te + rest, err, f1) == Ok::<_, ErrView>((*e, rest)));
                lemma_levels_are_bounded(rest[0]);
                assert(sp_loop(rest, err, *e, OperatorPrecedence::Negative, f1)
                    == Ok::<_, ErrView>((*e, rest)));
                assert(sp_parse_expr(te + rest, err, OperatorPrecedence::Negative, f1)
                    == Ok::<_, ErrView>((*e, rest)));
                assert(n == Node::Negative(Box::new(*e)));
            }
        },
        Node::Add(l, r) => {
            let rest_r = seq![Token::RightParen] + rest;
            let rest_l = seq![Token::Add] + tokens_of(*r) + rest_r;
            assert(rest_l =~= seq![Token::Add] + tokens_of(*r) + (seq![Token::RightParen] + rest));
            lemma_parse_canonical_primary(*l, rest_l, err);
            lemma_parse_canonical_primary(*r, rest_r, err);
            binary_case(Token::Add, *l, *r, rest, err);
            assert(w =~= seq![Token::LeftParen] + tokens_of(*l) + seq![Token::Add] + tokens_of(
                *r,
            ) + seq![Token::RightParen] + rest);
            assert(n == mk_binary(Token::Add, *l, *r));
        },
        Node::Sub(l, r) => {
            let rest_r = seq![Token::RightParen] + rest;
            let rest_l = seq![Token::Sub] + tokens_of(*r) + rest_r;
            assert(rest_l =~= seq![Token::Sub] + tokens_of(*r) + (seq![Token::RightParen] + rest));
            lemma_parse_canonical_primary(*l, rest_l, err);
            lemma_parse_canonical_primary(*r, rest_r, err);
            binary_case(Token::Sub, *l, *r, rest, err);
            assert(w =~= seq![Token::LeftParen] + tokens_of(*l) + seq![Token::Sub] + tokens_of(
                *r,
            ) + seq![Token::RightParen] + rest);
            assert(n == mk_binary(Token::Sub, *l, *r));
        },
        Node::Mul(l, r) => {
            let rest_r = seq![Token::RightParen] + rest;
            let rest_l = seq![Token::Mul] + tokens_of(*r) + rest_r;
            assert(rest_l =~= seq![Token::Mul] + tokens_of(*r) + (seq![Token::RightParen] + rest));
            lemma_parse_canonical_primary(*l, rest_l, err);
            lemma_parse_canonical_primary(*r, rest_r, err);
            binary_case(Token::Mul, *l, *r, rest, err);
            assert(w =~= seq![Token::LeftParen] + tokens_of(*l) + seq![Token::Mul] + tokens_of(
                *r,
            ) + seq![Token::RightParen] + rest);
            assert(n == mk_binary(Token::Mul, *l, *r));
        },
        Node::Div(l, r) => {
            let rest_r = seq![Token::RightParen] + rest;
            let rest_l = seq![Token::Div] + tokens_of(*r) + rest_r;
            assert(rest_l =~= seq![Token::Div] + tokens_of(*r) + (seq![Token::RightParen] + rest));
            lemma_parse_canonical_primary(*l, rest_l, err);
            lemma_parse_canonical_primary(*r, rest_r, err);
            binary_case(Token::Div, *l, *r, rest, err);
            assert(w =~= seq![Token::LeftParen] + tokens_of(*l) + seq![Token::Div] + tokens_of(
                *r,
            ) + seq![Token::RightParen] + rest);
            assert(n == mk_binary(Token::Div, *l, *r));
        },
        Node::Power(l, r) => {
            let rest_r = seq![Token::RightParen] + rest;
            let rest_l = seq![Token::Caret] + tokens_of(*r) + rest_r;
            assert(rest_l =~= seq![Token::Caret] + tokens_of(*r) + (seq![Token::RightParen] + rest));
            lemma_parse_canonical_primary(*l, rest_l, err);
            lemma_parse_canonical_primary(*r, rest_r, err);
            binary_case(Token::Caret, *l, *r, rest, err);
            assert(w =~= seq![Token::LeftParen] + tokens_of(*l) + seq![Token::Caret] + tokens_of(
                *r,
            ) + seq![Token::RightParen] + rest);
            assert(n == mk_binary(Token::Caret, *l, *r));
        },
    }
}

/// The parser is total and exact on canonical renderings: the fully
/// parenthesized token rendering of any tree, followed by a token that no
/// climb consumes (such as the closing `EOF`), parses back to exactly that
/// tree. This is the reachable half of totality over the grammar: every
/// tree the evaluator accepts is produced from some input.
pub proof fn lemma_canonical_rendering_parses_back(
    n: Node,
    rest: Seq<Token>,
    err: Option<char>,
    fuel: nat,
)
    requires
        rest.len() >= 1,
        prec_level(spec_precedence(rest[0])) == 0,
        fuel > tokens_of(n).len() + rest.len(),
    ensures
        sp_parse_expr(tokens_of(n) + rest, err, OperatorPrecedence::Default, fuel)
            == Ok::<_, ErrView>((n, rest)),
{
    lemma_parse_canonical_primary(n, rest, err);
    assert(sp_primary(tokens_of(n) + rest, err, fuel) == Ok::<_, ErrView>((n, rest)));
    assert(sp_loop(rest, err, n, OperatorPrecedence::Default, fuel) == Ok::<_, ErrView>(
        (n, rest),
    ));
}

proof fn single_symbol_round_trip(s: Seq<char>, c: char, t: Token)
    requires
        s =~= seq![c],
        token_for_symbol(c) == Some(t),
        !is_ws_char(c),
        !is_digit_char(c),
        !(t is EOF),
    ensures
        lex_all(s, 0) == (seq![t, Token::EOF], None::<char>),
{
    assert(skip_ws(s, 0) == 0);
    assert(lex_step(s, 0) == LexStep { pos: 1nat, tok: Some(t), unexpected: None::<char> });
    assert(skip_ws(s, 1) == 1);
    assert(lex_all(s, 1) == (seq![Token::EOF], None::<char>));
    assert(lex_all(s, 0).0 =~= seq![t, Token::EOF]);
}

/// Re-tokenizing the textual rendering of an operator or parenthesis token
/// yields that token back, followed by the single `EOF` of the used-up
/// input. For a `Number` token both directions of the round trip live in
/// `rust_decimal`, behind the names `dec_render` and `dec_from_numeral`, so
/// nothing of them can be proved here; the test suite exercises that round
/// trip on concrete values.
pub proof fn lemma_operator_token_round_trip(t: Token)
    requires
        !(t is Number),
        !(t is EOF),
    ensures
        lex_all(tok_text(t), 0) == (seq![t, Token::EOF], None::<char>),
{
    match t {
        Token::Add => {
            reveal_strlit("+");
            assert(tok_text(t) =~= seq!['+']);
            single_symbol_round_trip(tok_text(t), '+', t);
        },
        Token::Sub => {
            reveal_strlit("-");
            assert(tok_text(t) =~= seq!['-']);
            single_symbol_round_trip(tok_text(t), '-', t);
        },
        Token::Mul => {
            reveal_strlit("*");
            assert(tok_text(t) =~= seq!['*']);
            single_symbol_round_trip(tok_text(t), '*', t);
        },
        Token::Div => {
            reveal_strlit("/");
            assert(tok_text(t) =~= seq!['/']);
            single_symbol_round_trip(tok_text(t), '/', t);
        },
        Token::Caret => {
            reveal_strlit("^");
            assert(tok_text(t) =~= seq!['^']);
            single_symbol_round_trip(tok_text(t), '^', t);
        },
        Token::LeftParen => {
            reveal_strlit("(");
            assert(tok_text(t) =~= seq!['(']);
            single_symbol_round_trip(tok_text(t), '(', t);
        },
        Token::RightParen => {
            reveal_strlit(")");
            assert(tok_text(t) =~= seq![')']);
            single_symbol_round_trip(tok_text(t), ')', t);
        },
        _ => {},
    }
}

/// Whitespace is insignificant: a whitespace character in front of the rest
/// of the input changes neither the tokens produced nor the failure, so any
/// run of whitespace between tokens can grow or shrink freely.
pub proof fn lemma_ws_insignificant(s: Seq<char>, pos: nat)
    requires
        pos < s.len(),
        is_ws_char(s[pos as int]),
    ensures
        lex_all(s, pos) == lex_all(s, pos + 1),
{
    assert(skip_ws(s, pos) == skip_ws(s, pos + 1));
    assert(lex_step(s, pos) == lex_step(s, pos + 1));
    assert(lex_all(s, pos) == lex_all(s, pos + 1));
}

/// An operator that binds no tighter than the one before it folds after it:
/// with numbers `x`, `y`, `z`, the stream `x o1 y o2 z` parses as
/// `(x o1 y) o2 z` whenever `o2`'s level is at most `o1`'s. With the two
/// levels equal this is the left-associativity of the additive and
/// multiplicative operators, and this design's left-folding exponentiation
/// chain: `2 ^ 3 ^ 2` is `(2 ^ 3) ^ 2`.
pub proof fn lemma_no_tighter_right_folds_left(
    x: Number,
    y: Number,
    z: Number,
    o1: Token,
    o2: Token,
    err: Option<char>,
    fuel: nat,
)
    requires
        prec_level(spec_precedence(o1)) > 0,
        0 < prec_level(spec_precedence(o2)) <= prec_level(spec_precedence(o1)),
        fuel > 6,
    ensures
        sp_parse_expr(
            seq![Token::Number(x), o1, Token::Number(y), o2, Token::Number(z), Token::EOF],
            err,
            OperatorPrecedence::Default,
            fuel,
        ) == Ok::<_, ErrView>(
            (
                mk_binary(o2, mk_binary(o1, Node::Number(x), Node::Number(y)), Node::Number(z)),
                seq![Token::EOF],
            ),
        ),
{
    let t0 = seq![Token::Number(x), o1, Token::Number(y), o2, Token::Number(z), Token::EOF];
    let t1 = seq![o1, Token::Number(y), o2, Token::Number(z), Token::EOF];
    let t2 = seq![Token::Number(y), o2, Token::Number(z), Token::EOF];
    let t3 = seq![o2, Token::Number(z), Token::EOF];
    let t4 = seq![Token::Number(z), Token::EOF];
    let t5 = seq![Token::EOF];
    assert(t0.skip(1) =~= t1);
    assert(t1.skip(1) =~= t2);
    assert(t2.skip(1) =~= t3);
    assert(t3.skip(1) =~= t4);
    assert(t4.skip(1) =~= t5);
    let lx = Node::Number(x);
    let ly = Node::Number(y);
    let lz = Node::Number(z);
    let f1 = (fuel - 1) as nat;
    let f2 = (fuel - 2) as nat;
    assert((f1 - 1) as nat == f2);
    let n1 = mk_binary(o1, lx, ly);
    let n2 = mk_binary(o2, n1, lz);
    assert(sp_primary(t4, err, f2) == Ok::<_, ErrView>((lz, t5)));
    assert(sp_loop(t5, err, lz, spec_precedence(o2), f2) == Ok::<_, ErrView>((lz, t5)));
    assert(sp_parse_expr(t4, err, spec_precedence(o2), f2) == Ok::<_, ErrView>((lz, t5)));
    assert(sp_binary(t3, err, n1, f1) == Ok::<_, ErrView>((n2, t5)));
    assert(sp_loop(t5, err, n2, OperatorPrecedence::Default, f2) == Ok::<_, ErrView>((n2, t5)));
    assert(sp_loop(t3, err, n1, OperatorPrecedence::Default, f1) == Ok::<_, ErrView>((n2, t5)));
    assert(sp_primary(t2, err, f1) == Ok::<_, ErrView>((ly, t3)));
    assert(sp_loop(t3, err, ly, spec_precedence(o1), f1) == Ok::<_, ErrView>((ly, t3)));
    assert(sp_parse_expr(t2, err, spec_precedence(o1), f1) == Ok::<_, ErrView>((ly, t3)));
    assert(sp_binary(t1, err, lx, fuel) == Ok::<_, ErrView>((n1, t3)));
    assert(sp_primary(t0, err, fuel) == Ok::<_, ErrView>((lx, t1)));
    assert(sp_loop(t1, err, lx, OperatorPrecedence::Default, fuel) == Ok::<_, ErrView>((n2, t5)));
    assert(sp_parse_expr(t0, err, OperatorPrecedence::Default, fuel) == Ok::<_, ErrView>(
        (n2, t5),
    ));
}

/// An operator that binds tighter takes the middle operand first: with
/// numbers `x`, `y`, `z`, the stream `x o1 y o2 z` parses as `x o1 (y o2 z)`
/// when `o2` sits on a strictly higher level, as in `1 + 2 * 3`.
pub proof fn lemma_tighter_right_binds_first(
    x: Number,
    y: Number,
    z: Number,
    o1: Token,
    o2: Token,
    err: Option<char>,
    fuel: nat,
)
    requires
        prec_level(spec_precedence(o1)) > 0,
        prec_level(spec_precedence(o2)) > prec_level(spec_precedence(o1)),
        fuel > 6,
    ensures
        sp_parse_expr(
            seq![Token::Number(x), o1, Token::Number(y), o2, Token::Number(z), Token::EOF],
            err,
            OperatorPrecedence::Default,
            fuel,
        ) == Ok::<_, ErrView>(
            (
                mk_binary(o1, Node::Number(x), mk_binary(o2, Node::Number(y), Node::Number(z))),
                seq![Token::EOF],
            ),
        ),
{
    let t0 = seq![Token::Number(x), o1, Token::Number(y), o2, Token::Number(z), Token::EOF];
    let t1 = seq![o1, Token::Number(y), o2, Token::Number(z), Token::EOF];
    let t2 = seq![Token::Number(y), o2, Token::Number(z), Token::EOF];
    let t3 = seq![o2, Token::Number(z), Token::EOF];
    let t4 = seq![Token::Number(z), Token::EOF];
    let t5 = seq![Token::EOF];
    assert(t0.skip(1) =~= t1);
    assert(t1.skip(1) =~= t2);
    assert(t2.skip(1) =~= t3);
    assert(t3.skip(1) =~= t4);
    assert(t4.skip(1) =~= t5);
    let lx = Node::Number(x);
    let ly = Node::Number(y);
    let lz = Node::Number(z);
    let f1 = (fuel - 1) as nat;
    let f2 = (fuel - 2) as nat;
    assert((f1 - 1) as nat == f2);
    let inner = mk_binary(o2, ly, lz);
    let whole = mk_binary(o1, lx, inner);
    assert(sp_primary(t4, err, f2) == Ok::<_, ErrView>((lz, t5)));
    assert(sp_loop(t5, err, lz, spec_precedence(o2), f2) == Ok::<_, ErrView>((lz, t5)));
    assert(sp_parse_expr(t4, err, spec_precedence(o2), f2) == Ok::<_, ErrView>((lz, t5)));
    assert(sp_binary(t3, err, ly, f1) == Ok::<_, ErrView>((inner, t5)));
    assert(sp_loop(t5, err, inner, spec_precedence(o1), f2) == Ok::<_, ErrView>((inner, t5)));
    assert(sp_loop(t3, err, ly, spec_precedence(o1), f1) == Ok::<_, ErrView>((inner, t5)));
    assert(sp_primary(t2, err, f1) == Ok::<_, ErrView>((ly, t3)));
    assert(sp_parse_expr(t2, err, spec_precedence(o1), f1) == Ok::<_, ErrView>((inner, t5)));
    assert(sp_binary(t1, err, lx, fuel) == Ok::<_, ErrView>((whole, t5)));
    assert(sp_primary(t0, err, fuel) == Ok::<_, ErrView>((lx, t1)));
    assert(sp_loop(t5, err, whole, OperatorPrecedence::Default, f1) == Ok::<_, ErrView>(
        (whole, t5),
    ));
    assert(sp_loop(t1, err, lx, OperatorPrecedence::Default, fuel) == Ok::<_, ErrView>(
        (whole, t5),
    ));
    assert(sp_parse_expr(t0, err, OperatorPrecedence::Default, fuel) == Ok::<_, ErrView>(
        (whole, t5),
    ));
}

/// Unary minus binds tighter than every binary operator: the stream
/// `- x o y` parses as `(-x) o y`, so `-2 * 3` is `(-2) * 3` and `-2 ^ 2`
/// is `(-2) ^ 2`.
pub proof fn lemma_unary_minus_binds_tightest(
    x: Number,
    y: Number,
    o: Token,
    err: Option<char>,
    fuel: nat,
)
    requires
        prec_level(spec_precedence(o)) > 0,
        fuel > 5,
    ensures
        sp_parse_expr(
            seq![Token::Sub, Token::Number(x), o, Token::Number(y), Token::EOF],
            err,
            OperatorPrecedence::Default,
            fuel,
        ) == Ok::<_, ErrView>(
            (
                mk_binary(o, Node::Negative(Box::new(Node::Number(x))), Node::Number(y)),
                seq![Token::EOF],
            ),
        ),
{
    let t0 = seq![Token::Sub, Token::Number(x), o, Token::Number(y), Token::EOF];
    let t1 = seq![Token::Number(x), o, Token::Number(y), Token::EOF];
    let t2 = seq![o, Token::Number(y), Token::EOF];
    let t3 = seq![Token::Number(y), Token::EOF];
    let t4 = seq![Token::EOF];
    assert(t0.skip(1) =~= t1);
    assert(t1.skip(1) =~= t2);
    assert(t2.skip(1) =~= t3);
    assert(t3.skip(1) =~= t4);
    let lx = Node::Number(x);
    let ly = Node::Number(y);
    let neg = Node::Negative(Box::new(lx));
    let whole = mk_binary(o, neg, ly);
    let f1 = (fuel - 1) as nat;
    let f2 = (fuel - 2) as nat;
    assert((f1 - 1) as nat == f2);
    assert(sp_primary(t1, err, f1) == Ok::<_, ErrView>((lx, t2)));
    assert(sp_loop(t2, err, lx, OperatorPrecedence::Negative, f1) == Ok::<_, ErrView>((lx, t2)));
    assert(sp_parse_expr(t1, err, OperatorPrecedence::Negative, f1) == Ok::<_, ErrView>(
        (lx, t2),
    ));
    assert(sp_primary(t0, err, fuel) == Ok::<_, ErrView>((neg, t2)));
    assert(sp_primary(t3, err, f1) == Ok::<_, ErrView>((ly, t4)));
    assert(sp_loop(t4, err, ly, spec_precedence(o), f1) == Ok::<_, ErrView>((ly, t4)));
    assert(sp_parse_expr(t3, err, spec_precedence(o), f1) == Ok::<_, ErrView>((ly, t4)));
    assert(sp_binary(t2, err, neg, fuel) == Ok::<_, ErrView>((whole, t4)));
    assert(sp_loop(t4, err, whole, OperatorPrecedence::Default, f1) == Ok::<_, ErrView>(
        (whole, t4),
    ));
    assert(sp_loop(t2, err, neg, OperatorPrecedence::Default, fuel) == Ok::<_, ErrView>(
        (whole, t4),
    ));
    assert(sp_parse_expr(t0, err, OperatorPrecedence::Default, fuel) == Ok::<_, ErrView>(
        (whole, t4),
    ));
}

/// Parentheses override precedence: the stream `( x o1 y ) o2 z` parses as
/// `(x o1 y) o2 z`, whatever the two operators' levels, as in `(1 + 2) * 3`.
pub proof fn lemma_paren_overrides_precedence(
    x: Number,
    y: Number,
    z: Number,
    o1: Token,
    o2: Token,
    err: Option<char>,
    fuel: nat,
)
    requires
        prec_level(spec_precedence(o1)) > 0,
        prec_level(spec_precedence(o2)) > 0,
        fuel > 8,
    ensures
        sp_parse_expr(
            seq![
                Token::LeftParen,
                Token::Number(x),
                o1,
                Token::Number(y),
                Token::RightParen,
                o2,
                Token::Number(z),
                Token::EOF,
            ],
            err,
            OperatorPrecedence::Default,
            fuel,
        ) == Ok::<_, ErrView>(
            (
                mk_binary(o2, mk_binary(o1, Node::Number(x), Node::Number(y)), Node::Number(z)),
                seq![Token::EOF],
            ),
        ),
{
    let t0 = seq![
        Token::LeftParen,
        Token::Number(x),
        o1,
        Token::Number(y),
        Token::RightParen,
        o2,
        Token::Number(z),
        Token::EOF,
    ];
    let t1 = seq![
        Token::Number(x),
        o1,
        Token::Number(y),
        Token::RightParen,
        o2,
        Token::Number(z),
        Token::EOF,
    ];
    let t2 = seq![o1, Token::Number(y), Token::RightParen, o2, Token::Number(z), Token::EOF];
    let t3 = seq![Token::Number(y), Token::RightParen, o2, Token::Number(z), Token::EOF];
    let t4 = seq![Token::RightParen, o2, Token::Number(z), Token::EOF];
    let t5 = seq![o2, Token::Number(z), Token::EOF];
    let t6 = seq![Token::Number(z), Token::EOF];
    let t7 = seq![Token::EOF];
    assert(t0.skip(1) =~= t1);
    assert(t1.skip(1) =~= t2);
    assert(t2.skip(1) =~= t3);
    assert(t3.skip(1) =~= t4);
    assert(t4.skip(1) =~= t5);
    assert(t5.skip(1) =~= t6);
    assert(t6.skip(1) =~= t7);
    let lx = Node::Number(x);
    let ly = Node::Number(y);
    let lz = Node::Number(z);
    let n1 = mk_binary(o1, lx, ly);
    let n2 = mk_binary(o2, n1, lz);
    let f1 = (fuel - 1) as nat;
    let f2 = (fuel - 2) as nat;
    let f3 = (fuel - 3) as nat;
    assert((f1 - 1) as nat == f2);
    assert((f2 - 1) as nat == f3);
    assert(sp_primary(t3, err, f2) == Ok::<_, ErrView>((ly, t4)));
    assert(sp_loop(t4, err, ly, spec_precedence(o1), f2) == Ok::<_, ErrView>((ly, t4)));
    assert(sp_parse_expr(t3, err, spec_precedence(o1), f2) == Ok::<_, ErrView>((ly, t4)));
    assert(sp_binary(t2, err, lx, f1) == Ok::<_, ErrView>((n1, t4)));
    assert(sp_primary(t1, err, f1) == Ok::<_, ErrView>((lx, t2)));
    assert(sp_loop(t4, err, n1, OperatorPrecedence::Default, f2) == Ok::<_, ErrView>((n1, t4)));
    assert(sp_loop(t2, err, lx, OperatorPrecedence::Default, f1) == Ok::<_, ErrView>((n1, t4)));
    assert(sp_parse_expr(t1, err, OperatorPrecedence::Default, f1) == Ok::<_, ErrView>(
        (n1, t4),
    ));
    assert(sp_primary(t0, err, fuel) == Ok::<_, ErrView>((n1, t5)));
    assert(sp_primary(t6, err, f1) == Ok::<_, ErrView>((lz, t7)));
    assert(sp_loop(t7, err, lz, spec_precedence(o2), f1) == Ok::<_, ErrView>((lz, t7)));
    assert(sp_parse_expr(t6, err, spec_precedence(o2), f1) == Ok::<_, ErrView>((lz, t7)));
    assert(sp_binary(t5, err, n1, fuel) == Ok::<_, ErrView>((n2, t7)));
    assert(sp_loop(t7, err, n2, OperatorPrecedence::Default, f1) == Ok::<_, ErrView>((n2, t7)));
    assert(sp_loop(t5, err, n1, OperatorPrecedence::Default, fuel) == Ok::<_, ErrView>(
        (n2, t7),
    ));
    assert(sp_parse_expr(t0, err, OperatorPrecedence::Default, fuel) == Ok::<_, ErrView>(
        (n2, t7),
    ));
}

} // verus!
