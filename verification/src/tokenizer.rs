use vstd::prelude::*;
use vstd::string::StrSliceExecFns;

verus! {

use crate::number::{dec_from_numeral, num_from_chars};
use crate::token::Token;

/// The whitespace the lexer skips.
pub open spec fn is_ws_char(c: char) -> bool {
    c == ' ' || c == '\t' || c == '\n' || c == '\r'
}

/// A decimal digit; a digit opens a numeral.
pub open spec fn is_digit_char(c: char) -> bool {
    48 <= (c as u32) <= 57
}

/// The characters a numeral may go on with once opened: digits and `.`,
/// taken greedily, with no check of the `.` count at scan time.
pub open spec fn is_numeral_char(c: char) -> bool {
    is_digit_char(c) || c == '.'
}

/// The single-character operator and parenthesis tokens.
pub open spec fn token_for_symbol(c: char) -> Option<Token> {
    if c == '+' {
        Some(Token::Add)
    } else if c == '-' {
        Some(Token::Sub)
    } else if c == '*' {
        Some(Token::Mul)
    } else if c == '/' {
        Some(Token::Div)
    } else if c == '^' {
        Some(Token::Caret)
    } else if c == '(' {
        Some(Token::LeftParen)
    } else if c == ')' {
        Some(Token::RightParen)
    } else {
        None
    }
}

/// The first position at or after `i` that does not hold whitespace.
pub open spec fn skip_ws(s: Seq<char>, i: nat) -> nat
    decreases s.len() - i,
{
    if i < s.len() && is_ws_char(s[i as int]) {
        skip_ws(s, i + 1)
    } else {
        i
    }
}

/// The first position at or after `i` that does not hold a numeral character.
pub open spec fn numeral_end(s: Seq<char>, i: nat) -> nat
    decreases s.len() - i,
{
    if i < s.len() && is_numeral_char(s[i as int]) {
        numeral_end(s, i + 1)
    } else {
        i
    }
}

pub proof fn lemma_skip_ws_bounds(s: Seq<char>, i: nat)
    requires
        i <= s.len(),
    ensures
        i <= skip_ws(s, i) <= s.len(),
    decreases s.len() - i,
{
    if i < s.len() && is_ws_char(s[i as int]) {
        lemma_skip_ws_bounds(s, i + 1);
    }
}

pub proof fn lemma_numeral_end_bounds(s: Seq<char>, i: nat)
    requires
        i <= s.len(),
    ensures
        i <= numeral_end(s, i) <= s.len(),
    decreases s.len() - i,
{
    if i < s.len() && is_numeral_char(s[i as int]) {
        lemma_numeral_end_bounds(s, i + 1);
    }
}

/// One step of the lexer: what it produces from position `pos` and where it
/// stands afterwards. `tok` of `None` means the step fails on `unexpected`.
pub ghost struct LexStep {
    pub pos: nat,
    pub tok: Option<Token>,
    pub unexpected: Option<char>,
}

pub open spec fn lex_step(s: Seq<char>, pos: nat) -> LexStep {
    let j = skip_ws(s, pos);
    if j >= s.len() {
        LexStep { pos: j, tok: Some(Token::EOF), unexpected: None }
    } else {
        let c = s[j as int];
        if is_digit_char(c) {
            let k = numeral_end(s, j + 1);
            match dec_from_numeral(s.subrange(j as int, k as int)) {
                Some(n) => LexStep { pos: k, tok: Some(Token::Number(n)), unexpected: None },
                None => LexStep { pos: k, tok: None, unexpected: Some('.') },
            }
        } else {
            match token_for_symbol(c) {
                Some(t) => LexStep { pos: j + 1, tok: Some(t), unexpected: None },
                None => LexStep { pos: j + 1, tok: None, unexpected: Some(c) },
            }
        }
    }
}

/// Everything the lexer produces from position `pos` on: the tokens, and the
/// character on which it finally stops, if it stops in failure. A run ends
/// either with a single `EOF` token and no rejected character, or at the
/// first failure with no `EOF`.
pub open spec fn lex_all(s: Seq<char>, pos: nat) -> (Seq<Token>, Option<char>)
    decreases s.len() - pos + 1,
        via lex_all_decreases
{
    let st = lex_step(s, pos);
    match st.tok {
        None => (Seq::empty(), st.unexpected),
        Some(t) => if t is EOF {
            (seq![t], None)
        } else {
            let rest = lex_all(s, st.pos);
            (seq![t] + rest.0, rest.1)
        },
    }
}

#[via_fn]
proof fn lex_all_decreases(s: Seq<char>, pos: nat) {
    if pos <= s.len() {
        lemma_skip_ws_bounds(s, pos);
        let j = skip_ws(s, pos);
        if j < s.len() && is_digit_char(s[j as int]) {
            lemma_numeral_end_bounds(s, j + 1);
        }
    }
}

fn is_ws(c: char) -> (r: bool)
    ensures
        r == is_ws_char(c),
{
    c == ' ' || c == '\t' || c == '\n' || c == '\r'
}

fn is_digit(c: char) -> (r: bool)
    ensures
        r == is_digit_char(c),
{
    let u = c as u32;
    48 <= u && u <= 57
}

fn is_num_char(c: char) -> (r: bool)
    ensures
        r == is_numeral_char(c),
{
    is_digit(c) || c == '.'
}

/// A lazy, single-pass, non-restartable lexer over the input characters.
pub struct Tokenizer {
    chars: Vec<char>,
    pos: usize,
    reached_end: bool,
    unexpected_char: Option<char>,
}

impl Tokenizer {
    pub closed spec fn wf(self) -> bool {
        &&& self.pos <= self.chars@.len()
        &&& (!self.reached_end ==> self.unexpected_char is None)
    }

    pub closed spec fn input(self) -> Seq<char> {
        self.chars@
    }

    /// Whether the lexer is terminally exhausted.
    pub closed spec fn is_ended(self) -> bool {
        self.reached_end
    }

    /// The tokens this lexer will still produce.
    pub closed spec fn stream(self) -> Seq<Token> {
        if self.reached_end {
            Seq::empty()
        } else {
            lex_all(self.chars@, self.pos as nat).0
        }
    }

    /// The character on which this lexer will finally stop, if it stops in
    /// failure.
    pub closed spec fn lex_err(self) -> Option<char> {
        if self.reached_end {
            self.unexpected_char
        } else {
            lex_all(self.chars@, self.pos as nat).1
        }
    }

    pub fn new(expression: &str) -> (r: Tokenizer)
        ensures
            r.wf(),
            !r.is_ended(),
            r.input() == expression@,
            r.stream() == lex_all(expression@, 0).0,
            r.lex_err() == lex_all(expression@, 0).1,
    {
        let n = expression.unicode_len();
        let mut chars: Vec<char> = Vec::new();
        let mut i: usize = 0;
        while i < n
            invariant
                i <= n,
                n == expression@.len(),
                chars@ == expression@.subrange(0, i as int),
            decreases n - i,
        {
            let c = expression.get_char(i);
            chars.push(c);
            proof {
                assert(chars@ =~= expression@.subrange(0, i + 1));
            }
            i = i + 1;
        }
        proof {
            assert(chars@ =~= expression@);
        }
        Tokenizer { chars, pos: 0, reached_end: false, unexpected_char: None }
    }

    /// The last rejected character, available once the lexer has stopped.
    pub fn get_unexpected_char(&self) -> (r: Option<char>)
        requires
            self.wf(),
        ensures
            self.is_ended() ==> r == self.lex_err(),
            !self.is_ended() ==> r is None,
    {
        self.unexpected_char
    }

    /// Whether the lexer is terminally exhausted.
    pub fn reached_end(&self) -> (r: bool)
        ensures
            r == self.is_ended(),
    {
        self.reached_end
    }

    /// The next token. The single `EOF` token comes once, when the input is
    /// used up; after it, or after a failure, every call yields `None`.
    pub fn next(&mut self) -> (r: Option<Token>)
        requires
            old(self).wf(),
        ensures
            final(self).wf(),
            final(self).input() == old(self).input(),
            final(self).lex_err() == old(self).lex_err(),
            old(self).is_ended() ==> r is None && final(self).is_ended(),
            match r {
                None => {
                    &&& old(self).stream().len() == 0
                    &&& final(self).is_ended()
                    &&& final(self).stream().len() == 0
                    &&& (!old(self).is_ended() ==> final(self).lex_err() is Some)
                },
                Some(t) => {
                    &&& old(self).stream().len() > 0
                    &&& t == old(self).stream()[0]
                    &&& final(self).stream() == old(self).stream().skip(1)
                    &&& (t is EOF <==> final(self).is_ended())
                    &&& (t matches Token::Number(n) ==> n.wf())
                },
            },
    {
        if self.reached_end {
            return None;
        }
        let ghost s = self.chars@;
        let ghost pos0 = self.pos as nat;
        proof {
            lemma_skip_ws_bounds(s, pos0);
        }
        let mut i: usize = self.pos;
        while i < self.chars.len() && is_ws(self.chars[i])
            invariant
                pos0 <= i <= s.len(),
                self.chars@ == s,
                skip_ws(s, pos0) == skip_ws(s, i as nat),
            decreases s.len() - i,
        {
            i = i + 1;
        }
        proof {
            assert(skip_ws(s, i as nat) == i);
            assert(skip_ws(s, pos0) == i as nat);
        }
        if i == self.chars.len() {
            self.pos = i;
            self.reached_end = true;
            proof {
                assert(old(self).stream() =~= seq![Token::EOF]);
                assert(final(self).stream() =~= old(self).stream().skip(1));
            }
            return Some(Token::EOF);
        }
        let c = self.chars[i];
        if is_digit(c) {
            let start = i;
            let mut j = i + 1;
            proof {
                lemma_numeral_end_bounds(s, (start + 1) as nat);
            }
            while j < self.chars.len() && is_num_char(self.chars[j])
                invariant
                    start + 1 <= j <= s.len(),
                    self.chars@ == s,
                    numeral_end(s, (start + 1) as nat) == numeral_end(s, j as nat),
                decreases s.len() - j,
            {
                j = j + 1;
            }
            proof {
                assert(numeral_end(s, j as nat) == j);
                assert(numeral_end(s, (start + 1) as nat) == j as nat);
            }
            let mut lexeme: Vec<char> = Vec::new();
            let mut k = start;
            while k < j
                invariant
                    start <= k <= j <= s.len(),
                    self.chars@ == s,
                    lexeme@ == s.subrange(start as int, k as int),
                decreases j - k,
            {
                let c2 = self.chars[k];
                lexeme.push(c2);
                proof {
                    assert(lexeme@ =~= s.subrange(start as int, k + 1));
                }
                k = k + 1;
            }
            match num_from_chars(&lexeme) {
                Some(n) => {
                    self.pos = j;
                    proof {
                        assert(old(self).stream() =~= seq![Token::Number(n)] + final(self).stream());
                        assert(final(self).stream() =~= old(self).stream().skip(1));
                    }
                    Some(Token::Number(n))
                },
                None => {
                    self.pos = j;
                    self.unexpected_char = Some('.');
                    self.reached_end = true;
                    None
                },
            }
        } else {
            let sym = match c {
                '+' => Some(Token::Add),
                '-' => Some(Token::Sub),
                '*' => Some(Token::Mul),
                '/' => Some(Token::Div),
                '^' => Some(Token::Caret),
                '(' => Some(Token::LeftParen),
                ')' => Some(Token::RightParen),
                _ => None,
            };
            proof {
                assert(sym == token_for_symbol(c));
            }
            match sym {
                Some(t) => {
                    self.pos = i + 1;
                    proof {
                        assert(old(self).stream() =~= seq![t] + final(self).stream());
                        assert(final(self).stream() =~= old(self).stream().skip(1));
                    }
                    Some(t)
                },
                None => {
                    self.pos = i + 1;
                    self.unexpected_char = Some(c);
                    self.reached_end = true;
                    None
                },
            }
        }
    }
}

} // verus!
