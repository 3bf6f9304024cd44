use calc::number::Number;
use calc::token::Token;
use calc::tokenizer::Tokenizer;

fn num(mantissa: i128, scale: u32) -> Number {
    Number::from_parts(mantissa, scale).unwrap()
}

fn collect_tokens(tokenizer: &mut Tokenizer) -> Vec<Token> {
    let mut out = Vec::new();
    while let Some(t) = tokenizer.next() {
        out.push(t);
    }
    out
}

#[test]
fn test_add_sub() {
    let mut tokenizer = Tokenizer::new(" 1+ 2   - 4 ");
    assert_eq!(
        collect_tokens(&mut tokenizer),
        vec![
            Token::Number(num(1, 0)),
            Token::Add,
            Token::Number(num(2, 0)),
            Token::Sub,
            Token::Number(num(4, 0)),
            Token::EOF
        ]
    );
}

#[test]
fn tokenizer_test_all() {
    let mut tokenizer = Tokenizer::new(" (1 + 2 ^ 5) / 9 *12.4 ");
    assert_eq!(
        collect_tokens(&mut tokenizer),
        vec![
            Token::LeftParen,
            Token::Number(num(1, 0)),
            Token::Add,
            Token::Number(num(2, 0)),
            Token::Caret,
            Token::Number(num(5, 0)),
            Token::RightParen,
            Token::Div,
            Token::Number(num(9, 0)),
            Token::Mul,
            Token::Number(num(124, 1)),
            Token::EOF
        ]
    );
}

#[test]
fn test_number_error() {
    let mut tokenizer = Tokenizer::new(" 1+ 2.3.4");
    assert_eq!(
        collect_tokens(&mut tokenizer),
        vec![Token::Number(num(1, 0)), Token::Add]
    );
    assert_eq!(tokenizer.get_unexpected_char(), Some('.'));
    assert!(tokenizer.reached_end());
}

#[test]
fn test_number_multi_zero() {
    let mut tokenizer = Tokenizer::new(" 1+ 0000.4");
    assert_eq!(
        collect_tokens(&mut tokenizer),
        vec![
            Token::Number(num(1, 0)),
            Token::Add,
            Token::Number(num(4, 1)),
            Token::EOF
        ]
    );
}

#[test]
fn eof_comes_exactly_once() {
    let mut tokenizer = Tokenizer::new("12");
    assert_eq!(tokenizer.next(), Some(Token::Number(num(12, 0))));
    assert_eq!(tokenizer.next(), Some(Token::EOF));
    assert!(tokenizer.reached_end());
    assert_eq!(tokenizer.next(), None);
    assert_eq!(tokenizer.next(), None);
}

#[test]
fn rejected_character_is_kept() {
    let mut tokenizer = Tokenizer::new("1 + a");
    assert_eq!(tokenizer.next(), Some(Token::Number(num(1, 0))));
    assert_eq!(tokenizer.next(), Some(Token::Add));
    assert_eq!(tokenizer.next(), None);
    assert_eq!(tokenizer.get_unexpected_char(), Some('a'));
    assert!(tokenizer.reached_end());
}

#[test]
fn tokens_render_and_retokenize() {
    let tokens = vec![
        Token::LeftParen,
        Token::Number(num(1, 0)),
        Token::Add,
        Token::Number(num(124, 1)),
        Token::RightParen,
        Token::Mul,
        Token::Number(num(9, 0)),
        Token::Div,
        Token::Number(num(5, 0)),
        Token::Caret,
        Token::Number(num(2, 0)),
        Token::Sub,
        Token::Number(num(3, 0)),
    ];
    let mut rendered = String::new();
    for t in &tokens {
        rendered.push_str(t.to_text().as_str());
        rendered.push(' ');
    }
    let mut tokenizer = Tokenizer::new(rendered.as_str());
    let mut expected = tokens.clone();
    expected.push(Token::EOF);
    assert_eq!(collect_tokens(&mut tokenizer), expected);
}

#[test]
fn number_text_keeps_the_decimal_point() {
    assert_eq!(Token::Number(num(124, 1)).to_text(), "12.4");
    assert_eq!(Token::Number(num(-4, 1)).to_text(), "-0.4");
    assert_eq!(Token::Caret.to_text(), "^");
}
