use riolox::text::{chars_of, same_text};
use riolox::token::{digit, digits_end, Numeral, Token, TokenLiteral, TokenType};

#[test]
fn reserved_words_have_their_own_kinds() {
    let table = [
        ("and", TokenType::And),
        ("class", TokenType::Class),
        ("else", TokenType::Else),
        ("false", TokenType::False),
        ("for", TokenType::For),
        ("fun", TokenType::Fun),
        ("if", TokenType::If),
        ("nil", TokenType::Nil),
        ("or", TokenType::Or),
        ("print", TokenType::Print),
        ("return", TokenType::Return),
        ("super", TokenType::Super),
        ("this", TokenType::This),
        ("true", TokenType::True),
        ("var", TokenType::Var),
        ("while", TokenType::While),
    ];
    for (word, kind) in table {
        assert_eq!(TokenType::from(word), kind);
    }
    for (i, (_, a)) in table.iter().enumerate() {
        for (_, b) in table.iter().skip(i + 1) {
            assert_ne!(a, b);
        }
    }
}

#[test]
fn other_words_are_identifiers() {
    for word in ["witam", "witam2", "", "An", "and ", "whilewhile", "nill", "tru", "éclair"] {
        assert_eq!(TokenType::from(word), TokenType::Identifier, "word {:?}", word);
    }
}

#[test]
fn numerals_are_digits_with_at_most_one_inner_point() {
    for text in ["0", "7", "123", "123.5", "0.0", "007", "1.000", "45.67"] {
        let numeral = Numeral::new(text);
        assert!(numeral.is_some(), "text {:?}", text);
        assert_eq!(numeral.unwrap().text(), text);
    }
    for text in ["", ".", "1.", ".5", "1..5", "1.5.2", "-1", "+1", "1e5", "1 ", " 1", "a", "1a", "٣", "1.٣"] {
        assert!(Numeral::new(text).is_none(), "text {:?}", text);
    }
}

#[test]
fn every_numeral_parses_as_a_number() {
    for text in ["0", "123", "123.5", "0.25", "00012.50"] {
        let numeral = Numeral::new(text).unwrap();
        assert!(numeral.text().parse::<f64>().is_ok());
    }
    assert_eq!(Numeral::new("00012.50").unwrap().text().parse::<f64>().unwrap(), 12.5);
}

#[test]
fn numerals_clone_and_compare() {
    let a = Numeral::new("1.5").unwrap();
    assert_eq!(a.clone(), a);
    assert_ne!(a, Numeral::new("1.50").unwrap());
}

#[test]
fn token_new_carries_a_text() {
    let token = Token::new(TokenType::Minus, "-".to_owned(), "-", 4);
    assert_eq!(token.token_type(), &TokenType::Minus);
    assert_eq!(token.literal(), &TokenLiteral::Str("-".to_owned()));
    assert_eq!(token.lexeme(), "-");
    assert_eq!(token.line(), 4);
}

#[test]
fn token_with_value_carries_the_literal() {
    let literal = TokenLiteral::Num(Numeral::new("2.5").unwrap());
    let token = Token::with_value(TokenType::Number, literal.clone(), "2.5", 9);
    assert_eq!(token.token_type(), &TokenType::Number);
    assert_eq!(token.literal(), &literal);
    assert_eq!(token.lexeme(), "2.5");
    assert_eq!(token.line(), 9);

    let token = Token::with_value(TokenType::True, TokenLiteral::Bool(true), "true", 1);
    assert_eq!(token.literal(), &TokenLiteral::Bool(true));
}

#[test]
fn tokens_clone() {
    let token = Token::with_value(
        TokenType::String,
        TokenLiteral::Str("a b".to_owned()),
        "\"a b\"",
        2,
    );
    let copy = token.clone();
    assert_eq!(copy.token_type(), token.token_type());
    assert_eq!(copy.literal(), token.literal());
    assert_eq!(copy.lexeme(), token.lexeme());
    assert_eq!(copy.line(), token.line());
}

#[test]
fn digits_are_zero_to_nine() {
    for c in '0'..='9' {
        assert!(digit(c));
    }
    for c in ['/', ':', 'a', ' ', '٣', '²', '.'] {
        assert!(!digit(c), "char {:?}", c);
    }
}

#[test]
fn digits_end_finds_the_end_of_the_run() {
    let chars: Vec<char> = "12a345".chars().collect();
    assert_eq!(digits_end(&chars, 0), 2);
    assert_eq!(digits_end(&chars, 2), 2);
    assert_eq!(digits_end(&chars, 3), 6);
    assert_eq!(digits_end(&chars, 6), 6);
}

#[test]
fn chars_of_gives_the_characters() {
    assert_eq!(chars_of("aż\n1"), vec!['a', 'ż', '\n', '1']);
    assert_eq!(chars_of(""), Vec::<char>::new());
}

#[test]
fn same_text_compares_characters() {
    assert!(same_text("", ""));
    assert!(same_text("while", "while"));
    assert!(same_text("żółw", "żółw"));
    assert!(!same_text("while", "whale"));
    assert!(!same_text("whil", "while"));
    assert!(!same_text("while", "whil"));
    assert!(!same_text("a", ""));
}
