use bytecode_vm::lexer::{Lexer, LexerError};
use bytecode_vm::token::Token;

#[test]
fn keeps_track_of_line_and_column() {
  let test_cases: Vec<(&str, usize, usize)> = vec![
    ("", 1, 0),
    ("abc", 1, 3),
    ("", 1, 0),
    ("a 1 c", 1, 5),
    (
      "let a = 10
let b = 20",
      2,
      10,
    ),
  ];

  for (input, expected_line, expected_column) in test_cases {
    let mut lexer = Lexer::new(String::from(input));

    lexer.lex().ok();

    assert_eq!(lexer.line(), expected_line);
    assert_eq!(lexer.column(), expected_column);
  }
}

#[test]
fn let_statements() {
  let test_cases: Vec<(&str, Vec<Token>)> = vec![
    (
      "let five = 5;",
      vec![
        Token::Let,
        Token::Identifier(String::from("five")),
        Token::Assign,
        Token::Number(String::from("5")),
        Token::Semicolon,
        Token::Eof,
      ],
    ),
    (
      "let ten = 10;",
      vec![
        Token::Let,
        Token::Identifier(String::from("ten")),
        Token::Assign,
        Token::Number(String::from("10")),
        Token::Semicolon,
        Token::Eof,
      ],
    ),
    (
      "let array = [1, 2, 3]",
      vec![
        Token::Let,
        Token::Identifier(String::from("array")),
        Token::Assign,
        Token::LeftBracket,
        Token::Number(String::from("1")),
        Token::Comma,
        Token::Number(String::from("2")),
        Token::Comma,
        Token::Number(String::from("3")),
        Token::RightBracket,
        Token::Eof,
      ],
    ),
  ];

  for (input, expected_tokens) in test_cases {
    let mut lexer = Lexer::new(String::from(input));

    let tokens = lexer
      .lex()
      .unwrap()
      .iter()
      .map(|(token, _location)| token)
      .cloned()
      .collect::<Vec<Token>>();

    assert_eq!(expected_tokens, tokens);
  }
}

#[test]
fn returns_illegal_token_for_illegal_characters() {
  let test_cases: Vec<(&str, Vec<Token>)> = vec![
    ("let ?", vec![Token::Let, Token::Illegal('?'), Token::Eof]),
    ("@", vec![Token::Illegal('@'), Token::Eof]),
    (
      "@@@",
      vec![
        Token::Illegal('@'),
        Token::Illegal('@'),
        Token::Illegal('@'),
        Token::Eof,
      ],
    ),
  ];

  for (input, expected_tokens) in test_cases {
    let mut lexer = Lexer::new(String::from(input));

    let tokens = lexer
      .lex()
      .unwrap()
      .iter()
      .map(|(token, _location)| token)
      .cloned()
      .collect::<Vec<Token>>();

    assert_eq!(expected_tokens, tokens);
  }
}

#[test]
fn single_character_tokens() {
  let test_cases: Vec<(&str, Vec<Token>)> = vec![
    ("=", vec![Token::Assign, Token::Eof]),
    (";", vec![Token::Semicolon, Token::Eof]),
    ("(", vec![Token::LeftParen, Token::Eof]),
    (")", vec![Token::RightParen, Token::Eof]),
    (",", vec![Token::Comma, Token::Eof]),
    ("+", vec![Token::Plus, Token::Eof]),
    ("-", vec![Token::Minus, Token::Eof]),
    ("!", vec![Token::Bang, Token::Eof]),
    ("{", vec![Token::LeftBrace, Token::Eof]),
    ("}", vec![Token::RightBrace, Token::Eof]),
    ("*", vec![Token::Star, Token::Eof]),
    ("/", vec![Token::Slash, Token::Eof]),
    (">", vec![Token::GreaterThan, Token::Eof]),
    ("<", vec![Token::LessThan, Token::Eof]),
    ("[", vec![Token::LeftBracket, Token::Eof]),
    ("]", vec![Token::RightBracket, Token::Eof]),
  ];

  for (input, expected_tokens) in test_cases {
    let mut lexer = Lexer::new(String::from(input));

    let tokens = lexer
      .lex()
      .unwrap()
      .iter()
      .map(|(token, _location)| token)
      .cloned()
      .collect::<Vec<Token>>();

    assert_eq!(expected_tokens, tokens);
  }
}

#[test]
fn double_character_tokens() {
  let test_cases: Vec<(&str, Vec<Token>)> = vec![
    ("==", vec![Token::Equal, Token::Eof]),
    ("!=", vec![Token::NotEqual, Token::Eof]),
    (">=", vec![Token::GreaterThanOrEqual, Token::Eof]),
    ("<=", vec![Token::LessThanOrEqual, Token::Eof]),
  ];

  for (input, expected_tokens) in test_cases {
    let mut lexer = Lexer::new(String::from(input));

    let tokens = lexer
      .lex()
      .unwrap()
      .iter()
      .map(|(token, _location)| token)
      .cloned()
      .collect::<Vec<Token>>();

    assert_eq!(expected_tokens, tokens);
  }
}

#[test]
fn identifiers() {
  let test_cases: Vec<(&str, Vec<Token>)> = vec![
    (
      "hello",
      vec![Token::Identifier(String::from("hello")), Token::Eof],
    ),
    (
      "foo",
      vec![Token::Identifier(String::from("foo")), Token::Eof],
    ),
    (
      "bar",
      vec![Token::Identifier(String::from("bar")), Token::Eof],
    ),
    ("x", vec![Token::Identifier(String::from("x")), Token::Eof]),
    ("y", vec![Token::Identifier(String::from("y")), Token::Eof]),
  ];

  for (input, expected_tokens) in test_cases {
    let mut lexer = Lexer::new(String::from(input));

    let tokens = lexer
      .lex()
      .unwrap()
      .iter()
      .map(|(token, _location)| token)
      .cloned()
      .collect::<Vec<Token>>();

    assert_eq!(expected_tokens, tokens);
  }
}

#[test]
fn keywords_and_special_values() {
  let test_cases: Vec<(&str, Vec<Token>)> = vec![
    ("return", vec![Token::Return, Token::Eof]),
    ("let", vec![Token::Let, Token::Eof]),
    ("fn", vec![Token::Function, Token::Eof]),
    ("true", vec![Token::True, Token::Eof]),
    ("false", vec![Token::False, Token::Eof]),
    ("if", vec![Token::If, Token::Eof]),
    ("else", vec![Token::Else, Token::Eof]),
    (
      "if(x > 3) {}",
      vec![
        Token::If,
        Token::LeftParen,
        Token::Identifier(String::from("x")),
        Token::GreaterThan,
        Token::Number(String::from("3")),
        Token::RightParen,
        Token::LeftBrace,
        Token::RightBrace,
        Token::Eof,
      ],
    ),
    (
      "if(x > 3) { a } else { b }",
      vec![
        Token::If,
        Token::LeftParen,
        Token::Identifier(String::from("x")),
        Token::GreaterThan,
        Token::Number(String::from("3")),
        Token::RightParen,
        Token::LeftBrace,
        Token::Identifier(String::from("a")),
        Token::RightBrace,
        Token::Else,
        Token::LeftBrace,
        Token::Identifier(String::from("b")),
        Token::RightBrace,
        Token::Eof,
      ],
    ),
  ];

  for (input, expected_tokens) in test_cases {
    let mut lexer = Lexer::new(String::from(input));

    let tokens = lexer
      .lex()
      .unwrap()
      .iter()
      .map(|(token, _location)| token)
      .cloned()
      .collect::<Vec<Token>>();

    assert_eq!(expected_tokens, tokens);
  }
}

#[test]
fn numbers() {
  let test_cases: Vec<(&str, Vec<Token>)> = vec![
    ("10", vec![Token::Number(String::from("10")), Token::Eof]),
    ("0", vec![Token::Number(String::from("0")), Token::Eof]),
    (
      "4124421311",
      vec![Token::Number(String::from("4124421311")), Token::Eof],
    ),
    ("1.0", vec![Token::Number(String::from("1.0")), Token::Eof]),
    ("0.5", vec![Token::Number(String::from("0.5")), Token::Eof]),
    (
      "432342343.43",
      vec![Token::Number(String::from("432342343.43")), Token::Eof],
    ),
    (
      "-0.5",
      vec![Token::Minus, Token::Number(String::from("0.5")), Token::Eof],
    ),
    (
      "-0",
      vec![Token::Minus, Token::Number(String::from("0")), Token::Eof],
    ),
    (
      "-241249129414141241.512521521512",
      vec![
        Token::Minus,
        Token::Number(String::from("241249129414141241.512521521512")),
        Token::Eof,
      ],
    ),
    (
      "-59.42",
      vec![
        Token::Minus,
        Token::Number(String::from("59.42")),
        Token::Eof,
      ],
    ),
  ];

  for (input, expected_tokens) in test_cases {
    let mut lexer = Lexer::new(String::from(input));

    let tokens = lexer
      .lex()
      .unwrap()
      .iter()
      .map(|(token, _location)| token)
      .cloned()
      .collect::<Vec<Token>>();

    assert_eq!(expected_tokens, tokens);
  }
}

#[test]
fn strings() {
  let test_cases: Vec<(&str, Vec<Token>)> = vec![
    (
      r#""10""#,
      vec![Token::String(String::from("10")), Token::Eof],
    ),
    (
      r#""hello world""#,
      vec![Token::String(String::from("hello world")), Token::Eof],
    ),
    (
      r#""-421894124128""#,
      vec![Token::String(String::from("-421894124128")), Token::Eof],
    ),
    (
      r#""let f = fn(x) { f() }""#,
      vec![
        Token::String(String::from("let f = fn(x) { f() }")),
        Token::Eof,
      ],
    ),
  ];

  for (input, expected_tokens) in test_cases {
    let mut lexer = Lexer::new(String::from(input));

    let tokens = lexer
      .lex()
      .unwrap()
      .iter()
      .map(|(token, _location)| token)
      .cloned()
      .collect::<Vec<Token>>();

    assert_eq!(expected_tokens, tokens);
  }
}

#[test]
fn lexer_errors() {
  let test_cases: Vec<(&str, Vec<LexerError>)> = vec![(
    r#""10"#,
    vec![LexerError {
      line: 1,
      column: 3,
      message: String::from(r#"unterminated string: "10"#),
    }],
  )];

  for (input, expected_errors) in test_cases {
    let mut lexer = Lexer::new(String::from(input));

    assert_eq!(Err(expected_errors), lexer.lex());
  }
}
