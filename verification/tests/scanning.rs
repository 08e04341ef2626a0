use rjlox::scanner::{keyword, numbers_equal, Literal, Scanner, Token, TokenType};

fn scan(source: &str) -> Vec<Result<Token, String>> {
    let mut scanner = Scanner::new(source);
    scanner.scan_tokens().clone()
}

fn kinds(source: &str) -> Vec<TokenType> {
    scan(source).into_iter().map(|t| t.expect("a token").token).collect()
}

fn places(source: &str) -> Vec<(String, usize, usize)> {
    scan(source)
        .into_iter()
        .map(|t| {
            let t = t.expect("a token");
            (t.lexeme, t.line, t.column)
        })
        .collect()
}

fn place(lexeme: &str, line: usize, column: usize) -> (String, usize, usize) {
    (lexeme.to_string(), line, column)
}

#[test]
fn empty_text_gives_only_the_end() {
    let tokens = scan("");
    assert_eq!(tokens.len(), 1);
    let end = tokens[0].clone().unwrap();
    assert_eq!(end.token, TokenType::Eof);
    assert_eq!(end.lexeme, "");
    assert_eq!(end.literal, Literal::Nil);
    assert_eq!((end.line, end.column), (1, 0));
}

#[test]
fn single_character_tokens() {
    assert_eq!(kinds("(){},.-+;*/"), vec![
        TokenType::LeftParen,
        TokenType::RightParen,
        TokenType::LeftBrace,
        TokenType::RightBrace,
        TokenType::Comma,
        TokenType::Dot,
        TokenType::Minus,
        TokenType::Plus,
        TokenType::Semicolon,
        TokenType::Star,
        TokenType::Slash,
        TokenType::Eof,
    ]);
}

#[test]
fn one_or_two_character_tokens() {
    assert_eq!(kinds("! != = == < <= > >="), vec![
        TokenType::Bang,
        TokenType::BangEqual,
        TokenType::Equal,
        TokenType::EqualEqual,
        TokenType::Less,
        TokenType::LessEqual,
        TokenType::Greater,
        TokenType::GreaterEqual,
        TokenType::Eof,
    ]);
    assert_eq!(places("a != b"), vec![
        place("a", 1, 1),
        place("!=", 1, 3),
        place("b", 1, 6),
        place("", 1, 6),
    ]);
    assert_eq!(kinds("!!=="), vec![
        TokenType::Bang,
        TokenType::BangEqual,
        TokenType::Equal,
        TokenType::Eof
    ]);
}

#[test]
fn keywords_and_identifiers() {
    assert_eq!(
        kinds("and class else false for fun if nil or print return super this true var while"),
        vec![
            TokenType::And,
            TokenType::Class,
            TokenType::Else,
            TokenType::False,
            TokenType::For,
            TokenType::Fun,
            TokenType::If,
            TokenType::Nil,
            TokenType::Or,
            TokenType::Print,
            TokenType::Return,
            TokenType::Super,
            TokenType::This,
            TokenType::True,
            TokenType::Var,
            TokenType::While,
            TokenType::Eof,
        ]
    );
    assert_eq!(kinds("classy _x a1 é_2 nilly"), vec![
        TokenType::Identifier,
        TokenType::Identifier,
        TokenType::Identifier,
        TokenType::Identifier,
        TokenType::Identifier,
        TokenType::Eof,
    ]);
    assert_eq!(places("classy _x a1"), vec![
        place("classy", 1, 1),
        place("_x", 1, 8),
        place("a1", 1, 11),
        place("", 1, 12),
    ]);
    assert_eq!(keyword("while"), TokenType::While);
    assert_eq!(keyword("whil"), TokenType::Identifier);
}

#[test]
fn numbers_carry_their_text() {
    let tokens = scan("12 3.25 4. .5 6.x");
    let got: Vec<(TokenType, String, usize)> = tokens
        .into_iter()
        .map(|t| {
            let t = t.unwrap();
            assert_eq!(t.literal, Literal::Nil);
            (t.token, t.lexeme, t.column)
        })
        .collect();
    let want = vec![
        (TokenType::Number, "12", 1),
        (TokenType::Number, "3.25", 4),
        (TokenType::Number, "4", 9),
        (TokenType::Dot, ".", 10),
        (TokenType::Dot, ".", 12),
        (TokenType::Number, "5", 13),
        (TokenType::Number, "6", 15),
        (TokenType::Dot, ".", 16),
        (TokenType::Identifier, "x", 17),
        (TokenType::Eof, "", 17),
    ];
    let want: Vec<(TokenType, String, usize)> =
        want.into_iter().map(|(k, l, c)| (k, l.to_string(), c)).collect();
    assert_eq!(got, want);
}

#[test]
fn strings_carry_their_text_as_payload() {
    let tokens = scan("print \"hi there\";");
    let string = tokens[1].clone().unwrap();
    assert_eq!(string.token, TokenType::String);
    assert_eq!(string.lexeme, "hi there");
    assert_eq!(string.literal, Literal::String("hi there".to_string()));
    assert_eq!((string.line, string.column), (1, 7));
    let semicolon = tokens[2].clone().unwrap();
    assert_eq!((semicolon.line, semicolon.column), (1, 17));
    let empty = scan("\"\"")[0].clone().unwrap();
    assert_eq!(empty.lexeme, "");
    assert_eq!(empty.literal, Literal::String(String::new()));
}

#[test]
fn a_string_may_span_lines() {
    assert_eq!(places("\"a\nbc\" x\ny"), vec![
        place("a\nbc", 1, 1),
        place("x", 2, 5),
        place("y", 3, 1),
        place("", 3, 1),
    ]);
}

#[test]
fn unterminated_string_is_an_error() {
    let tokens = scan("var s = \"abc");
    assert_eq!(tokens.len(), 5);
    assert_eq!(
        tokens[3],
        Err("[line 1:9] Error: Unterminated string.".to_string())
    );
    assert_eq!(tokens[4].clone().unwrap().token, TokenType::Eof);
}

#[test]
fn unexpected_character_is_an_error_and_scanning_goes_on() {
    let tokens = scan("a @ b\n#");
    assert_eq!(tokens.len(), 5);
    assert_eq!(tokens[1], Err("[line 1:3] Error: Unexpected character.".to_string()));
    assert_eq!(tokens[2].clone().unwrap().lexeme, "b");
    assert_eq!(tokens[3], Err("[line 2:1] Error: Unexpected character.".to_string()));
}

#[test]
fn comments_and_blank_space_give_no_tokens() {
    assert_eq!(places("a // b c\n  d / e // end"), vec![
        place("a", 1, 1),
        place("d", 2, 3),
        place("/", 2, 5),
        place("e", 2, 7),
        place("", 3, 0),
    ]);
    assert_eq!(kinds(" \t\r\n"), vec![TokenType::Eof]);
}

#[test]
fn lines_are_counted() {
    assert_eq!(places("a\nb\n\nc"), vec![
        place("a", 1, 1),
        place("b", 2, 1),
        place("c", 4, 1),
        place("", 4, 1),
    ]);
}

#[test]
fn scanning_again_adds_only_the_end() {
    let mut scanner = Scanner::new("a");
    assert_eq!(scanner.scan_tokens().len(), 2);
    assert_eq!(scanner.scan_tokens().len(), 3);
    assert_eq!(scanner.tokens().len(), 3);
}

#[test]
fn numbers_compare_as_doubles() {
    let nan = f64::NAN.to_bits();
    let zero = 0.0f64.to_bits();
    let minus_zero = (-0.0f64).to_bits();
    let one = 1.0f64.to_bits();
    let infinity = f64::INFINITY.to_bits();
    assert!(!numbers_equal(nan, nan));
    assert!(!numbers_equal(nan, one));
    assert!(numbers_equal(zero, minus_zero));
    assert!(numbers_equal(minus_zero, zero));
    assert!(numbers_equal(one, one));
    assert!(!numbers_equal(one, zero));
    assert!(numbers_equal(infinity, infinity));
    assert!(!numbers_equal(infinity, f64::NEG_INFINITY.to_bits()));
    for (a, b) in [(1.5f64, 1.5f64), (1.5, 2.5), (-3.0, 3.0), (f64::MAX, f64::MAX), (f64::MIN_POSITIVE, 0.0)] {
        assert_eq!(numbers_equal(a.to_bits(), b.to_bits()), a == b);
    }
}

#[test]
fn literals_compare_by_value_and_identity() {
    use_literals();
}

fn use_literals() {
    let text = |s: &str| Literal::String(s.to_string());
    assert_eq!(Literal::Nil, Literal::Nil);
    assert_ne!(Literal::Nil, Literal::Boolean(false));
    assert_ne!(Literal::Boolean(false), Literal::Nil);
    assert_eq!(text("a"), text("a"));
    assert_ne!(text("a"), text("b"));
    assert_ne!(text("1"), Literal::Double(1.0f64.to_bits()));
    assert_eq!(Literal::LoxInstance(3), Literal::LoxInstance(3));
    assert_ne!(Literal::LoxInstance(3), Literal::LoxInstance(4));
    assert_eq!(text("a").clone(), text("a"));
}

#[test]
fn a_word_moves_the_column_by_its_bytes() {
    assert_eq!(places("é x"), vec![place("é", 1, 1), place("x", 1, 4), place("", 1, 4)]);
    assert_eq!(places("日本 = 1"), vec![
        place("日本", 1, 1),
        place("=", 1, 8),
        place("1", 1, 10),
        place("", 1, 10),
    ]);
    assert_eq!(places("\"é\" x"), vec![place("é", 1, 1), place("x", 1, 5), place("", 1, 5)]);
}
