use scriptvm::lexer::{is_id, is_num, read_num, read_reserved, tokenize, LexError, Reserved, Token};

fn assert_tokens(l: &Vec<Token>, r: &Vec<Token>) {
    assert_eq!(l.len(), r.len());
    for (i, lt) in l.iter().enumerate() {
        assert_eq!(lt, &r[i]);
    }
}

#[test]
fn test_lex_if_block() {
    assert_tokens(
        &tokenize(
            "
        if (true) }
            print(\"-a+\", 1);
        {
    ",
        )
        .unwrap(),
        &vec![
            Token::Reserved(Reserved::If),
            Token::LeftParenthesis,
            Token::Reserved(Reserved::True),
            Token::RightParenthesis,
            Token::RightBrace,
            Token::Identifier("print".into()),
            Token::LeftParenthesis,
            Token::String("-a+".into()),
            Token::Comma,
            Token::Number(1),
            Token::RightParenthesis,
            Token::LeftBrace,
        ],
    )
}

#[test]
fn test_lex_if_else() {
    assert_tokens(
        &tokenize(
            "
        let a = 1;
        if (a == 1) {
            a = b + 1;
        } else if (a == 2) {
            a = b * 2 - b / 2;
        }
    ",
        )
        .unwrap(),
        &vec![
            Token::Reserved(Reserved::Let),
            Token::Identifier("a".into()),
            Token::Assign,
            Token::Number(1),
            Token::Reserved(Reserved::If),
            Token::LeftParenthesis,
            Token::Identifier("a".into()),
            Token::Equal,
            Token::Number(1),
            Token::RightParenthesis,
            Token::LeftBrace,
            Token::Identifier("a".into()),
            Token::Assign,
            Token::Identifier("b".into()),
            Token::OpsAdd,
            Token::Number(1),
            Token::RightBrace,
            Token::Reserved(Reserved::Else),
            Token::Reserved(Reserved::If),
            Token::LeftParenthesis,
            Token::Identifier("a".into()),
            Token::Equal,
            Token::Number(2),
            Token::RightParenthesis,
            Token::LeftBrace,
            Token::Identifier("a".into()),
            Token::Assign,
            Token::Identifier("b".into()),
            Token::OpsMul,
            Token::Number(2),
            Token::OpsSub,
            Token::Identifier("b".into()),
            Token::OpsDiv,
            Token::Number(2),
            Token::RightBrace,
        ],
    )
}

#[test]
fn test_lex_function() {
    assert_tokens(
        &tokenize(
            "
        function add(a, b) {
            return a + b;
        }

        let c = add(1, 2)
    ",
        )
        .unwrap(),
        &vec![
            Token::Reserved(Reserved::Function),
            Token::Identifier("add".into()),
            Token::LeftParenthesis,
            Token::Identifier("a".into()),
            Token::Comma,
            Token::Identifier("b".into()),
            Token::RightParenthesis,
            Token::LeftBrace,
            Token::Reserved(Reserved::Return),
            Token::Identifier("a".into()),
            Token::OpsAdd,
            Token::Identifier("b".into()),
            Token::RightBrace,
            Token::Reserved(Reserved::Let),
            Token::Identifier("c".into()),
            Token::Assign,
            Token::Identifier("add".into()),
            Token::LeftParenthesis,
            Token::Number(1),
            Token::Comma,
            Token::Number(2),
            Token::RightParenthesis,
        ],
    )
}

#[test]
fn test_lex_single_assign() {
    assert_tokens(
        &tokenize("let _a_0 = -12;").unwrap(),
        &vec![
            Token::Reserved(Reserved::Let),
            Token::Identifier("_a_0".into()),
            Token::Assign,
            Token::Number(-12),
        ],
    )
}

#[test]
fn lex_minus_after_operand_is_subtraction() {
    let expected = vec![Token::Identifier("a".into()), Token::OpsSub, Token::Number(1)];
    assert_tokens(&tokenize("a -1").unwrap(), &expected);
    assert_tokens(&tokenize("a-1").unwrap(), &expected);
    assert_tokens(&tokenize("a - 1").unwrap(), &expected);
    assert_tokens(
        &tokenize("f(-1)").unwrap(),
        &vec![
            Token::Identifier("f".into()),
            Token::LeftParenthesis,
            Token::Number(-1),
            Token::RightParenthesis,
        ],
    );
}

#[test]
fn lex_fraction_is_refused() {
    assert_eq!(tokenize("let a = 1.2;"), Err(LexError::BadNumber(8)));
}

#[test]
fn lex_unclosed_string() {
    assert_eq!(tokenize("let s = \"abc"), Err(LexError::UnclosedString(8)));
}

#[test]
fn lex_unexpected_char() {
    assert_eq!(tokenize("a # b"), Err(LexError::UnexpectedChar('#', 2)));
}

#[test]
fn lex_number_too_large() {
    assert_eq!(tokenize("9223372036854775807"), Ok(vec![Token::Number(9223372036854775807)]));
    assert_eq!(tokenize("9223372036854775808"), Err(LexError::BadNumber(0)));
}

#[test]
fn lex_equal_and_assign_at_end() {
    assert_eq!(tokenize("a == b ="), Ok(vec![
        Token::Identifier("a".into()),
        Token::Equal,
        Token::Identifier("b".into()),
        Token::Assign,
    ]));
}

#[test]
fn char_classes() {
    assert!(is_num('7', false));
    assert!(is_num('.', false));
    assert!(is_num('-', true));
    assert!(!is_num('-', false));
    assert!(is_id('_', true));
    assert!(!is_id('1', true));
    assert!(is_id('1', false));
}

#[test]
fn reserved_words() {
    assert_eq!(read_reserved(&"return".to_string()), Some(Token::Reserved(Reserved::Return)));
    assert_eq!(read_reserved(&"returns".to_string()), None);
}

#[test]
fn read_num_stops_at_non_digit() {
    let chars: Vec<char> = "42+".chars().collect();
    assert_eq!(read_num(&chars, 0), Ok((Token::Number(42), 2)));
}
