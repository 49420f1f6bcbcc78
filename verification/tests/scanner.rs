use lox_vm::scanner::{Scanner, Token, TokenType};

fn scan_all(source: &str) -> Vec<Token> {
    let mut scanner = Scanner::new(source.to_string());
    let mut tokens = Vec::new();
    loop {
        let token = scanner.scan_token();
        let done = token.token_type == TokenType::Eof;
        tokens.push(token);
        if done {
            return tokens;
        }
    }
}

fn kinds(source: &str) -> Vec<TokenType> {
    scan_all(source).iter().map(|t| t.token_type).collect()
}

fn lexemes(source: &str) -> Vec<String> {
    scan_all(source).iter().map(|t| t.lexeme.clone()).collect()
}

#[test]
fn end_of_input_repeats() {
    let mut scanner = Scanner::new("1  \n ".to_string());
    assert_eq!(scanner.scan_token().token_type, TokenType::Number);
    for _ in 0..5 {
        let token = scanner.scan_token();
        assert_eq!(token.token_type, TokenType::Eof);
        assert_eq!(token.lexeme, "");
        assert_eq!(token.line, 2);
    }
}

#[test]
fn empty_source_is_end_of_input() {
    let mut scanner = Scanner::new(String::new());
    let token = scanner.scan_token();
    assert_eq!(token.token_type, TokenType::Eof);
    assert_eq!(token.line, 1);
    assert_eq!(scanner.scan_token().token_type, TokenType::Eof);
}

#[test]
fn punctuation() {
    assert_eq!(
        kinds("(){};,.-+/*"),
        vec![
            TokenType::LeftParen,
            TokenType::RightParen,
            TokenType::LeftBrace,
            TokenType::RightBrace,
            TokenType::Semicolon,
            TokenType::Comma,
            TokenType::Dot,
            TokenType::Minus,
            TokenType::Plus,
            TokenType::Slash,
            TokenType::Star,
            TokenType::Eof
        ]
    );
}

#[test]
fn one_and_two_character_operators() {
    assert_eq!(
        kinds("! != = == < <= > >="),
        vec![
            TokenType::Bang,
            TokenType::BangEqual,
            TokenType::Equal,
            TokenType::EqualEqual,
            TokenType::Less,
            TokenType::LessEqual,
            TokenType::Greater,
            TokenType::GreaterEqual,
            TokenType::Eof
        ]
    );
    assert_eq!(lexemes("!==="), vec!["!=", "==", ""]);
    assert_eq!(kinds("<"), vec![TokenType::Less, TokenType::Eof]);
}

#[test]
fn numbers() {
    assert_eq!(lexemes("12 3.5 0.25"), vec!["12", "3.5", "0.25", ""]);
    assert_eq!(
        kinds("12."),
        vec![TokenType::Number, TokenType::Dot, TokenType::Eof]
    );
    assert_eq!(lexemes("12."), vec!["12", ".", ""]);
    assert_eq!(lexemes("1.2.3"), vec!["1.2", ".", "3", ""]);
    assert_eq!(
        kinds(".5"),
        vec![TokenType::Dot, TokenType::Number, TokenType::Eof]
    );
}

#[test]
fn strings() {
    let tokens = scan_all("\"ab\ncd\" x");
    assert_eq!(tokens[0].token_type, TokenType::String);
    assert_eq!(tokens[0].lexeme, "\"ab\ncd\"");
    assert_eq!(tokens[0].line, 2);
    assert_eq!(tokens[1].token_type, TokenType::Identifier);
    assert_eq!(tokens[1].line, 2);
    assert_eq!(lexemes("\"\""), vec!["\"\"", ""]);
}

#[test]
fn unterminated_string_is_an_error_token() {
    let tokens = scan_all("1 \"abc\n");
    assert_eq!(tokens[1].token_type, TokenType::Error);
    assert_eq!(tokens[1].lexeme, "Unterminated string.");
    assert_eq!(tokens[1].line, 2);
    assert_eq!(tokens[2].token_type, TokenType::Eof);
}

#[test]
fn unexpected_character_is_an_error_token_and_scanning_goes_on() {
    let tokens = scan_all("1 @ 2 #");
    assert_eq!(
        tokens.iter().map(|t| t.token_type).collect::<Vec<_>>(),
        vec![
            TokenType::Number,
            TokenType::Error,
            TokenType::Number,
            TokenType::Error,
            TokenType::Eof
        ]
    );
    assert_eq!(tokens[1].lexeme, "Unexpected character.");
    assert_eq!(tokens[3].lexeme, "Unexpected character.");
}

#[test]
fn non_ascii_characters_are_unexpected() {
    assert_eq!(
        kinds("é1"),
        vec![TokenType::Error, TokenType::Number, TokenType::Eof]
    );
}

#[test]
fn keywords() {
    assert_eq!(
        kinds("and class else false for fun if nil or print return super this true var while"),
        vec![
            TokenType::And,
            TokenType::Class,
            TokenType::Else,
            TokenType::False,
            TokenType::For,
            TokenType::Fun,
            TokenType::If,
            TokenType::Nil,
            TokenType::Or,
            TokenType::Print,
            TokenType::Return,
            TokenType::Super,
            TokenType::This,
            TokenType::True,
            TokenType::Var,
            TokenType::While,
            TokenType::Eof
        ]
    );
}

#[test]
fn near_keywords_are_identifiers() {
    for word in [
        "an", "andy", "a", "classy", "f", "fa", "fals", "falsey", "fo", "fu", "fort", "i", "iff",
        "nill", "o", "orb", "prin", "returns", "sup", "t", "th", "thi", "tr", "tru", "trues",
        "va", "vars", "whil", "whiles", "And", "_and", "x1", "_", "nil_", "t2",
    ] {
        let tokens = scan_all(word);
        assert_eq!(tokens[0].token_type, TokenType::Identifier, "{}", word);
        assert_eq!(tokens[0].lexeme, word);
        assert_eq!(tokens.len(), 2);
    }
}

#[test]
fn identifiers_take_digits_and_underscores() {
    assert_eq!(lexemes("ab_1c+d2"), vec!["ab_1c", "+", "d2", ""]);
}

#[test]
fn comments_run_to_the_end_of_the_line() {
    let tokens = scan_all("1 // two 2\n// only\n3 / 4 //");
    assert_eq!(
        tokens.iter().map(|t| t.lexeme.as_str()).collect::<Vec<_>>(),
        vec!["1", "3", "/", "4", ""]
    );
    assert_eq!(tokens[1].line, 3);
    assert_eq!(tokens[4].line, 3);
}

#[test]
fn lines_are_counted_from_one() {
    let tokens = scan_all("a\nb\r\n\n\tc");
    assert_eq!(tokens.iter().map(|t| t.line).collect::<Vec<_>>(), vec![1, 2, 4, 4]);
}

#[test]
fn token_clone_keeps_the_fields() {
    let tokens = scan_all("abc");
    let copy = tokens[0].clone();
    assert_eq!(copy.token_type, tokens[0].token_type);
    assert_eq!(copy.lexeme, "abc");
    assert_eq!(copy.line, 1);
}
