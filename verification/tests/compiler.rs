use lox_vm::compiler::{
    compile, get_rule, number_lexemes, CompileFailed, InfixAction, Precedence, PrefixAction,
};
use lox_vm::opcode::OpCode;
use lox_vm::scanner::TokenType;

fn bits(values: &[f64]) -> Vec<u64> {
    values.iter().map(|v| v.to_bits()).collect()
}

fn diagnostic(source: &str, numbers: &[f64]) -> String {
    match compile(source.to_string(), &bits(numbers)) {
        Err(CompileFailed::Syntax(d)) => d.render(),
        Err(other) => panic!("unexpected failure {:?}", other),
        Ok(_) => panic!("the source compiled"),
    }
}

#[test]
fn number_lexemes_in_order() {
    assert_eq!(number_lexemes("1 + 2.50 * (x - 30)"), vec!["1", "2.50", "30"]);
    assert_eq!(number_lexemes(""), Vec::<String>::new());
    assert_eq!(number_lexemes("12. 3"), vec!["12", "3"]);
    assert_eq!(number_lexemes("\"1\" 2 // 3"), vec!["2"]);
}

#[test]
fn missing_operand_is_reported_at_end() {
    assert_eq!(diagnostic("1 +", &[1.0]), "[line 1] Error at end: Expect expression.");
    assert_eq!(diagnostic("", &[]), "[line 1] Error at end: Expect expression.");
}

#[test]
fn missing_parenthesis_is_reported() {
    assert_eq!(
        diagnostic("(1 + 2", &[1.0, 2.0]),
        "[line 1] Error at end: Expect ')' after expression."
    );
    assert_eq!(
        diagnostic("(1 2)", &[1.0, 2.0]),
        "[line 1] Error at '2': Expect ')' after expression."
    );
}

#[test]
fn trailing_input_is_reported() {
    assert_eq!(diagnostic("1 2", &[1.0, 2.0]), "[line 1] Error at '2': Expect end of expression.");
    assert_eq!(
        diagnostic("1\n\n)", &[1.0]),
        "[line 3] Error at ')': Expect end of expression."
    );
}

#[test]
fn token_without_prefix_rule_is_reported() {
    assert_eq!(diagnostic("* 2", &[2.0]), "[line 1] Error at '*': Expect expression.");
    assert_eq!(diagnostic("1 + true", &[1.0]), "[line 1] Error at 'true': Expect expression.");
}

#[test]
fn lexical_errors_are_reported_with_their_own_message() {
    assert_eq!(diagnostic("1 + @", &[1.0]), "[line 1] Error: Unexpected character.");
    assert_eq!(diagnostic("\n\"abc", &[]), "[line 2] Error: Unterminated string.");
}

#[test]
fn only_the_first_error_is_reported() {
    assert_eq!(diagnostic("@ + ) (", &[]), "[line 1] Error: Unexpected character.");
    assert_eq!(diagnostic("(1 + ) 2 @", &[1.0, 2.0]), "[line 1] Error at ')': Expect expression.");
}

#[test]
fn operators_without_rule_end_the_expression() {
    assert_eq!(diagnostic("1 < 2", &[1.0, 2.0]), "[line 1] Error at '<': Expect end of expression.");
}

#[test]
fn too_many_constants_fail_the_unit() {
    let mut source = String::from("1");
    let mut numbers = vec![1.0];
    for _ in 0..255 {
        source.push_str(" + 1");
        numbers.push(1.0);
    }
    let chunk = compile(source.clone(), &bits(&numbers)).expect("256 constants fit");
    assert_eq!(chunk.constants().count(), 256);
    source.push_str(" + 1");
    numbers.push(1.0);
    assert!(matches!(
        compile(source, &bits(&numbers)),
        Err(CompileFailed::TooManyConstants)
    ));
}

#[test]
fn missing_number_is_reported() {
    assert!(matches!(
        compile("1 + 2".to_string(), &bits(&[1.0])),
        Err(CompileFailed::MissingNumber(1))
    ));
    assert!(matches!(compile("7".to_string(), &bits(&[])), Err(CompileFailed::MissingNumber(0))));
}

#[test]
fn surplus_numbers_are_ignored() {
    let chunk = compile("7".to_string(), &bits(&[7.0, 8.0])).unwrap();
    assert_eq!(chunk.constants().count(), 1);
}

#[test]
fn precedence_order() {
    let order = [
        Precedence::Lowest,
        Precedence::Assignment,
        Precedence::Or,
        Precedence::And,
        Precedence::Equality,
        Precedence::Comparison,
        Precedence::Term,
        Precedence::Factor,
        Precedence::Unary,
        Precedence::Call,
        Precedence::Primary,
    ];
    for (i, p) in order.iter().enumerate() {
        assert_eq!(p.level() as usize, i);
        let next = if i + 1 < order.len() { order[i + 1] } else { Precedence::Primary };
        assert_eq!(p.next(), next);
    }
}

#[test]
fn rule_table() {
    let minus = get_rule(TokenType::Minus);
    assert_eq!(minus.prefix, Some(PrefixAction::Unary(OpCode::Negate)));
    assert_eq!(minus.infix, Some(InfixAction::Binary(OpCode::Subtract)));
    assert_eq!(minus.precedence, Precedence::Term);
    let star = get_rule(TokenType::Star);
    assert_eq!(star.prefix, None);
    assert_eq!(star.infix, Some(InfixAction::Binary(OpCode::Multiply)));
    assert_eq!(star.precedence, Precedence::Factor);
    assert_eq!(get_rule(TokenType::Plus).infix, Some(InfixAction::Binary(OpCode::Add)));
    assert_eq!(get_rule(TokenType::Slash).infix, Some(InfixAction::Binary(OpCode::Divide)));
    assert_eq!(get_rule(TokenType::LeftParen).prefix, Some(PrefixAction::Grouping));
    assert_eq!(get_rule(TokenType::Number).prefix, Some(PrefixAction::Number));
    let eof = get_rule(TokenType::Eof);
    assert_eq!(eof.prefix, None);
    assert_eq!(eof.infix, None);
    assert_eq!(eof.precedence, Precedence::Lowest);
}
