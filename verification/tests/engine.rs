use expressive_physics::parsing::Parser;
use expressive_physics::parsing::ParsingError;
use expressive_physics::parsing::VariableContext;
use expressive_physics::tokening::Token;
use expressive_physics::tokening::Tokenizer;
use expressive_physics::tokening::TokenizerError;

fn tokens_of(text: &str) -> Vec<Token> {
    Tokenizer::tokenize(text).expect("expected the text to tokenize")
}

fn eval(text: &str, context: &VariableContext) -> Result<f32, ParsingError> {
    Parser::parse(&tokens_of(text), context).map(f32::from_bits)
}

fn context_of(bindings: &[(&str, f32)]) -> VariableContext {
    let mut context = VariableContext::new();
    for (name, value) in bindings {
        context.insert(String::from(*name), value.to_bits());
    }
    context
}

#[test]
fn tokenize_simple_sum() {
    let tokens = tokens_of("1 + 2");
    assert_eq!(
        tokens,
        vec![
            Token::Value(1f32.to_bits()),
            Token::Operator('+'),
            Token::Value(2f32.to_bits()),
        ]
    );
}

#[test]
fn tokenize_decimal_literal() {
    // Would fail if the float parsing behind tokenize handed anything but the
    // single-precision value of the literal back.
    let tokens = tokens_of("34.5");
    assert_eq!(tokens, vec![Token::Value(34.5f32.to_bits())]);
}

#[test]
fn tokenize_variable_name_kept_verbatim() {
    // Would fail if accumulating the lexeme dropped or changed characters.
    let tokens = tokens_of("lambda3");
    assert_eq!(tokens, vec![Token::Variable(String::from("lambda3"))]);
}

#[test]
fn tokenize_full_formula() {
    let tokens = tokens_of("(34.5 + (12)) / 51.725 - 3 * (lambda3 / 10 - offset0) + offset1");
    assert_eq!(
        tokens,
        vec![
            Token::Parenthesis(true),
            Token::Value(34.5f32.to_bits()),
            Token::Operator('+'),
            Token::Parenthesis(true),
            Token::Value(12f32.to_bits()),
            Token::Parenthesis(false),
            Token::Parenthesis(false),
            Token::Operator('/'),
            Token::Value(51.725f32.to_bits()),
            Token::Operator('-'),
            Token::Value(3f32.to_bits()),
            Token::Operator('*'),
            Token::Parenthesis(true),
            Token::Variable(String::from("lambda3")),
            Token::Operator('/'),
            Token::Value(10f32.to_bits()),
            Token::Operator('-'),
            Token::Variable(String::from("offset0")),
            Token::Parenthesis(false),
            Token::Operator('+'),
            Token::Variable(String::from("offset1")),
        ]
    );
}

#[test]
fn tokenize_output_parens_balanced() {
    // On a valid balanced input the emitted parenthesis tokens are balanced:
    // the running depth never drops below zero and ends at zero.
    let tokens = tokens_of("(34.5 + (12)) / 51.725 - 3 * (lambda3 / 10 - offset0) + offset1");
    let mut depth: i64 = 0;
    for token in &tokens {
        match token {
            Token::Parenthesis(true) => depth += 1,
            Token::Parenthesis(false) => {
                depth -= 1;
                assert!(depth >= 0);
            }
            _ => {}
        }
    }
    assert_eq!(depth, 0);
}

#[test]
fn tokenize_empty_text() {
    assert_eq!(tokens_of(""), vec![]);
}

#[test]
fn tokenize_blanks_do_not_end_a_lexeme() {
    // A blank is skipped in every state, so it does not flush the lexeme
    // being accumulated: "1 2" scans as the single literal 12.
    assert_eq!(tokens_of("1 2"), vec![Token::Value(12f32.to_bits())]);
}

#[test]
fn tokenize_double_operator_position() {
    let r = Tokenizer::tokenize("3 + + 2");
    assert!(matches!(r, Err(TokenizerError::UnexpectedOperator(4))));
}

#[test]
fn tokenize_leading_star_rejected_lexically() {
    // A leading operator other than the minus is rejected by the scanner
    // itself, at the operator's position: it never reaches the evaluator's
    // unary path.
    let r = Tokenizer::tokenize("* 5");
    assert!(matches!(r, Err(TokenizerError::UnexpectedOperator(0))));
    let p = Tokenizer::tokenize("+ 5");
    assert!(matches!(p, Err(TokenizerError::UnexpectedOperator(0))));
}

#[test]
fn tokenize_leading_minus_accepted() {
    // The one operator admitted in leading position: the unary minus.
    let tokens = tokens_of("-5");
    assert_eq!(
        tokens,
        vec![Token::Operator('-'), Token::Value(5f32.to_bits())]
    );
}

#[test]
fn tokenize_unmatched_open_at_end_of_input() {
    let r = Tokenizer::tokenize("(3 + 2");
    assert!(matches!(r, Err(TokenizerError::UnmatchedParenthesis(6))));
}

#[test]
fn tokenize_unmatched_close_at_its_position() {
    let r = Tokenizer::tokenize("3 + 2)");
    assert!(matches!(r, Err(TokenizerError::UnmatchedParenthesis(5))));
}

#[test]
fn tokenize_too_many_dots() {
    let r = Tokenizer::tokenize("3..4");
    assert!(matches!(r, Err(TokenizerError::TooManyDots(2))));
}

#[test]
fn tokenize_error_reported_at_end_of_input() {
    // The fault is recorded one character before it is reported; when the
    // offending dot is the last character, the post-scan check returns it.
    let r = Tokenizer::tokenize("3..");
    assert!(matches!(r, Err(TokenizerError::TooManyDots(2))));
}

#[test]
fn tokenize_unmatched_close_overrides_recorded_fault() {
    // A recorded fault is returned when the next non-blank character is
    // processed — unless that character is a closing parenthesis at depth
    // zero, which takes over with its own fault.
    let r = Tokenizer::tokenize("3.. )");
    assert!(matches!(r, Err(TokenizerError::UnmatchedParenthesis(4))));
}

#[test]
fn tokenize_leading_dot() {
    let r = Tokenizer::tokenize(".5");
    assert!(matches!(r, Err(TokenizerError::UnexpectedDot(0))));
}

#[test]
fn tokenize_dot_in_variable_name() {
    let r = Tokenizer::tokenize("a.b");
    assert!(matches!(r, Err(TokenizerError::UnexpectedDot(1))));
}

#[test]
fn tokenize_open_paren_after_number() {
    // No implicit multiplication.
    let r = Tokenizer::tokenize("3(1 + 2)");
    assert!(matches!(r, Err(TokenizerError::UnexpectedParenthesis(1))));
}

#[test]
fn tokenize_invalid_character() {
    let r = Tokenizer::tokenize("3 # 4");
    assert!(matches!(r, Err(TokenizerError::InvalidCharacter(2))));
}

#[test]
fn parse_full_formula_round_trip() {
    let context = context_of(&[("lambda3", 2.0), ("offset0", 1.0), ("offset1", 5.0)]);
    let r = eval(
        "(34.5 + (12)) / 51.725 - 3 * (lambda3 / 10 - offset0) + offset1",
        &context,
    );
    let expected = (34.5f32 + 12f32) / 51.725f32 - 3f32 * (2f32 / 10f32 - 1f32) + 5f32;
    assert_eq!(r.unwrap().to_bits(), expected.to_bits());
}

#[test]
fn parse_nested_division() {
    let context = context_of(&[("x0", 6.0), ("x1", 10.0)]);
    let r = eval("x0 * (10 / (x1+2))", &context).unwrap();
    let expected = 6f32 * (10f32 / (10f32 + 2f32));
    assert_eq!(r.to_bits(), expected.to_bits());
    assert!((r - 5.0).abs() < 1e-5);
}

#[test]
fn parse_addition() {
    assert_eq!(eval("1 + 2", &context_of(&[])).unwrap(), 3.0);
}

#[test]
fn parse_subtraction() {
    assert_eq!(eval("5 - 2", &context_of(&[])).unwrap(), 3.0);
}

#[test]
fn parse_multiplication() {
    assert_eq!(eval("4 * 2.5", &context_of(&[])).unwrap(), 10.0);
}

#[test]
fn parse_division() {
    assert_eq!(eval("5 / 2", &context_of(&[])).unwrap(), 2.5);
}

#[test]
fn parse_left_associative_chain() {
    // The rightmost operator of equal priority splits first, folding the
    // chain left to right: 10 - 4 - 3 is (10 - 4) - 3, not 10 - (4 - 3).
    assert_eq!(eval("10 - 4 - 3", &context_of(&[])).unwrap(), 3.0);
}

#[test]
fn parse_precedence_without_parens() {
    assert_eq!(eval("2 + 3 * 4", &context_of(&[])).unwrap(), 14.0);
}

#[test]
fn parse_comparisons_yield_one_or_zero() {
    let context = context_of(&[]);
    assert_eq!(eval("5 > 2", &context).unwrap(), 1.0);
    assert_eq!(eval("5 < 2", &context).unwrap(), 0.0);
    assert_eq!(eval("1 < 2", &context).unwrap(), 1.0);
    assert_eq!(eval("3 > 4", &context).unwrap(), 0.0);
}

#[test]
fn parse_comparison_binds_loosest() {
    // 1 + 1 > 3 reads as (1 + 1) > 3.
    assert_eq!(eval("1 + 1 > 3", &context_of(&[])).unwrap(), 0.0);
}

#[test]
fn parse_unary_minus() {
    assert_eq!(eval("-5 + 2", &context_of(&[])).unwrap(), -3.0);
    assert_eq!(eval("-5", &context_of(&[])).unwrap(), -5.0);
}

#[test]
fn parse_division_by_zero_yields_infinity() {
    // IEEE semantics, not an error: DivisionByZero is never raised.
    let r = eval("5/0", &context_of(&[])).unwrap();
    assert_eq!(r, f32::INFINITY);
    let n = eval("-5/0", &context_of(&[])).unwrap();
    assert_eq!(n, f32::NEG_INFINITY);
}

#[test]
fn parse_missing_variable_named_exactly() {
    let r = Parser::parse(&tokens_of("x + offset9"), &context_of(&[("x", 1.0)]));
    match r {
        Err(ParsingError::MissingVariableInContext(name)) => assert_eq!(name, "offset9"),
        other => panic!("expected a missing-variable fault, got {other:?}"),
    }
}

#[test]
fn parse_variable_resolution() {
    let context = context_of(&[("px", 2.5), ("vy", -1.5)]);
    assert_eq!(eval("px + vy", &context).unwrap(), 1.0);
}

#[test]
fn parse_shadowed_binding_uses_newest_value() {
    let mut context = context_of(&[("x", 1.0)]);
    context.insert(String::from("x"), 7f32.to_bits());
    assert_eq!(eval("x", &context).unwrap(), 7.0);
}

#[test]
fn parse_empty_token_sequence() {
    let r = Parser::parse(&Vec::new(), &context_of(&[]));
    assert!(matches!(r, Err(ParsingError::EmptyTokenData)));
}

#[test]
fn parse_trailing_operator() {
    let r = Parser::parse(&tokens_of("5 -"), &context_of(&[]));
    assert!(matches!(r, Err(ParsingError::EmptyTokenData)));
}

#[test]
fn parse_bare_parens_are_not_a_value() {
    let r = Parser::parse(&tokens_of("()"), &context_of(&[]));
    assert!(matches!(r, Err(ParsingError::NotAValue)));
}

#[test]
fn parse_unknown_operator_token() {
    let tokens = vec![
        Token::Value(1f32.to_bits()),
        Token::Operator('%'),
        Token::Value(2f32.to_bits()),
    ];
    let r = Parser::parse(&tokens, &context_of(&[]));
    assert!(matches!(r, Err(ParsingError::UnknownOperator('%'))));
}

#[test]
fn parse_invalid_unary_operator() {
    // Only a minus realizes the unary case; a star with nothing before it in
    // the token sequence is refused.
    let tokens = vec![Token::Operator('*'), Token::Value(5f32.to_bits())];
    let r = Parser::parse(&tokens, &context_of(&[]));
    assert!(matches!(r, Err(ParsingError::InvalidUnaryOperator('*'))));
}

#[test]
fn parse_parenthesized_value() {
    assert_eq!(eval("(3)", &context_of(&[])).unwrap(), 3.0);
}

#[test]
fn parse_doubly_parenthesized_lone_value() {
    // The shape handling of an operator-free range inspects only its ends
    // and its second token: a lone value behind two parenthesis pairs is out
    // of its reach and reports NotAValue.
    let r = Parser::parse(&tokens_of("((3))"), &context_of(&[]));
    assert!(matches!(r, Err(ParsingError::NotAValue)));
}

#[test]
fn parse_twice_is_bit_identical() {
    let tokens = tokens_of("(34.5 + (12)) / 51.725 - 3 * (lambda3 / 10 - offset0) + offset1");
    let context = context_of(&[("lambda3", 0.1), ("offset0", -7.25), ("offset1", 42.0)]);
    let first = Parser::parse(&tokens, &context).unwrap();
    let second = Parser::parse(&tokens, &context).unwrap();
    assert_eq!(first, second);
}

#[test]
fn context_lookup_is_read_only() {
    let context = context_of(&[("x", 3.0)]);
    let tokens = tokens_of("x * x");
    assert_eq!(
        Parser::parse(&tokens, &context).unwrap(),
        9f32.to_bits()
    );
    // The context still answers as before: evaluation did not mutate it.
    assert_eq!(context.get(&String::from("x")), Some(3f32.to_bits()));
}

#[test]
fn context_get_unbound_name() {
    let context = context_of(&[("x", 3.0)]);
    assert_eq!(context.get(&String::from("y")), None);
}
