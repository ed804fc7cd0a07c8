use monkey::ast::Node;
use monkey::lexer::Lexer;
use monkey::parser::{integer_value, parse_program, Parser};
use monkey::token::Kind;
use monkey::util::{Context, MultiError, ParseError, SyntaxError};

fn errors_of(input: &str) -> Vec<SyntaxError> {
    match Parser::new(Lexer::new(input)).parse() {
        Ok(program) => panic!("{:?} parsed: {:?}", input, program.statements),
        Err(errors) => errors.into_vec(),
    }
}

fn expression_error(error: ParseError) -> SyntaxError {
    SyntaxError { context: Context::Expression, error }
}

#[test]
fn integer_literal_out_of_range() {
    assert_eq!(errors_of("9223372036854775808;"), vec![expression_error(ParseError::InvalidInteger)]);
    assert_eq!(errors_of("99999999999999999999999;"), vec![expression_error(ParseError::InvalidInteger)]);
}

#[test]
fn integer_literal_with_digits_outside_ascii() {
    assert_eq!(errors_of("٣;"), vec![expression_error(ParseError::InvalidInteger)]);
}

#[test]
fn integer_values() {
    assert_eq!(integer_value(&"0".to_string()), Some(0));
    assert_eq!(integer_value(&"007".to_string()), Some(7));
    assert_eq!(integer_value(&"9223372036854775807".to_string()), Some(i64::MAX));
    assert_eq!(integer_value(&"9223372036854775808".to_string()), None);
    assert_eq!(integer_value(&"".to_string()), None);
    assert_eq!(integer_value(&"1a".to_string()), None);
    assert_eq!(integer_value(&"-1".to_string()), None);
}

#[test]
fn let_without_name_or_assign() {
    assert_eq!(
        errors_of("let = 5;"),
        vec![SyntaxError {
            context: Context::Let,
            error: ParseError::UnexpectedToken { expected: Kind::Ident, actual: Kind::Assign },
        }]
    );
    assert_eq!(
        errors_of("let x 5;"),
        vec![SyntaxError {
            context: Context::Let,
            error: ParseError::UnexpectedToken { expected: Kind::Assign, actual: Kind::Int },
        }]
    );
    assert_eq!(
        errors_of("let"),
        vec![SyntaxError { context: Context::Let, error: ParseError::UnexpectedEnd }]
    );
}

#[test]
fn trailing_comma_in_parameters() {
    assert_eq!(
        errors_of("fn(a,) {};"),
        vec![expression_error(ParseError::UnexpectedToken {
            expected: Kind::Ident,
            actual: Kind::RightParen,
        })]
    );
}

#[test]
fn function_body_must_be_braced() {
    assert_eq!(
        errors_of("fn(a) a;"),
        vec![expression_error(ParseError::UnexpectedToken {
            expected: Kind::LeftBrace,
            actual: Kind::Ident,
        })]
    );
}

#[test]
fn missing_closing_parenthesis_of_predicate() {
    assert_eq!(
        errors_of("if (x { x }"),
        vec![expression_error(ParseError::UnexpectedToken {
            expected: Kind::RightParen,
            actual: Kind::LeftBrace,
        })]
    );
}

#[test]
fn input_ends_inside_open_constructs() {
    assert_eq!(errors_of("fn(x) { x"), vec![expression_error(ParseError::UnexpectedEnd)]);
    assert_eq!(errors_of("5 +"), vec![expression_error(ParseError::UnexpectedEnd)]);
    assert_eq!(errors_of("add(1, 2"), vec![expression_error(ParseError::UnexpectedEnd)]);
    assert_eq!(errors_of("if (x"), vec![expression_error(ParseError::UnexpectedEnd)]);
}

#[test]
fn no_prefix_rule() {
    assert_eq!(
        errors_of("&;"),
        vec![expression_error(ParseError::NoPrefixRule { kind: Kind::Illegal })]
    );
    assert_eq!(
        errors_of("else;"),
        vec![expression_error(ParseError::NoPrefixRule { kind: Kind::Else })]
    );
}

#[test]
fn several_malformed_statements_are_all_reported() {
    let errors = errors_of("let = 1; ) ; let x 2; foo; * 3;");
    assert_eq!(errors.len(), 4);
    let contexts: Vec<Context> = errors.iter().map(|e| e.context).collect();
    assert_eq!(contexts, vec![Context::Let, Context::Expression, Context::Let, Context::Expression]);
}

#[test]
fn failed_statements_inside_a_block_do_not_end_it() {
    let errors = errors_of("fn() { ); x; ) }; y;");
    assert_eq!(
        errors,
        vec![
            expression_error(ParseError::NoPrefixRule { kind: Kind::RightParen }),
            expression_error(ParseError::NoPrefixRule { kind: Kind::RightParen }),
        ]
    );
}

#[test]
fn recovery_skips_whole_blocks() {
    let errors = errors_of("if (x <) { a; b; }; c;");
    assert_eq!(errors, vec![expression_error(ParseError::NoPrefixRule { kind: Kind::RightParen })]);
}

#[test]
fn parse_program_from_source() {
    match parse_program("a; b") {
        Ok(program) => assert_eq!(
            program.statements,
            vec![Node::Identifier { value: "a".into() }, Node::Identifier { value: "b".into() }]
        ),
        Err(err) => panic!("{:?}", err),
    }
    assert!(parse_program(")").is_err());
}

#[test]
fn multi_error_collects_in_order() {
    let mut errors = MultiError::new();
    assert_eq!(errors.len(), 0);
    errors.push(expression_error(ParseError::InvalidInteger));
    errors.push(SyntaxError { context: Context::Let, error: ParseError::UnexpectedEnd });
    assert_eq!(errors.len(), 2);
    assert_eq!(errors.get(1).context, Context::Let);
    assert_eq!(errors.into_vec()[0], expression_error(ParseError::InvalidInteger));
}

#[test]
fn messages_name_the_statement_and_the_problem() {
    let err = SyntaxError {
        context: Context::Let,
        error: ParseError::UnexpectedToken { expected: Kind::Ident, actual: Kind::Int },
    };
    assert_eq!(err.message(), "'let' statement: expected Ident, got Int");
    assert_eq!(
        expression_error(ParseError::NoPrefixRule { kind: Kind::RightParen }).message(),
        "expression statement: no prefix parse rule for token RightParen"
    );
    assert_eq!(
        SyntaxError { context: Context::Return, error: ParseError::UnexpectedEnd }.message(),
        "'return' statement: unexpected end of input"
    );
    assert_eq!(
        expression_error(ParseError::InvalidInteger).message(),
        "expression statement: integer literal is not a 64-bit signed integer"
    );
    assert_eq!(
        expression_error(ParseError::NoInfixRule { kind: Kind::Comma }).message(),
        "expression statement: no infix parse rule for token Comma"
    );
}

#[test]
fn report_has_one_line_per_error() {
    match parse_program("let = 1; );") {
        Ok(_) => panic!("parsed"),
        Err(errors) => assert_eq!(
            errors.report(),
            "  -> 'let' statement: expected Ident, got Assign\n  -> expression statement: no prefix parse rule for token RightParen\n"
        ),
    }
    assert_eq!(MultiError::new().report(), "");
}

#[test]
fn failure_on_the_closing_brace_ends_the_block_there() {
    assert_eq!(
        errors_of("fn() { 5 + }; 7;"),
        vec![expression_error(ParseError::NoPrefixRule { kind: Kind::RightBrace })]
    );
    assert_eq!(
        errors_of("fn() { 5 + };"),
        vec![expression_error(ParseError::NoPrefixRule { kind: Kind::RightBrace })]
    );
}

#[test]
fn malformed_statements_among_well_formed_ones() {
    let errors = errors_of("1; 5 + ; a b; let x 3; ok; fn(a,) 2; f(1, 2 3); -x;");
    assert_eq!(
        errors,
        vec![
            expression_error(ParseError::NoPrefixRule { kind: Kind::Semicolon }),
            SyntaxError {
                context: Context::Let,
                error: ParseError::UnexpectedToken { expected: Kind::Assign, actual: Kind::Int },
            },
            expression_error(ParseError::UnexpectedToken {
                expected: Kind::Ident,
                actual: Kind::RightParen,
            }),
            expression_error(ParseError::UnexpectedToken {
                expected: Kind::RightParen,
                actual: Kind::Int,
            }),
        ]
    );
}
