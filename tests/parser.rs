use monkey::ast::{Infix, Node, Prefix, Program};
use monkey::lexer::Lexer;
use monkey::parser::Parser;

fn parse_ok(input: &str) -> Vec<Node> {
    match Parser::new(Lexer::new(input)).parse() {
        Ok(Program { statements }) => statements,
        Err(err) => panic!("parsing {:?}: {:?}", input, err),
    }
}

fn ident(name: &str) -> Node {
    Node::Identifier { value: name.to_string() }
}

#[test]
fn let_statement() {
    let input: &'static str = r#"
            let five = 5;
            let ten = 10;
        "#;
    let want = vec![
        Node::Let { name: "five".to_string(), value: Box::new(Node::Placeholder) },
        Node::Let { name: "ten".to_string(), value: Box::new(Node::Placeholder) },
    ];
    let mut parser = Parser::new(Lexer::new(input));
    let Program { statements } = parser.parse().map_err(|err| format!("parsing: {:?}", err)).unwrap();
    assert_eq!(want.len(), statements.len());
    assert_eq!(want, statements);
}

#[test]
fn return_statement() {
    let input: &'static str = r#"
            return a + b;
            return 10;
            return "oof";
        "#;
    let want = vec![
        Node::Return { value: Box::new(Node::Placeholder) },
        Node::Return { value: Box::new(Node::Placeholder) },
        Node::Return { value: Box::new(Node::Placeholder) },
    ];
    let mut parser = Parser::new(Lexer::new(input));
    match parser.parse() {
        Ok(Program { statements }) => {
            assert_eq!(want.len(), statements.len());
            assert_eq!(want, statements);
        }
        Err(err) => {
            panic!("{:?}", err);
        }
    }
}

#[test]
fn expressions() {
    let input: &'static str = r#"
            foo;
            5;
        "#;
    let want = vec![Node::Identifier { value: "foo".to_owned() }, Node::Int(5)];
    let mut parser = Parser::new(Lexer::new(input));
    match parser.parse() {
        Ok(Program { statements }) => {
            assert_eq!(want.len(), statements.len());
            assert_eq!(want, statements);
        }
        Err(err) => {
            panic!("{:?}", err);
        }
    }
}

#[test]
fn prefix() {
    let input: &'static str = r#"
            !foo;
            -5;
            !true;
            !false;
        "#;
    let want = vec![
        Node::Prefix {
            operator: Prefix::Not,
            value: Box::new(Node::Identifier { value: "foo".to_owned() }),
        },
        Node::Prefix { operator: Prefix::Negative, value: Box::new(Node::Int(5)) },
        Node::Prefix { operator: Prefix::Not, value: Box::new(Node::Boolean(true)) },
        Node::Prefix { operator: Prefix::Not, value: Box::new(Node::Boolean(false)) },
    ];
    let mut parser = Parser::new(Lexer::new(input));
    match parser.parse() {
        Ok(Program { statements }) => {
            assert_eq!(want.len(), statements.len());
            assert_eq!(want, statements);
        }
        Err(err) => {
            panic!("{:?}", err);
        }
    }
}

#[test]
fn infix() {
    let int_infix = |operator: Infix| Node::Infix {
        left: Box::new(Node::Int(5)),
        operator,
        right: Box::new(Node::Int(5)),
    };
    let bool_infix = |l: bool, operator: Infix, r: bool| Node::Infix {
        left: Box::new(Node::Boolean(l)),
        operator,
        right: Box::new(Node::Boolean(r)),
    };
    let tests = vec![
        ("5 + 5;", int_infix(Infix::Add)),
        ("5 - 5;", int_infix(Infix::Subtract)),
        ("5 * 5;", int_infix(Infix::Multiply)),
        ("5 / 5;", int_infix(Infix::Divide)),
        ("5 > 5;", int_infix(Infix::GreaterThan)),
        ("5 < 5;", int_infix(Infix::LessThan)),
        ("5 == 5;", int_infix(Infix::Eq)),
        ("5 != 5;", int_infix(Infix::NotEq)),
        ("true != false;", bool_infix(true, Infix::NotEq, false)),
        ("true == true;", bool_infix(true, Infix::Eq, true)),
        ("false == false;", bool_infix(false, Infix::Eq, false)),
    ];
    for (ii, test) in tests.iter().enumerate() {
        let statements = match Parser::new(Lexer::new(test.0)).parse() {
            Ok(Program { statements }) => statements,
            Err(err) => panic!("{}: {:?}", ii, err),
        };
        if statements.len() != 1 {
            panic!("wrong number of statements: want 1, got {}", statements.len());
        }
        let got = &statements[0];
        if *got != test.1 {
            panic!("{}: want {:?}, got {:?}, input: {}", ii, test.1, got, test.0);
        }
    }
}

#[test]
fn precedence() {
    let tests = vec![
        ("-a * b;", "((-a) * b)"),
        ("!-a;", "(!(-a))"),
        ("a + b * c;", "(a + (b * c))"),
        ("a * b * c;", "((a * b) * c)"),
        ("a + b / c;", "(a + (b / c))"),
        ("a / b / c;", "((a / b) / c)"),
        ("5 > 4 == 3 < 4;", "((5 > 4) == (3 < 4))"),
        ("a + b * c + d / e - f;", "(((a + (b * c)) + (d / e)) - f)"),
        ("3 + 4; -5 * 5;", "(3 + 4)((-5) * 5)"),
        ("5 < 4 != 3 > 4;", "((5 < 4) != (3 > 4))"),
        ("3 + 4 * 5 == 3 * 1 + 4 * 5;", "((3 + (4 * 5)) == ((3 * 1) + (4 * 5)))"),
        ("true;", "true"),
        ("false;", "false"),
        ("3 > 5 == false;", "((3 > 5) == false)"),
        ("3 < 5 == true;", "((3 < 5) == true)"),
    ];
    for (ii, test) in tests.iter().enumerate() {
        let program = match Parser::new(Lexer::new(test.0)).parse() {
            Ok(p) => p,
            Err(err) => panic!("{}: {:?}", ii, err),
        };
        assert_eq!(program.to_string(), test.1, "{}: input {:?}", ii, test.0);
    }
}

#[test]
fn if_expression() {
    let input = "if (x < y) { x };";
    let want = Node::If {
        predicate: Box::new(Node::Infix {
            left: Box::new(Node::Identifier { value: "x".into() }),
            operator: Infix::LessThan,
            right: Box::new(Node::Identifier { value: "y".into() }),
        }),
        success: Box::new(Node::Block(vec![Node::Identifier { value: "x".into() }])),
        fail: None,
    };
    let program = match Parser::new(Lexer::new(input)).parse() {
        Ok(p) => p,
        Err(err) => panic!("parsing if statement: {:?}", err),
    };
    assert!(program.statements.len() == 1);
    assert!(program.statements[0] == want);
}

#[test]
fn if_else_expression() {
    let input = "if (x < y) { x } else { y };";
    let want = Node::If {
        predicate: Box::new(Node::Infix {
            left: Box::new(Node::Identifier { value: "x".into() }),
            operator: Infix::LessThan,
            right: Box::new(Node::Identifier { value: "y".into() }),
        }),
        success: Box::new(Node::Block(vec![Node::Identifier { value: "x".into() }])),
        fail: Some(Box::new(Node::Block(vec![Node::Identifier { value: "y".into() }]))),
    };
    let program = match Parser::new(Lexer::new(input)).parse() {
        Ok(p) => p,
        Err(err) => panic!("parsing if statement: {:?}", err),
    };
    assert!(program.statements.len() == 1);
    assert!(program.statements[0] == want);
}

#[test]
fn function_literal() {
    let tests = vec![
        (
            "fn(x, y) { return x + y; };",
            Node::Function {
                parameters: vec![
                    Node::Identifier { value: "x".into() },
                    Node::Identifier { value: "y".into() },
                ],
                body: Box::new(Node::Block(vec![Node::Return { value: Box::new(Node::Placeholder) }])),
            },
        ),
        ("fn() {};", Node::Function { parameters: vec![], body: Box::new(Node::Block(vec![])) }),
        (
            "fn(x) {};",
            Node::Function {
                parameters: vec![Node::Identifier { value: "x".into() }],
                body: Box::new(Node::Block(vec![])),
            },
        ),
        (
            "fn(x, y, z) {};",
            Node::Function {
                parameters: vec![
                    Node::Identifier { value: "x".into() },
                    Node::Identifier { value: "y".into() },
                    Node::Identifier { value: "z".into() },
                ],
                body: Box::new(Node::Block(vec![])),
            },
        ),
    ];
    for (input, want) in tests {
        let program = match Parser::new(Lexer::new(input)).parse() {
            Ok(p) => p,
            Err(err) => panic!("parsing function literal: {:?}", err),
        };
        assert!(program.statements.len() == 1);
        assert!(program.statements[0] == want, "{:?} \n--- \n{:?}", program.statements[0], want);
    }
}

#[test]
fn function_call() {
    let tests = vec![
        (
            "foo();",
            Node::Call { function: Box::new(Node::Identifier { value: "foo".into() }), arguments: vec![] },
        ),
        (
            "add(1, 2);",
            Node::Call {
                function: Box::new(Node::Identifier { value: "add".into() }),
                arguments: vec![Node::Int(1), Node::Int(2)],
            },
        ),
        (
            "add(1, fn() { return 1; });",
            Node::Call {
                function: Box::new(Node::Identifier { value: "add".into() }),
                arguments: vec![
                    Node::Int(1),
                    Node::Function {
                        parameters: vec![],
                        body: Box::new(Node::Block(vec![Node::Return {
                            value: Box::new(Node::Placeholder),
                        }])),
                    },
                ],
            },
        ),
        (
            "fn(a, b) { return a + b; }(1, 2);",
            Node::Call {
                function: Box::new(Node::Function {
                    parameters: vec![
                        Node::Identifier { value: "a".into() },
                        Node::Identifier { value: "b".into() },
                    ],
                    body: Box::new(Node::Block(vec![Node::Return {
                        value: Box::new(Node::Placeholder),
                    }])),
                }),
                arguments: vec![Node::Int(1), Node::Int(2)],
            },
        ),
    ];
    for (input, want) in tests {
        let program = match Parser::new(Lexer::new(input)).parse() {
            Ok(p) => p,
            Err(err) => panic!("parsing function call: {:?}", err),
        };
        assert!(program.statements.len() == 1);
        assert!(program.statements[0] == want, "want {:?}\n got {:?}\n", want, program.statements[0]);
    }
}

#[test]
fn if_else_structure_scenario() {
    let statements = parse_ok("if (x < y) { x } else { y };");
    assert_eq!(
        statements,
        vec![Node::If {
            predicate: Box::new(Node::Infix {
                left: Box::new(ident("x")),
                operator: Infix::LessThan,
                right: Box::new(ident("y")),
            }),
            success: Box::new(Node::Block(vec![ident("x")])),
            fail: Some(Box::new(Node::Block(vec![ident("y")]))),
        }]
    );
}

#[test]
fn immediate_call_of_function_literal() {
    let statements = parse_ok("fn(a, b) { return a + b; }(1, 2);");
    match &statements[..] {
        [Node::Call { function, arguments }] => {
            match function.as_ref() {
                Node::Function { parameters, .. } => assert_eq!(parameters, &vec![ident("a"), ident("b")]),
                other => panic!("callee is not a function literal: {:?}", other),
            }
            assert_eq!(arguments, &vec![Node::Int(1), Node::Int(2)]);
        }
        other => panic!("not one call: {:?}", other),
    }
}

#[test]
fn empty_parameter_and_argument_lists() {
    assert_eq!(
        parse_ok("fn() {};"),
        vec![Node::Function { parameters: vec![], body: Box::new(Node::Block(vec![])) }]
    );
    assert_eq!(
        parse_ok("foo();"),
        vec![Node::Call { function: Box::new(ident("foo")), arguments: vec![] }]
    );
}

#[test]
fn precedence_round_trip_scenarios() {
    let cases = [
        ("-a * b;", "((-a) * b)"),
        ("a + b * c;", "(a + (b * c))"),
        ("a + b * c + d / e - f;", "(((a + (b * c)) + (d / e)) - f)"),
        ("3 + 4; -5 * 5;", "(3 + 4)((-5) * 5)"),
    ];
    for (input, want) in cases {
        let program = Program::new(parse_ok(input));
        assert_eq!(program.to_string(), want);
    }
}

#[test]
fn last_statement_needs_no_semicolon() {
    assert_eq!(parse_ok("x"), vec![ident("x")]);
    assert_eq!(
        parse_ok("1; a + b"),
        vec![
            Node::Int(1),
            Node::Infix { left: Box::new(ident("a")), operator: Infix::Add, right: Box::new(ident("b")) }
        ]
    );
    assert_eq!(
        parse_ok("let x = 5"),
        vec![Node::Let { name: "x".to_string(), value: Box::new(Node::Placeholder) }]
    );
}

#[test]
fn empty_input_is_an_empty_program() {
    assert_eq!(parse_ok(""), vec![]);
    assert_eq!(parse_ok("   \n  "), vec![]);
}

#[test]
fn calls_bind_tighter_than_operators() {
    let program = Program::new(parse_ok("a + add(b * c, d) * e;"));
    assert_eq!(program.to_string(), "(a + (add((b * c), d) * e))");
    let program = Program::new(parse_ok("-f(x);"));
    assert_eq!(program.to_string(), "(-f(x))");
}

#[test]
fn largest_and_smallest_integer_literals() {
    assert_eq!(parse_ok("9223372036854775807;"), vec![Node::Int(i64::MAX)]);
    assert_eq!(
        Program::new(parse_ok("-9223372036854775807;")).to_string(),
        "(-9223372036854775807)"
    );
    assert_eq!(Node::Int(i64::MIN).to_string(), "-9223372036854775808");
    assert_eq!(Node::Int(0).to_string(), "0");
    assert_eq!(Node::Int(1200).to_string(), "1200");
}

#[test]
fn rendering_of_other_forms() {
    assert_eq!(Program::new(parse_ok("if (a) { b } else { c }")).to_string(), "if a { b } else { c }");
    assert_eq!(Program::new(parse_ok("if (a) { b; c; }")).to_string(), "if a { bc }");
    assert_eq!(Program::new(parse_ok("fn(x, y) { x }")).to_string(), "(x, y)x");
    assert_eq!(Program::new(parse_ok("let x = 1;")).to_string(), "let x = na;");
    assert_eq!(Program::new(parse_ok("return 1;")).to_string(), "na");
    assert_eq!(Node::String("text".to_string()).to_string(), "text");
}
