use kaleidoscope::ast::{ASTNode, Expression, Function, Prototype};
use kaleidoscope::grammar::ParserSettings;
use kaleidoscope::lexer::Lexer;
use kaleidoscope::parser::{
    parse, parse_binary_expr, parse_expr, parse_prototype, PartParsingResult,
};
use kaleidoscope::token::{BinaryOp, Number, Token};

fn lex(text: &str) -> Vec<Token> {
    Lexer::new(text).get_all_tokens().unwrap()
}

fn literal(text: &str) -> Expression {
    Expression::LiteralExpr(Number::new(text.to_string()).unwrap())
}

fn variable(name: &str) -> Expression {
    Expression::VariableExpr(name.to_string())
}

fn binary(op: BinaryOp, lhs: Expression, rhs: Expression) -> Expression {
    Expression::BinaryExpr(op, Box::new(lhs), Box::new(rhs))
}

fn anonymous(body: Expression) -> ASTNode {
    ASTNode::FunctionNode(Function {
        prototype: Prototype {
            name: "".to_string(),
            args: vec![],
        },
        body,
    })
}

fn parse_text(text: &str) -> Result<(Vec<ASTNode>, Vec<Token>), String> {
    parse(lex(text).as_slice(), &[], &ParserSettings::default())
}

#[test]
fn test_function_dec_statement() {
    let mut parser_settings = ParserSettings::default();
    let tokens = vec![
        Token::Def,
        Token::Identity("test".to_string()),
        Token::LParen,
        Token::Identity("x".to_string()),
        Token::RParen,
        Token::Identity("x".to_string()),
    ];
    let result = parse(tokens.as_slice(), Vec::new().as_slice(), &mut parser_settings);
    let expected_left_over_tokens = Vec::new();
    let expected_function = Function {
        prototype: Prototype {
            name: "test".to_string(),
            args: vec!["x".to_string()],
        },
        body: Expression::VariableExpr("x".to_string()),
    };
    let expected_ast = vec![ASTNode::FunctionNode(expected_function)];
    let expected = Ok((expected_ast, expected_left_over_tokens));
    assert_eq!(expected, result);
}

#[test]
fn test_extern_decleration() {
    let mut parser_settings = ParserSettings::default();
    let tokens = vec![
        Token::Extern,
        Token::Identity("sin".to_string()),
        Token::LParen,
        Token::Identity("x".to_string()),
        Token::RParen,
    ];
    let result = parse(tokens.as_slice(), Vec::new().as_slice(), &mut parser_settings);

    let expected_tokens = vec![];
    let expected_ast = vec![ASTNode::ExternNode(Prototype {
        name: "sin".to_string(),
        args: vec!["x".to_string()],
    })];

    let expected = Ok((expected_ast, expected_tokens));

    assert_eq!(expected, result);
}

#[test]
fn precedence_of_multiplication_over_addition() {
    let expected = binary(
        BinaryOp::Add,
        literal("2"),
        binary(BinaryOp::Mul, literal("3"), literal("4")),
    );
    assert_eq!(parse_text("2+3*4"), Ok((vec![anonymous(expected)], vec![])));
}

#[test]
fn brackets_override_precedence() {
    let expected = binary(
        BinaryOp::Mul,
        binary(BinaryOp::Add, literal("2"), literal("3")),
        literal("4"),
    );
    assert_eq!(parse_text("(2+3)*4"), Ok((vec![anonymous(expected)], vec![])));
}

#[test]
fn equal_precedence_associates_to_the_left() {
    let expected = binary(
        BinaryOp::Sub,
        binary(BinaryOp::Sub, literal("8"), literal("3")),
        literal("2"),
    );
    assert_eq!(parse_text("8-3-2"), Ok((vec![anonymous(expected)], vec![])));
}

#[test]
fn tighter_operators_are_absorbed_into_the_right_operand() {
    // 1 + 2 * 3 / 4 - 5  is  (1 + ((2 * 3) / 4)) - 5
    let product = binary(
        BinaryOp::Div,
        binary(BinaryOp::Mul, literal("2"), literal("3")),
        literal("4"),
    );
    let expected = binary(
        BinaryOp::Sub,
        binary(BinaryOp::Add, literal("1"), product),
        literal("5"),
    );
    assert_eq!(
        parse_text("1 + 2 * 3 / 4 - 5"),
        Ok((vec![anonymous(expected)], vec![]))
    );
}

#[test]
fn shift_binds_loosest() {
    let tokens = vec![
        Token::Identity("a".to_string()),
        Token::BinOp(BinaryOp::Shift),
        Token::Identity("b".to_string()),
        Token::BinOp(BinaryOp::Add),
        Token::Identity("c".to_string()),
    ];
    let expected = binary(
        BinaryOp::Shift,
        variable("a"),
        binary(BinaryOp::Add, variable("b"), variable("c")),
    );
    assert_eq!(
        parse(&tokens, &[], &ParserSettings::default()),
        Ok((vec![anonymous(expected)], vec![]))
    );
}

#[test]
fn extern_from_text() {
    let expected = ASTNode::ExternNode(Prototype {
        name: "sin".to_string(),
        args: vec!["x".to_string()],
    });
    assert_eq!(parse_text("extern sin(x)"), Ok((vec![expected], vec![])));
}

#[test]
fn function_from_text() {
    let expected = ASTNode::FunctionNode(Function {
        prototype: Prototype {
            name: "test".to_string(),
            args: vec!["x".to_string()],
        },
        body: variable("x"),
    });
    assert_eq!(parse_text("def test(x) x"), Ok((vec![expected], vec![])));
}

#[test]
fn incomplete_definition_hands_its_tokens_back() {
    let tokens = lex("def test(x");
    assert_eq!(tokens.len(), 4);
    assert_eq!(
        parse(&tokens, &[], &ParserSettings::default()),
        Ok((vec![], tokens.clone()))
    );
}

#[test]
fn every_prefix_of_a_definition_is_incomplete_and_resumes() {
    let whole = lex("def f(a, b) a + g(b, 1) * 2;");
    let settings = ParserSettings::default();
    let at_once = parse(&whole, &[], &settings);
    let (nodes, rest) = at_once.clone().unwrap();
    assert_eq!(nodes.len(), 1);
    assert!(rest.is_empty());
    for cut in 0..whole.len() {
        let (first_tree, leftover) = parse(&whole[..cut], &[], &settings).unwrap();
        if leftover.is_empty() {
            continue;
        }
        let mut resumed = leftover;
        resumed.extend(whole[cut..].iter().cloned());
        assert_eq!(parse(&resumed, &first_tree, &settings), at_once, "cut at {}", cut);
    }
}

#[test]
fn a_piece_that_parses_alone_is_not_continued() {
    let settings = ParserSettings::default();
    let (tree, leftover) = parse(&lex("2"), &[], &settings).unwrap();
    assert_eq!(tree, vec![anonymous(literal("2"))]);
    assert!(leftover.is_empty());
    assert!(parse(&lex("+ 3"), &tree, &settings).is_err());
    assert_eq!(
        parse(&lex("2 + 3"), &[], &settings),
        Ok((
            vec![anonymous(binary(BinaryOp::Add, literal("2"), literal("3")))],
            vec![]
        ))
    );
}

#[test]
fn completed_nodes_are_kept_before_an_incomplete_one() {
    let tokens = lex("extern sin(x); def f(");
    let (tree, leftover) = parse(&tokens, &[], &ParserSettings::default()).unwrap();
    assert_eq!(tree.len(), 1);
    assert_eq!(leftover, lex("def f("));
}

#[test]
fn old_tree_comes_first() {
    let settings = ParserSettings::default();
    let (old, _) = parse(&lex("extern sin(x)"), &[], &settings).unwrap();
    let (tree, _) = parse(&lex("x"), &old, &settings).unwrap();
    assert_eq!(tree.len(), 2);
    assert_eq!(tree[0], old[0]);
    assert_eq!(tree[1], anonymous(variable("x")));
}

#[test]
fn delimiters_are_dropped() {
    assert_eq!(parse_text(";;;"), Ok((vec![], vec![])));
    let (tree, rest) = parse_text("x; y;").unwrap();
    assert_eq!(tree, vec![anonymous(variable("x")), anonymous(variable("y"))]);
    assert!(rest.is_empty());
}

#[test]
fn call_with_arguments() {
    let expected = Expression::CallExpr(
        "f".to_string(),
        vec![
            variable("a"),
            binary(BinaryOp::Add, literal("1"), literal("2")),
            Expression::CallExpr("g".to_string(), vec![]),
        ],
    );
    assert_eq!(
        parse_text("f(a, 1 + 2, g())"),
        Ok((vec![anonymous(expected)], vec![]))
    );
}

#[test]
fn let_binding() {
    let expected = Expression::AssignmentOp(
        "x".to_string(),
        Box::new(binary(BinaryOp::Add, literal("1"), variable("y"))),
    );
    assert_eq!(parse_text("let x = 1 + y"), Ok((vec![anonymous(expected)], vec![])));
}

#[test]
fn prototype_without_parameters() {
    assert_eq!(
        parse_prototype(&lex("main()")),
        PartParsingResult::Good(
            Prototype {
                name: "main".to_string(),
                args: vec![]
            },
            lex("main()")
        )
    );
}

#[test]
fn duplicate_parameter_names_are_kept() {
    match parse_prototype(&lex("f(x, x) rest")) {
        PartParsingResult::Good(prototype, taken) => {
            assert_eq!(prototype.args, vec!["x".to_string(), "x".to_string()]);
            assert_eq!(taken, lex("f(x, x)"));
        }
        other => panic!("{:?}", other),
    }
}

#[test]
fn malformed_constructs_are_reported() {
    let cases = [
        ("def 3", "expected function name in prototype"),
        ("def f x", "expected '(' in prototype"),
        ("def f(3", "expected ')' in prototype"),
        ("def f(a b)", "expected ',' or ')' in prototype"),
        ("def f(a,)", "expected parameter name in prototype"),
        ("extern f(,", "expected ')' in prototype"),
        ("f(a b)", "expected ',' or ')' in call"),
        ("(1 2", "')' expected"),
        ("let 3", "Expected identifier after let keyword"),
        ("let x 3", "Expected = token"),
        (")", "unknown token ')' when expecting an expression."),
        ("1 + ?", "unknown token unknown character when expecting an expression."),
        ("# note", "unknown token comment when expecting an expression."),
        ("f(a,)", "unknown token ')' when expecting an expression."),
    ];
    for (text, message) in cases {
        assert_eq!(parse_text(text), Err(message.to_string()), "{}", text);
    }
}

#[test]
fn missing_tokens_are_not_errors() {
    for text in [
        "def", "def f", "def f(", "def f(a", "def f(a,", "def f(a)", "extern", "extern f",
        "extern f(", "f(", "f(a", "f(a,", "(", "(1", "(1 +", "let", "let x", "let x =", "1 +",
        "1 + 2 *",
    ] {
        let tokens = lex(text);
        assert_eq!(
            parse(&tokens, &[], &ParserSettings::default()),
            Ok((vec![], tokens.clone())),
            "{}",
            text
        );
    }
}

#[test]
fn unknown_operator_is_an_error() {
    let mut settings = ParserSettings::default();
    settings.set_precedence(BinaryOp::Shift, None);
    let tokens = vec![
        Token::Identity("a".to_string()),
        Token::BinOp(BinaryOp::Shift),
        Token::Identity("b".to_string()),
    ];
    assert_eq!(
        parse(&tokens, &[], &settings),
        Err("unknown operator found".to_string())
    );
    let tokens = lex("a + b");
    assert_eq!(
        parse(&tokens, &[], &ParserSettings::empty()),
        Err("unknown operator found".to_string())
    );
    let mut settings = ParserSettings::default();
    settings.set_precedence(BinaryOp::Mul, None);
    assert_eq!(
        parse(&lex("a + b * c"), &[], &settings),
        Err("unknown operator found".to_string())
    );
}

#[test]
fn default_precedences() {
    let settings = ParserSettings::default();
    assert_eq!(settings.precedence(BinaryOp::Mul), Some(40));
    assert_eq!(settings.precedence(BinaryOp::Div), Some(40));
    assert_eq!(settings.precedence(BinaryOp::Add), Some(20));
    assert_eq!(settings.precedence(BinaryOp::Sub), Some(20));
    assert_eq!(settings.precedence(BinaryOp::Shift), Some(10));
    assert_eq!(ParserSettings::empty().precedence(BinaryOp::Add), None);
}

#[test]
fn binary_expression_stops_below_its_floor() {
    let tokens = lex("+ b * c - d");
    // with floor 40 nothing is taken; with floor 20 all of it is
    assert_eq!(
        parse_binary_expr(&tokens, &ParserSettings::default(), 40, variable("a")),
        PartParsingResult::Good(variable("a"), vec![])
    );
    let expected = binary(
        BinaryOp::Sub,
        binary(
            BinaryOp::Add,
            variable("a"),
            binary(BinaryOp::Mul, variable("b"), variable("c")),
        ),
        variable("d"),
    );
    assert_eq!(
        parse_binary_expr(&tokens, &ParserSettings::default(), 20, variable("a")),
        PartParsingResult::Good(expected, tokens.clone())
    );
}

#[test]
fn expression_leaves_what_follows_it() {
    let tokens = lex("a + b ) c");
    match parse_expr(&tokens, &ParserSettings::default()) {
        PartParsingResult::Good(expr, taken) => {
            assert_eq!(expr, binary(BinaryOp::Add, variable("a"), variable("b")));
            assert_eq!(taken, lex("a + b"));
        }
        other => panic!("{:?}", other),
    }
}

#[test]
fn parsing_in_two_pieces_equals_parsing_at_once() {
    let settings = ParserSettings::default();
    let texts = [
        "extern sin(x); def f(a, b) a * (b + 1) f(1, 2)",
        "let x = 1 + 2 * 3; x - 1",
        "def f(a b) a",
        "f(1, 2) + * 3",
        "extern f(x) + 1",
    ];
    for text in texts {
        let whole = lex(text);
        let at_once = parse(&whole, &[], &settings);
        for cut in 0..=whole.len() {
            let in_two = match parse(&whole[..cut], &[], &settings) {
                Err(message) => Err(message),
                Ok((tree, leftover)) => {
                    let open = leftover.is_empty()
                        && cut > 0
                        && cut < whole.len()
                        && matches!(tree.last(), Some(ASTNode::FunctionNode(_)))
                        && whole[cut - 1] != Token::Delimeter
                        && (matches!(whole[cut], Token::BinOp(_))
                            || (whole[cut] == Token::LParen
                                && matches!(whole[cut - 1], Token::Identity(_))));
                    if open {
                        continue;
                    }
                    let mut resumed = leftover;
                    resumed.extend(whole[cut..].iter().cloned());
                    parse(&resumed, &tree, &settings)
                }
            };
            assert_eq!(in_two, at_once, "{} cut at {}", text, cut);
        }
    }
}

#[test]
fn an_error_in_a_piece_is_an_error_of_the_whole() {
    let settings = ParserSettings::default();
    let whole = lex("def f(a b) a + 1; extern g()");
    let error = parse(&whole[..5], &[], &settings);
    assert_eq!(error, Err("expected ',' or ')' in prototype".to_string()));
    assert_eq!(parse(&whole, &[], &settings), error);
}
