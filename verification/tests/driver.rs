use kaleidoscope::ast::{ASTNode, Expression, Function, Prototype};
use kaleidoscope::driver::{Event, Next, Output, Reply, Session, Stage};
use kaleidoscope::grammar::ParserSettings;
use kaleidoscope::lexer::Lexer;
use kaleidoscope::token::Token;

fn session(stage: Stage) -> Session {
    Session::new(stage, ParserSettings::default())
}

fn test_function() -> ASTNode {
    ASTNode::FunctionNode(Function {
        prototype: Prototype {
            name: "test".to_string(),
            args: vec!["x".to_string()],
        },
        body: Expression::VariableExpr("x".to_string()),
    })
}

fn sin_declaration() -> ASTNode {
    ASTNode::ExternNode(Prototype {
        name: "sin".to_string(),
        args: vec!["x".to_string()],
    })
}

#[test]
fn quit_command_ends_the_session() {
    let mut s = session(Stage::AST);
    assert_eq!(
        s.step(Event::Line(".quit\n")),
        Reply {
            output: Output::Nothing,
            next: Next::Quit
        }
    );
    assert!(s.ast().is_empty());
    assert!(s.pending().is_empty());
}

#[test]
fn end_of_the_source_ends_the_session() {
    let mut s = session(Stage::Tokens);
    assert_eq!(
        s.step(Event::Closed),
        Reply {
            output: Output::Nothing,
            next: Next::Quit
        }
    );
}

#[test]
fn quit_is_only_the_exact_line() {
    let mut s = session(Stage::AST);
    assert_eq!(s.step(Event::Line(".quit")).next, Next::Fresh);
    assert_eq!(s.step(Event::Line(" .quit\n")).next, Next::Fresh);
}

#[test]
fn a_definition_over_two_lines() {
    let mut s = session(Stage::AST);
    assert_eq!(
        s.step(Event::Line("def test(x\n")),
        Reply {
            output: Output::Nothing,
            next: Next::More
        }
    );
    assert_eq!(s.pending().len(), 4);
    assert_eq!(s.pending()[0], Token::Def);
    assert!(s.ast().is_empty());
    assert_eq!(
        s.step(Event::Line(") x\n")),
        Reply {
            output: Output::Ast(vec![test_function()]),
            next: Next::Fresh
        }
    );
    assert!(s.pending().is_empty());
    assert_eq!(s.ast(), &vec![test_function()]);
}

#[test]
fn nodes_are_handed_out_once_the_input_is_complete() {
    let mut s = session(Stage::AST);
    let first = s.step(Event::Line("extern sin(x) def test(\n"));
    assert_eq!(
        first,
        Reply {
            output: Output::Nothing,
            next: Next::More
        }
    );
    assert_eq!(s.ast(), &vec![sin_declaration()]);
    let second = s.step(Event::Line("x) x\n"));
    assert_eq!(
        second,
        Reply {
            output: Output::Ast(vec![sin_declaration(), test_function()]),
            next: Next::Fresh
        }
    );
    let third = s.step(Event::Line("extern sin(x)\n"));
    assert_eq!(
        third,
        Reply {
            output: Output::Ast(vec![sin_declaration()]),
            next: Next::Fresh
        }
    );
    assert_eq!(s.ast().len(), 3);
}

#[test]
fn a_syntax_error_drops_the_input_in_progress() {
    let mut s = session(Stage::AST);
    assert_eq!(s.step(Event::Line("extern sin(x)\n")).next, Next::Fresh);
    assert_eq!(s.step(Event::Line("def test(\n")).next, Next::More);
    assert_eq!(
        s.step(Event::Line("3\n")),
        Reply {
            output: Output::Error("expected ')' in prototype".to_string()),
            next: Next::Fresh
        }
    );
    assert!(s.pending().is_empty());
    assert_eq!(s.ast(), &vec![sin_declaration()]);
    // the session goes on
    assert_eq!(
        s.step(Event::Line("def test(x) x\n")),
        Reply {
            output: Output::Ast(vec![test_function()]),
            next: Next::Fresh
        }
    );
}

#[test]
fn a_malformed_number_is_reported() {
    let mut s = session(Stage::AST);
    assert_eq!(
        s.step(Event::Line("1 + 1.2.3\n")),
        Reply {
            output: Output::Error("malformed number 1.2.3".to_string()),
            next: Next::Fresh
        }
    );
    assert!(s.ast().is_empty());
    assert_eq!(s.step(Event::Line(".\n")).next, Next::Fresh);
}

#[test]
fn tokens_stage_shows_each_line() {
    let mut s = session(Stage::Tokens);
    let line = "def test(x\n";
    assert_eq!(
        s.step(Event::Line(line)),
        Reply {
            output: Output::Tokens(Lexer::new(line).get_all_tokens().unwrap()),
            next: Next::More
        }
    );
    assert_eq!(
        s.step(Event::Line(") x\n")),
        Reply {
            output: Output::Tokens(vec![
                Token::RParen,
                Token::Identity("x".to_string())
            ]),
            next: Next::Fresh
        }
    );
}

#[test]
fn assembly_stage_gets_the_whole_tree() {
    let mut s = session(Stage::Assembly);
    assert_eq!(
        s.step(Event::Line("extern sin(x)\n")).output,
        Output::Assembly(vec![sin_declaration()])
    );
    assert_eq!(s.step(Event::Line("def test(x)\n")).output, Output::Nothing);
    assert_eq!(
        s.step(Event::Line("x\n")).output,
        Output::Assembly(vec![sin_declaration(), test_function()])
    );
}

#[test]
fn the_stage_does_not_change_the_state() {
    let lines = ["extern sin(x) def test(\n", "x) x; 1 +\n", "2 * 3\n", "def 3\n", "y\n"];
    let mut sessions = [
        session(Stage::AST),
        session(Stage::Tokens),
        session(Stage::Assembly),
    ];
    for line in lines {
        let mut nexts = Vec::new();
        for s in sessions.iter_mut() {
            nexts.push(s.step(Event::Line(line)).next);
        }
        assert_eq!(nexts[0], nexts[1]);
        assert_eq!(nexts[0], nexts[2]);
        assert_eq!(sessions[0].ast(), sessions[1].ast());
        assert_eq!(sessions[0].ast(), sessions[2].ast());
        assert_eq!(sessions[0].pending(), sessions[1].pending());
        assert_eq!(sessions[0].pending(), sessions[2].pending());
    }
    assert_eq!(sessions[0].ast().len(), 4);
}

#[test]
fn an_empty_line_completes_nothing_and_asks_afresh() {
    let mut s = session(Stage::AST);
    assert_eq!(
        s.step(Event::Line("\n")),
        Reply {
            output: Output::Ast(vec![]),
            next: Next::Fresh
        }
    );
    assert_eq!(s.stage(), Stage::AST);
}
