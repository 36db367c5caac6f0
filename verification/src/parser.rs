//! The parser: recursive descent over a slice of tokens, with precedence
//! climbing for expressions.
//!
//! A routine reads its construct at the head of the slice it is given and
//! takes nothing from it. Where the slice ends too early it answers
//! `NotComplete`, and its caller does the same, so that the caller of
//! `parse` still holds every token of the unfinished construct.

use crate::ast::{clone_nodes, ASTNode, Expression, Function, Prototype};
use crate::grammar::{
    after, lemma_statement_bounds, parse_arguments_spec, parse_assignment_spec,
    parse_binary_spec, parse_expr_spec, parse_expression_spec, parse_extern_spec,
    parse_function_spec, parse_ident_spec, parse_literal_spec, parse_parameters_spec,
    parse_parenthesis_spec, parse_primary_spec, parse_prototype_spec, parse_spec,
    parse_tighter_spec, Outcome, ParserSettings, Parsed,
};
use crate::token::{clone_tokens, Token, TokenView};
use vstd::prelude::*;
use vstd::slice::slice_subrange;

verus! {

/// What a parse routine answers.
#[derive(Debug, PartialEq)]
pub enum PartParsingResult<T> {
    /// The construct, and the tokens that it was read from.
    Good(T, Vec<Token>),
    /// More tokens are needed; none was taken.
    NotComplete,
    /// The construct is malformed; the message says how.
    Bad(String),
}

impl<T: View> PartParsingResult<T> {
    /// The outcome that this answer stands for.
    pub open spec fn outcome(self) -> Outcome<T::V> {
        match self {
            PartParsingResult::Good(value, taken) => Outcome::Good(value@, taken.len() as nat),
            PartParsingResult::NotComplete => Outcome::NotComplete,
            PartParsingResult::Bad(message) => Outcome::Bad(message@),
        }
    }

    /// Whether this answer is `expected`, read from the head of `tokens`.
    pub open spec fn answers(self, expected: Outcome<T::V>, tokens: Seq<TokenView>) -> bool {
        &&& self.outcome() == expected
        &&& self matches PartParsingResult::Good(_, taken) ==> taken.len() <= tokens.len()
            && taken.deep_view() == tokens.take(taken.len() as int)
    }
}

/// The answer for a malformed construct.
fn error<T: View>(message: &str) -> (result: PartParsingResult<T>)
    ensures
        result.outcome() == Outcome::<T::V>::Bad(message@),
{
    PartParsingResult::Bad(String::from_str(message))
}

/// The answer for the construct `value`, read from the first `n` of
/// `tokens`.
fn good<T: View>(value: T, tokens: &[Token], n: usize) -> (result: PartParsingResult<T>)
    requires
        n <= tokens.len(),
    ensures
        result.answers(Outcome::Good(value@, n as nat), tokens.deep_view()),
{
    let taken = clone_tokens(tokens, 0, n);
    assert(tokens.deep_view().subrange(0, n as int) =~= tokens.deep_view().take(n as int));
    assert(taken.deep_view().len() == taken.len());
    assert(tokens.deep_view().take(n as int).len() == n);
    PartParsingResult::Good(value, taken)
}

/// The tokens that follow the first `n`.
fn rest(tokens: &[Token], n: usize) -> (rest: &[Token])
    requires
        n <= tokens.len(),
    ensures
        rest.deep_view() == after(tokens.deep_view(), n as nat),
        rest.len() == tokens.len() - n,
{
    let rest = slice_subrange(tokens, n, tokens.len());
    assert(rest.deep_view() =~= tokens.deep_view().skip(n as int));
    rest
}

/// Reads a prototype: a name, and the names of the parameters in brackets.
pub fn parse_prototype(tokens: &[Token]) -> (result: PartParsingResult<Prototype>)
    ensures
        result.answers(parse_prototype_spec(tokens.deep_view()), tokens.deep_view()),
{
    let ghost ts = tokens.deep_view();
    if tokens.len() == 0 {
        return PartParsingResult::NotComplete;
    }
    let name = match &tokens[0] {
        Token::Identity(name) => name.clone(),
        _ => {
            return error("expected function name in prototype");
        },
    };
    if tokens.len() == 1 {
        return PartParsingResult::NotComplete;
    }
    match &tokens[1] {
        Token::LParen => {},
        _ => {
            return error("expected '(' in prototype");
        },
    }
    if tokens.len() == 2 {
        return PartParsingResult::NotComplete;
    }
    let mut args: Vec<String> = Vec::new();
    match &tokens[2] {
        Token::RParen => {
            assert(args.deep_view() =~= Seq::<Seq<char>>::empty());
            return good(Prototype { name, args }, tokens, 3);
        },
        Token::Identity(arg) => {
            args.push(arg.clone());
            assert(args.deep_view() =~= seq![arg@]);
        },
        _ => {
            return error("expected ')' in prototype");
        },
    }
    let mut pos: usize = 3;
    loop
        invariant
            ts == tokens.deep_view(),
            3 <= pos <= tokens.len(),
            parse_prototype_spec(ts) == parse_parameters_spec(
                after(ts, pos as nat),
                name@,
                args.deep_view(),
            ).shift(pos as nat),
        decreases tokens.len() - pos,
    {
        let ghost here = after(ts, pos as nat);
        let ghost seen = args.deep_view();
        if pos >= tokens.len() {
            return PartParsingResult::NotComplete;
        }
        match &tokens[pos] {
            Token::RParen => {
                return good(Prototype { name, args }, tokens, pos + 1);
            },
            Token::Comma => {
                if pos + 1 >= tokens.len() {
                    return PartParsingResult::NotComplete;
                }
                match &tokens[pos + 1] {
                    Token::Identity(arg) => {
                        args.push(arg.clone());
                        proof {
                            assert(args.deep_view() =~= seen.push(arg@));
                            assert(after(here, 2) =~= after(ts, (pos + 2) as nat));
                        }
                        pos = pos + 2;
                    },
                    _ => {
                        return error("expected parameter name in prototype");
                    },
                }
            },
            _ => {
                return error("expected ',' or ')' in prototype");
            },
        }
    }
}

/// Reads a numeric literal.
pub fn parse_literal_expr(tokens: &[Token]) -> (result: PartParsingResult<Expression>)
    ensures
        result.answers(parse_literal_spec(tokens.deep_view()), tokens.deep_view()),
{
    if tokens.len() == 0 {
        return PartParsingResult::NotComplete;
    }
    match &tokens[0] {
        Token::Number(value) => good(Expression::LiteralExpr(value.clone()), tokens, 1),
        _ => error("literal expected"),
    }
}

/// Reads a primary expression: what the first token announces.
pub fn parse_primary_expr(tokens: &[Token], settings: &ParserSettings) -> (result:
    PartParsingResult<Expression>)
    ensures
        result.answers(parse_primary_spec(tokens.deep_view(), *settings), tokens.deep_view()),
    decreases tokens.len(), 1nat,
{
    if tokens.len() == 0 {
        return PartParsingResult::NotComplete;
    }
    match &tokens[0] {
        Token::Identity(_) => parse_ident_expr(tokens, settings),
        Token::Number(_) => parse_literal_expr(tokens),
        Token::LParen => parse_parenthesis_expr(tokens, settings),
        Token::Let => parse_assignment_expr(tokens, settings),
        token => PartParsingResult::Bad(
            String::from_str("unknown token ").concat(token.kind_name()).concat(
                " when expecting an expression.",
            ),
        ),
    }
}

/// Reads a variable or, where `(` follows the name at once, a call with its
/// arguments.
pub fn parse_ident_expr(tokens: &[Token], settings: &ParserSettings) -> (result: PartParsingResult<
    Expression,
>)
    ensures
        result.answers(parse_ident_spec(tokens.deep_view(), *settings), tokens.deep_view()),
    decreases tokens.len(), 0nat,
{
    let ghost ts = tokens.deep_view();
    if tokens.len() == 0 {
        return PartParsingResult::NotComplete;
    }
    let name = match &tokens[0] {
        Token::Identity(name) => name.clone(),
        _ => {
            return error("identifier expected");
        },
    };
    if tokens.len() == 1 {
        return good(Expression::VariableExpr(name), tokens, 1);
    }
    match &tokens[1] {
        Token::LParen => {},
        _ => {
            return good(Expression::VariableExpr(name), tokens, 1);
        },
    }
    if tokens.len() == 2 {
        return PartParsingResult::NotComplete;
    }
    let mut args: Vec<Expression> = Vec::new();
    match &tokens[2] {
        Token::RParen => {
            proof {
                Expression::lemma_call_view(name, args);
                assert(args.deep_view() =~= Seq::<crate::ast::ExprView>::empty());
            }
            return good(Expression::CallExpr(name, args), tokens, 3);
        },
        _ => {},
    }
    assert(args.deep_view() =~= Seq::<crate::ast::ExprView>::empty());
    let mut pos: usize = 2;
    loop
        invariant
            ts == tokens.deep_view(),
            2 <= pos <= tokens.len(),
            parse_ident_spec(ts, *settings) == parse_arguments_spec(
                after(ts, pos as nat),
                *settings,
                name@,
                args.deep_view(),
            ).shift(pos as nat),
        decreases tokens.len() - pos,
    {
        let ghost here = after(ts, pos as nat);
        let ghost seen = args.deep_view();
        match parse_expr(rest(tokens, pos), settings) {
            PartParsingResult::Good(arg, taken) => {
                let next = pos + taken.len();
                proof {
                    assert(args.deep_view().push(arg@) =~= seen.push(arg@));
                }
                let ghost arg_view = arg@;
                args.push(arg);
                assert(args.deep_view() =~= seen.push(arg_view));
                if next >= tokens.len() {
                    return PartParsingResult::NotComplete;
                }
                match &tokens[next] {
                    Token::RParen => {
                        proof {
                            Expression::lemma_call_view(name, args);
                        }
                        return good(Expression::CallExpr(name, args), tokens, next + 1);
                    },
                    Token::Comma => {
                        proof {
                            assert(after(here, (taken.len() + 1) as nat) =~= after(
                                ts,
                                (next + 1) as nat,
                            ));
                        }
                        pos = next + 1;
                    },
                    _ => {
                        return error("expected ',' or ')' in call");
                    },
                }
            },
            PartParsingResult::NotComplete => {
                return PartParsingResult::NotComplete;
            },
            PartParsingResult::Bad(message) => {
                return PartParsingResult::Bad(message);
            },
        }
    }
}

/// Reads an expression in brackets.
pub fn parse_parenthesis_expr(tokens: &[Token], settings: &ParserSettings) -> (result:
    PartParsingResult<Expression>)
    ensures
        result.answers(parse_parenthesis_spec(tokens.deep_view(), *settings), tokens.deep_view()),
    decreases tokens.len(), 0nat,
{
    if tokens.len() == 0 {
        return PartParsingResult::NotComplete;
    }
    match parse_expr(rest(tokens, 1), settings) {
        PartParsingResult::Good(inner, taken) => {
            let close = 1 + taken.len();
            if close >= tokens.len() {
                return PartParsingResult::NotComplete;
            }
            match &tokens[close] {
                Token::RParen => good(inner, tokens, close + 1),
                _ => error("')' expected"),
            }
        },
        PartParsingResult::NotComplete => PartParsingResult::NotComplete,
        PartParsingResult::Bad(message) => PartParsingResult::Bad(message),
    }
}

/// Reads a let-binding: `let`, a name, `=` and the value.
pub fn parse_assignment_expr(tokens: &[Token], settings: &ParserSettings) -> (result:
    PartParsingResult<Expression>)
    ensures
        result.answers(parse_assignment_spec(tokens.deep_view(), *settings), tokens.deep_view()),
    decreases tokens.len(), 0nat,
{
    if tokens.len() == 0 {
        return PartParsingResult::NotComplete;
    }
    match &tokens[0] {
        Token::Let => {},
        _ => {
            return error("Expected let keyword");
        },
    }
    if tokens.len() == 1 {
        return PartParsingResult::NotComplete;
    }
    let ident = match &tokens[1] {
        Token::Identity(name) => name.clone(),
        _ => {
            return error("Expected identifier after let keyword");
        },
    };
    if tokens.len() == 2 {
        return PartParsingResult::NotComplete;
    }
    match &tokens[2] {
        Token::Assign => {},
        _ => {
            return error("Expected = token");
        },
    }
    match parse_expr(rest(tokens, 3), settings) {
        PartParsingResult::Good(value, taken) => good(
            Expression::AssignmentOp(ident, Box::new(value)),
            tokens,
            3 + taken.len(),
        ),
        PartParsingResult::NotComplete => PartParsingResult::NotComplete,
        PartParsingResult::Bad(message) => PartParsingResult::Bad(message),
    }
}

/// Reads an expression: a primary, and the operators and operands behind
/// it.
pub fn parse_expr(tokens: &[Token], settings: &ParserSettings) -> (result: PartParsingResult<
    Expression,
>)
    ensures
        result.answers(parse_expr_spec(tokens.deep_view(), *settings), tokens.deep_view()),
    decreases tokens.len(), 2nat,
{
    match parse_primary_expr(tokens, settings) {
        PartParsingResult::Good(lhs, taken) => {
            let n = taken.len();
            match parse_binary_expr(rest(tokens, n), settings, 0, lhs) {
                PartParsingResult::Good(expr, more) => good(expr, tokens, n + more.len()),
                PartParsingResult::NotComplete => PartParsingResult::NotComplete,
                PartParsingResult::Bad(message) => PartParsingResult::Bad(message),
            }
        },
        PartParsingResult::NotComplete => PartParsingResult::NotComplete,
        PartParsingResult::Bad(message) => PartParsingResult::Bad(message),
    }
}

/// What stands at the head of the operand loops.
enum Ahead {
    /// An operator, with its binding strength.
    Operator(crate::token::BinaryOp, i32),
    /// An operator without a binding strength.
    UnknownOperator,
    /// Anything else, or nothing.
    Other,
}

/// Looks at the token at `pos`.
fn look_ahead(tokens: &[Token], pos: usize, settings: &ParserSettings) -> (ahead: Ahead)
    requires
        pos <= tokens.len(),
    ensures
        ({
            let here = after(tokens.deep_view(), pos as nat);
            match ahead {
                Ahead::Operator(op, precedence) => here.len() > 0 && here[0] == TokenView::BinOp(op)
                    && settings.spec_precedence(op) == Some(precedence),
                Ahead::UnknownOperator => here.len() > 0 && here[0] is BinOp
                    && settings.spec_precedence(here[0]->BinOp_0) is None,
                Ahead::Other => here.len() == 0 || !(here[0] is BinOp),
            }
        }),
{
    if pos >= tokens.len() {
        return Ahead::Other;
    }
    match &tokens[pos] {
        Token::BinOp(op) => match settings.precedence(*op) {
            Some(precedence) => Ahead::Operator(*op, precedence),
            None => Ahead::UnknownOperator,
        },
        _ => Ahead::Other,
    }
}

/// Reads the operators behind the operand `lhs` for as long as they bind at
/// least as tightly as `expr_precedence`, each with its right operand.
pub fn parse_binary_expr(
    tokens: &[Token],
    settings: &ParserSettings,
    expr_precedence: i32,
    lhs: Expression,
) -> (result: PartParsingResult<Expression>)
    ensures
        result.answers(
            parse_binary_spec(tokens.deep_view(), *settings, expr_precedence as int, lhs@),
            tokens.deep_view(),
        ),
    decreases tokens.len(), 1nat,
{
    let ghost ts = tokens.deep_view();
    let ghost left = lhs@;
    let ghost whole = parse_binary_spec(ts, *settings, expr_precedence as int, left);
    let mut result = lhs;
    let mut pos: usize = 0;
    proof {
        assert(after(ts, 0) =~= ts);
    }
    loop
        invariant_except_break
            pos <= tokens.len(),
            whole == parse_binary_spec(
                after(ts, pos as nat),
                *settings,
                expr_precedence as int,
                result@,
            ).shift(pos as nat),
        invariant
            ts == tokens.deep_view(),
            left == lhs@,
            whole == parse_binary_spec(ts, *settings, expr_precedence as int, left),
        ensures
            pos <= tokens.len(),
            whole == Outcome::Good(result@, pos as nat),
        decreases tokens.len() - pos,
    {
        let ghost here = after(ts, pos as nat);
        let (operator, precedence) = match look_ahead(tokens, pos, settings) {
            Ahead::Operator(op, precedence) => (op, precedence),
            Ahead::UnknownOperator => {
                return error("unknown operator found");
            },
            Ahead::Other => {
                break ;
            },
        };
        if precedence < expr_precedence {
            break ;
        }
        proof {
            assert(after(here, 1) =~= after(ts, (pos + 1) as nat));
        }
        let operand = parse_primary_expr(rest(tokens, pos + 1), settings);
        let (mut rhs, mut next) = match operand {
            PartParsingResult::Good(rhs, taken) => (rhs, pos + 1 + taken.len()),
            PartParsingResult::NotComplete => {
                return PartParsingResult::NotComplete;
            },
            PartParsingResult::Bad(message) => {
                return PartParsingResult::Bad(message);
            },
        };
        let ghost first = next;
        let ghost operand_view = rhs@;
        let ghost tighter_whole = parse_tighter_spec(
            after(ts, first as nat),
            *settings,
            precedence as int,
            operand_view,
        );
        proof {
            assert(after(after(here, 1), (first - pos - 1) as nat) =~= after(ts, first as nat));
        }
        loop
            invariant_except_break
                tighter_whole == parse_tighter_spec(
                    after(ts, next as nat),
                    *settings,
                    precedence as int,
                    rhs@,
                ).shift((next - first) as nat),
            invariant
                ts == tokens.deep_view(),
                pos < first <= next <= tokens.len(),
                left == lhs@,
                whole == parse_binary_spec(ts, *settings, expr_precedence as int, left),
                here == after(ts, pos as nat),
                precedence >= expr_precedence,
                here.len() > 0 && here[0] == TokenView::BinOp(operator),
                settings.spec_precedence(operator) == Some(precedence),
                parse_primary_spec(after(here, 1), *settings) == Outcome::Good(
                    operand_view,
                    (first - pos - 1) as nat,
                ),
                tighter_whole == parse_tighter_spec(
                    after(ts, first as nat),
                    *settings,
                    precedence as int,
                    operand_view,
                ),
                after(after(here, 1), (first - pos - 1) as nat) == after(ts, first as nat),
                whole == parse_binary_spec(
                    here,
                    *settings,
                    expr_precedence as int,
                    result@,
                ).shift(pos as nat),
            ensures
                pos < first <= next <= tokens.len(),
                tighter_whole == Outcome::Good(rhs@, (next - first) as nat),
            decreases tokens.len() - next,
        {
            let ghost there = after(ts, next as nat);
            let tighter = match look_ahead(tokens, next, settings) {
                Ahead::Operator(_, tighter) => tighter,
                Ahead::UnknownOperator => {
                    return error("unknown operator found");
                },
                Ahead::Other => {
                    break ;
                },
            };
            if tighter <= precedence {
                break ;
            }
            match parse_binary_expr(rest(tokens, next), settings, tighter, rhs) {
                PartParsingResult::Good(binary_rhs, taken) => {
                    proof {
                        assert(after(there, taken.len() as nat) =~= after(
                            ts,
                            (next + taken.len()) as nat,
                        ));
                    }
                    rhs = binary_rhs;
                    next = next + taken.len();
                },
                PartParsingResult::NotComplete => {
                    return PartParsingResult::NotComplete;
                },
                PartParsingResult::Bad(message) => {
                    return PartParsingResult::Bad(message);
                },
            }
        }
        proof {
            assert(after(after(here, 1), (next - pos - 1) as nat) =~= after(ts, next as nat));
        }
        result = Expression::BinaryExpr(operator, Box::new(result), Box::new(rhs));
        pos = next;
    }
    good(result, tokens, pos)
}

/// Reads a declaration, `extern` and a prototype. The first token is passed
/// over unread: the caller has seen that it is `extern`.
pub fn parse_extern(tokens: &[Token]) -> (result: PartParsingResult<ASTNode>)
    ensures
        result.answers(parse_extern_spec(tokens.deep_view()), tokens.deep_view()),
{
    if tokens.len() == 0 {
        return PartParsingResult::NotComplete;
    }
    match parse_prototype(rest(tokens, 1)) {
        PartParsingResult::Good(prototype, taken) => good(
            ASTNode::ExternNode(prototype),
            tokens,
            1 + taken.len(),
        ),
        PartParsingResult::NotComplete => PartParsingResult::NotComplete,
        PartParsingResult::Bad(message) => PartParsingResult::Bad(message),
    }
}

/// Reads a definition: `def`, a prototype and the expression that is the
/// body. The first token is passed over unread: the caller has seen that it
/// is `def`.
pub fn parse_function(tokens: &[Token], settings: &ParserSettings) -> (result: PartParsingResult<
    ASTNode,
>)
    ensures
        result.answers(parse_function_spec(tokens.deep_view(), *settings), tokens.deep_view()),
{
    if tokens.len() == 0 {
        return PartParsingResult::NotComplete;
    }
    match parse_prototype(rest(tokens, 1)) {
        PartParsingResult::Good(prototype, taken) => {
            let n = 1 + taken.len();
            match parse_expr(rest(tokens, n), settings) {
                PartParsingResult::Good(body, more) => good(
                    ASTNode::FunctionNode(Function { prototype, body }),
                    tokens,
                    n + more.len(),
                ),
                PartParsingResult::NotComplete => PartParsingResult::NotComplete,
                PartParsingResult::Bad(message) => PartParsingResult::Bad(message),
            }
        },
        PartParsingResult::NotComplete => PartParsingResult::NotComplete,
        PartParsingResult::Bad(message) => PartParsingResult::Bad(message),
    }
}

/// Reads a bare expression and wraps it as a function without a name and
/// without parameters.
pub fn parse_expression(tokens: &[Token], settings: &ParserSettings) -> (result:
    PartParsingResult<ASTNode>)
    ensures
        result.answers(parse_expression_spec(tokens.deep_view(), *settings), tokens.deep_view()),
{
    match parse_expr(tokens, settings) {
        PartParsingResult::Good(expression, taken) => {
            let args: Vec<String> = Vec::new();
            let prototype = Prototype { name: String::new(), args };
            assert(prototype@.args =~= Seq::<Seq<char>>::empty());
            let lambda = Function { prototype, body: expression };
            good(ASTNode::FunctionNode(lambda), tokens, taken.len())
        },
        PartParsingResult::NotComplete => PartParsingResult::NotComplete,
        PartParsingResult::Bad(message) => PartParsingResult::Bad(message),
    }
}

/// What `parse` returns: the tree with the new nodes behind the old ones and
/// the tokens that were not taken, or the message of a failure.
pub type ParsingResult = Result<(Vec<ASTNode>, Vec<Token>), String>;

/// The view of what `parse` returns.
pub open spec fn parsing_view(result: ParsingResult) -> Parsed {
    match result {
        Ok((tree, rest)) => Ok((tree.deep_view(), rest.deep_view())),
        Err(message) => Err(message@),
    }
}

/// Parses as many top-level constructs from `tokens` as are complete there
/// and appends them to a copy of `parsed_tree`.
///
/// `Ok` holds the longer tree and the tokens of the construct that is not
/// complete yet, from its first token on and in their order; call again
/// with more tokens behind these. `Err` holds the message for the first
/// malformed construct.
pub fn parse(tokens: &[Token], parsed_tree: &[ASTNode], settings: &ParserSettings) -> (result:
    ParsingResult)
    ensures
        parsing_view(result) == parse_spec(
            tokens.deep_view(),
            parsed_tree.deep_view(),
            *settings,
        ),
{
    let ghost ts = tokens.deep_view();
    let ghost whole = parse_spec(ts, parsed_tree.deep_view(), *settings);
    let mut ast = clone_nodes(parsed_tree, 0, parsed_tree.len());
    let mut pos: usize = 0;
    proof {
        assert(after(ts, 0) =~= ts);
        assert(parsed_tree.deep_view().subrange(0, parsed_tree.len() as int)
            =~= parsed_tree.deep_view());
    }
    loop
        invariant_except_break
            whole == parse_spec(after(ts, pos as nat), ast.deep_view(), *settings),
        invariant
            ts == tokens.deep_view(),
            whole == parse_spec(ts, parsed_tree.deep_view(), *settings),
            pos <= tokens.len(),
        ensures
            whole == Ok::<(Seq<crate::ast::ASTNodeView>, Seq<TokenView>), Seq<char>>(
                (ast.deep_view(), after(ts, pos as nat)),
            ),
        decreases tokens.len() - pos,
    {
        let ghost here = after(ts, pos as nat);
        let ghost tree = ast.deep_view();
        if pos >= tokens.len() {
            break ;
        }
        let result = match &tokens[pos] {
            Token::Def => parse_function(rest(tokens, pos), settings),
            Token::Extern => parse_extern(rest(tokens, pos)),
            Token::Delimeter => {
                proof {
                    assert(after(here, 1) =~= after(ts, (pos + 1) as nat));
                }
                pos = pos + 1;
                continue ;
            },
            _ => parse_expression(rest(tokens, pos), settings),
        };
        match result {
            PartParsingResult::Good(ast_node, taken) => {
                proof {
                    lemma_statement_bounds(here, *settings);
                    assert(after(here, taken.len() as nat) =~= after(
                        ts,
                        (pos + taken.len()) as nat,
                    ));
                    assert(ast.deep_view().push(ast_node@) =~= tree.push(ast_node@));
                }
                let ghost node = ast_node@;
                ast.push(ast_node);
                assert(ast.deep_view() =~= tree.push(node));
                pos = pos + taken.len();
            },
            PartParsingResult::NotComplete => {
                break ;
            },
            PartParsingResult::Bad(message) => {
                return Err(message);
            },
        }
    }
    let unparsed = clone_tokens(tokens, pos, tokens.len());
    assert(unparsed.deep_view() =~= after(ts, pos as nat));
    Ok((ast, unparsed))
}

} // verus!
