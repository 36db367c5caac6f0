//! Resuming a parse: what tokens that arrive later can and cannot change.
//!
//! The parser is called again and again as lines arrive, each time with the
//! tokens it handed back and the new ones behind them. The lemmas here show
//! that nothing is lost or read differently on the way.

use crate::ast::{ASTNodeView, ExprView};
use crate::grammar::{
    after, binds_at, lemma_binary_bounds, lemma_expr_bounds, lemma_operation_bounds,
    lemma_primary_bounds,
    lemma_prototype_bounds, lemma_statement_bounds, lemma_tighter_bounds, parse_arguments_spec,
    parse_assignment_spec, parse_binary_spec, parse_expr_spec, parse_ident_spec,
    parse_operation_spec,
    parse_parameters_spec, parse_parenthesis_spec, parse_primary_spec, parse_prototype_spec,
    parse_spec, parse_statement_spec, parse_tighter_spec, Outcome, ParserSettings, Parsed,
};
use crate::token::{BinaryOp, TokenView};
use vstd::prelude::*;

verus! {

/// Whether `more`, put behind `tokens`, could carry on an expression that
/// ends with the first `n` of `tokens`: with an operator that the parser
/// does not pass over, or with the bracket that turns a variable into a call.
pub open spec fn carries_on(
    tokens: Seq<TokenView>,
    n: nat,
    more: Seq<TokenView>,
    settings: ParserSettings,
) -> bool {
    &&& more.len() > 0
    &&& {
        ||| more[0] is BinOp && (settings.spec_precedence(more[0]->BinOp_0) is None
            || settings.spec_precedence(more[0]->BinOp_0)->0 >= 0)
        ||| more[0] == TokenView::LParen && 0 < n <= tokens.len() && tokens[n - 1] is Identity
    }
}

/// Whether a construct read from the first `n` of `tokens` stays as it is
/// when `more` is put behind `tokens`: a token follows it already, or what
/// comes does not carry it on.
pub open spec fn settled(
    tokens: Seq<TokenView>,
    n: nat,
    more: Seq<TokenView>,
    settings: ParserSettings,
) -> bool {
    n < tokens.len() || !carries_on(tokens, n, more, settings)
}

/// Tokens put behind a sequence stand behind each of its tails.
pub proof fn lemma_after_extends(tokens: Seq<TokenView>, n: nat, more: Seq<TokenView>)
    requires
        n <= tokens.len(),
    ensures
        after(tokens + more, n) == after(tokens, n) + more,
        after(tokens, n).len() == tokens.len() - n,
{
    assert(after(tokens + more, n) =~= after(tokens, n) + more);
}

/// What is settled for a construct is settled for each part of it.
pub proof fn lemma_settled_within(
    tokens: Seq<TokenView>,
    from: nat,
    taken: nat,
    n: nat,
    more: Seq<TokenView>,
    settings: ParserSettings,
)
    requires
        from + taken <= n <= tokens.len(),
        settled(tokens, n, more, settings),
    ensures
        settled(after(tokens, from), taken, more, settings),
{
    if from + taken == tokens.len() && taken > 0 {
        assert(after(tokens, from)[taken - 1] == tokens[n - 1]);
    }
}

/// Whether an outcome is final and stays as it is when `more` is put behind
/// `tokens`: a failure always, a construct where it is settled, a wait for
/// more tokens never.
pub open spec fn stays<T>(
    outcome: Outcome<T>,
    tokens: Seq<TokenView>,
    more: Seq<TokenView>,
    settings: ParserSettings,
) -> bool {
    match outcome {
        Outcome::Good(_, n) => settled(tokens, n, more, settings),
        Outcome::NotComplete => false,
        Outcome::Bad(_) => true,
    }
}

/// Tokens behind a parameter list that is complete or malformed change
/// nothing of its outcome.
pub proof fn lemma_parameters_extends(
    tokens: Seq<TokenView>,
    more: Seq<TokenView>,
    name: Seq<char>,
    args: Seq<Seq<char>>,
)
    requires
        !(parse_parameters_spec(tokens, name, args) is NotComplete),
    ensures
        parse_parameters_spec(tokens + more, name, args) == parse_parameters_spec(
            tokens,
            name,
            args,
        ),
    decreases tokens.len(),
{
    let whole = tokens + more;
    assert(whole[0] == tokens[0]);
    if tokens[0] == TokenView::Comma {
        assert(whole[1] == tokens[1]);
        if let TokenView::Identity(arg) = tokens[1] {
            lemma_after_extends(tokens, 2, more);
            lemma_parameters_extends(after(tokens, 2), more, name, args.push(arg));
        }
    }
}

/// Tokens behind a prototype that is complete or malformed change nothing
/// of its outcome.
pub proof fn lemma_prototype_extends(tokens: Seq<TokenView>, more: Seq<TokenView>)
    requires
        !(parse_prototype_spec(tokens) is NotComplete),
    ensures
        parse_prototype_spec(tokens + more) == parse_prototype_spec(tokens),
{
    let whole = tokens + more;
    assert(whole[0] == tokens[0]);
    if let TokenView::Identity(name) = tokens[0] {
        assert(whole[1] == tokens[1]);
        if tokens[1] == TokenView::LParen {
            assert(whole[2] == tokens[2]);
            if let TokenView::Identity(arg) = tokens[2] {
                lemma_after_extends(tokens, 3, more);
                lemma_parameters_extends(after(tokens, 3), more, name, seq![arg]);
            }
        }
    }
}

/// Tokens behind a primary expression change nothing of its outcome, where
/// that stays.
pub proof fn lemma_primary_extends(
    tokens: Seq<TokenView>,
    more: Seq<TokenView>,
    settings: ParserSettings,
)
    requires
        stays(parse_primary_spec(tokens, settings), tokens, more, settings),
    ensures
        parse_primary_spec(tokens + more, settings) == parse_primary_spec(tokens, settings),
    decreases tokens.len(), 1nat,
{
    let whole = tokens + more;
    assert(whole[0] == tokens[0]);
    match tokens[0] {
        TokenView::Identity(_) => lemma_ident_extends(tokens, more, settings),
        TokenView::LParen => lemma_parenthesis_extends(tokens, more, settings),
        TokenView::Let => lemma_assignment_extends(tokens, more, settings),
        _ => {},
    }
}

/// Tokens behind a variable or a call change nothing of its outcome, where
/// that stays.
pub proof fn lemma_ident_extends(
    tokens: Seq<TokenView>,
    more: Seq<TokenView>,
    settings: ParserSettings,
)
    requires
        stays(parse_ident_spec(tokens, settings), tokens, more, settings),
    ensures
        parse_ident_spec(tokens + more, settings) == parse_ident_spec(tokens, settings),
    decreases tokens.len(), 0nat,
{
    let whole = tokens + more;
    assert(whole[0] == tokens[0]);
    if let TokenView::Identity(name) = tokens[0] {
        if tokens.len() == 1 {
            if more.len() > 0 {
                assert(whole[1] == more[0]);
            }
        } else {
            assert(whole[1] == tokens[1]);
            if tokens[1] == TokenView::LParen {
                assert(whole[2] == tokens[2]);
                if tokens[2] != TokenView::RParen {
                    lemma_after_extends(tokens, 2, more);
                    lemma_arguments_extends(after(tokens, 2), more, settings, name, Seq::empty());
                }
            }
        }
    }
}

/// Tokens behind an argument list that is complete or malformed change
/// nothing of its outcome.
pub proof fn lemma_arguments_extends(
    tokens: Seq<TokenView>,
    more: Seq<TokenView>,
    settings: ParserSettings,
    name: Seq<char>,
    args: Seq<ExprView>,
)
    requires
        !(parse_arguments_spec(tokens, settings, name, args) is NotComplete),
    ensures
        parse_arguments_spec(tokens + more, settings, name, args) == parse_arguments_spec(
            tokens,
            settings,
            name,
            args,
        ),
    decreases tokens.len(), 3nat,
{
    let whole = tokens + more;
    lemma_expr_extends(tokens, more, settings);
    if let Outcome::Good(arg, n) = parse_expr_spec(tokens, settings) {
        assert(whole[n as int] == tokens[n as int]);
        if tokens[n as int] == TokenView::Comma {
            lemma_after_extends(tokens, n + 1, more);
            lemma_arguments_extends(after(tokens, n + 1), more, settings, name, args.push(arg));
        }
    }
}

/// Tokens behind an expression in brackets that is complete or malformed
/// change nothing of its outcome.
pub proof fn lemma_parenthesis_extends(
    tokens: Seq<TokenView>,
    more: Seq<TokenView>,
    settings: ParserSettings,
)
    requires
        !(parse_parenthesis_spec(tokens, settings) is NotComplete),
    ensures
        parse_parenthesis_spec(tokens + more, settings) == parse_parenthesis_spec(
            tokens,
            settings,
        ),
    decreases tokens.len(), 0nat,
{
    let whole = tokens + more;
    lemma_after_extends(tokens, 1, more);
    lemma_expr_bounds(after(tokens, 1), settings);
    lemma_expr_extends(after(tokens, 1), more, settings);
    if let Outcome::Good(_, n) = parse_expr_spec(after(tokens, 1), settings) {
        assert(whole[1 + n as int] == tokens[1 + n as int]);
    }
}

/// Tokens behind a let-binding change nothing of its outcome, where that
/// stays.
pub proof fn lemma_assignment_extends(
    tokens: Seq<TokenView>,
    more: Seq<TokenView>,
    settings: ParserSettings,
)
    requires
        stays(parse_assignment_spec(tokens, settings), tokens, more, settings),
    ensures
        parse_assignment_spec(tokens + more, settings) == parse_assignment_spec(tokens, settings),
    decreases tokens.len(), 0nat,
{
    let whole = tokens + more;
    assert(whole[0] == tokens[0]);
    if tokens[0] == TokenView::Let {
        assert(whole[1] == tokens[1]);
        if tokens[1] is Identity {
            assert(whole[2] == tokens[2]);
            if tokens[2] == TokenView::Assign {
                lemma_after_extends(tokens, 3, more);
                lemma_expr_bounds(after(tokens, 3), settings);
                if let Outcome::Good(_, n) = parse_expr_spec(after(tokens, 3), settings) {
                    lemma_settled_within(tokens, 3, n, n + 3, more, settings);
                }
                lemma_expr_extends(after(tokens, 3), more, settings);
            }
        }
    }
}

/// Tokens behind an expression change nothing of its outcome, where that
/// stays.
pub proof fn lemma_expr_extends(
    tokens: Seq<TokenView>,
    more: Seq<TokenView>,
    settings: ParserSettings,
)
    requires
        stays(parse_expr_spec(tokens, settings), tokens, more, settings),
    ensures
        parse_expr_spec(tokens + more, settings) == parse_expr_spec(tokens, settings),
    decreases tokens.len(), 2nat,
{
    lemma_primary_bounds(tokens, settings);
    match parse_primary_spec(tokens, settings) {
        Outcome::Good(lhs, n) => {
            lemma_binary_bounds(after(tokens, n), settings, 0, lhs);
            lemma_after_extends(tokens, n, more);
            assert(after(tokens, 0) =~= tokens);
            match parse_binary_spec(after(tokens, n), settings, 0, lhs) {
                Outcome::Good(_, m) => {
                    lemma_settled_within(tokens, 0, n, n + m, more, settings);
                    lemma_settled_within(tokens, n, m, n + m, more, settings);
                },
                _ => {},
            }
            lemma_primary_extends(tokens, more, settings);
            lemma_binary_extends(after(tokens, n), more, settings, 0, lhs);
        },
        _ => {
            lemma_primary_extends(tokens, more, settings);
        },
    }
}

/// Tokens behind the operators of an expression change nothing of their
/// outcome, where that stays.
pub proof fn lemma_binary_extends(
    tokens: Seq<TokenView>,
    more: Seq<TokenView>,
    settings: ParserSettings,
    floor: int,
    lhs: ExprView,
)
    requires
        floor >= 0,
        stays(parse_binary_spec(tokens, settings, floor, lhs), tokens, more, settings),
    ensures
        parse_binary_spec(tokens + more, settings, floor, lhs) == parse_binary_spec(
            tokens,
            settings,
            floor,
            lhs,
        ),
    decreases tokens.len(), 1nat,
{
    let whole = tokens + more;
    if tokens.len() == 0 {
        assert(whole =~= more);
    } else {
        assert(whole[0] == tokens[0]);
        if binds_at(tokens, settings, floor) {
            let op = tokens[0]->BinOp_0;
            let precedence = settings.spec_precedence(op)->0 as int;
            let behind = after(tokens, 1);
            lemma_after_extends(tokens, 1, more);
            lemma_operation_bounds(behind, settings, floor, op, precedence, lhs);
            if let Outcome::Good(_, n) = parse_operation_spec(
                behind,
                settings,
                floor,
                op,
                precedence,
                lhs,
            ) {
                lemma_settled_within(tokens, 1, n, 1 + n, more, settings);
            }
            lemma_operation_extends(behind, more, settings, floor, op, precedence, lhs);
        }
    }
}

/// Tokens behind what stands behind an operator change nothing of the
/// outcome, where that stays.
pub proof fn lemma_operation_extends(
    tokens: Seq<TokenView>,
    more: Seq<TokenView>,
    settings: ParserSettings,
    floor: int,
    op: BinaryOp,
    precedence: int,
    lhs: ExprView,
)
    requires
        floor >= 0,
        precedence >= 0,
        stays(
            parse_operation_spec(tokens, settings, floor, op, precedence, lhs),
            tokens,
            more,
            settings,
        ),
    ensures
        parse_operation_spec(tokens + more, settings, floor, op, precedence, lhs)
            == parse_operation_spec(tokens, settings, floor, op, precedence, lhs),
    decreases tokens.len(), 3nat,
{
    lemma_primary_bounds(tokens, settings);
    assert(after(tokens, 0) =~= tokens);
    match parse_primary_spec(tokens, settings) {
        Outcome::Good(rhs, n) => {
            let behind_operand = after(tokens, n);
            lemma_after_extends(tokens, n, more);
            lemma_tighter_bounds(behind_operand, settings, precedence, rhs);
            match parse_tighter_spec(behind_operand, settings, precedence, rhs) {
                Outcome::Good(rhs2, m) => {
                    let joined = ExprView::Binary(op, Box::new(lhs), Box::new(rhs2));
                    let behind_rhs = after(tokens, n + m);
                    lemma_after_extends(tokens, n + m, more);
                    lemma_binary_bounds(behind_rhs, settings, floor, joined);
                    match parse_binary_spec(behind_rhs, settings, floor, joined) {
                        Outcome::Good(_, k) => {
                            let total = n + m + k;
                            lemma_settled_within(tokens, 0, n, total, more, settings);
                            lemma_settled_within(tokens, n, m, total, more, settings);
                            lemma_settled_within(tokens, n + m, k, total, more, settings);
                        },
                        _ => {},
                    }
                    lemma_primary_extends(tokens, more, settings);
                    lemma_tighter_extends(behind_operand, more, settings, precedence, rhs);
                    lemma_binary_extends(behind_rhs, more, settings, floor, joined);
                },
                _ => {
                    lemma_primary_extends(tokens, more, settings);
                    lemma_tighter_extends(behind_operand, more, settings, precedence, rhs);
                },
            }
        },
        _ => {
            lemma_primary_extends(tokens, more, settings);
        },
    }
}

/// Tokens behind what a right operand took in change nothing of the
/// outcome, where that stays.
pub proof fn lemma_tighter_extends(
    tokens: Seq<TokenView>,
    more: Seq<TokenView>,
    settings: ParserSettings,
    precedence: int,
    rhs: ExprView,
)
    requires
        precedence >= 0,
        stays(parse_tighter_spec(tokens, settings, precedence, rhs), tokens, more, settings),
    ensures
        parse_tighter_spec(tokens + more, settings, precedence, rhs) == parse_tighter_spec(
            tokens,
            settings,
            precedence,
            rhs,
        ),
    decreases tokens.len(), 2nat,
{
    let whole = tokens + more;
    if tokens.len() == 0 {
        assert(whole =~= more);
    } else {
        assert(whole[0] == tokens[0]);
        if binds_at(tokens, settings, precedence + 1) {
            let op = tokens[0]->BinOp_0;
            let tighter = settings.spec_precedence(op)->0 as int;
            let behind_op = after(tokens, 1);
            lemma_after_extends(tokens, 1, more);
            lemma_operation_bounds(behind_op, settings, tighter, op, tighter, rhs);
            match parse_operation_spec(behind_op, settings, tighter, op, tighter, rhs) {
                Outcome::Good(rhs2, n) => {
                    let behind = after(tokens, 1 + n);
                    lemma_after_extends(tokens, 1 + n, more);
                    lemma_tighter_bounds(behind, settings, precedence, rhs2);
                    match parse_tighter_spec(behind, settings, precedence, rhs2) {
                        Outcome::Good(_, m) => {
                            lemma_settled_within(tokens, 1, n, 1 + n + m, more, settings);
                            lemma_settled_within(tokens, 1 + n, m, 1 + n + m, more, settings);
                        },
                        _ => {},
                    }
                    lemma_operation_extends(behind_op, more, settings, tighter, op, tighter, rhs);
                    lemma_tighter_extends(behind, more, settings, precedence, rhs2);
                },
                _ => {
                    lemma_operation_extends(behind_op, more, settings, tighter, op, tighter, rhs);
                },
            }
        }
    }
}

/// Whether the outcome of a top-level construct stays as it is when `more`
/// is put behind `tokens`: a failure always, a declaration always, any other
/// construct where it is settled.
pub open spec fn statement_stays(
    outcome: Outcome<ASTNodeView>,
    tokens: Seq<TokenView>,
    more: Seq<TokenView>,
    settings: ParserSettings,
) -> bool {
    match outcome {
        Outcome::Good(node, n) => node is ExternNode || settled(tokens, n, more, settings),
        Outcome::NotComplete => false,
        Outcome::Bad(_) => true,
    }
}

/// Tokens behind a top-level construct change nothing of its outcome, where
/// that stays.
pub proof fn lemma_statement_extends(
    tokens: Seq<TokenView>,
    more: Seq<TokenView>,
    settings: ParserSettings,
)
    requires
        tokens.len() > 0,
        statement_stays(parse_statement_spec(tokens, settings), tokens, more, settings),
    ensures
        parse_statement_spec(tokens + more, settings) == parse_statement_spec(tokens, settings),
{
    let whole = tokens + more;
    assert(whole[0] == tokens[0]);
    match tokens[0] {
        TokenView::Def => {
            lemma_after_extends(tokens, 1, more);
            lemma_prototype_bounds(after(tokens, 1));
            lemma_prototype_extends(after(tokens, 1), more);
            if let Outcome::Good(_, n) = parse_prototype_spec(after(tokens, 1)) {
                lemma_after_extends(tokens, 1 + n, more);
                lemma_expr_bounds(after(tokens, 1 + n), settings);
                if let Outcome::Good(_, m) = parse_expr_spec(after(tokens, 1 + n), settings) {
                    lemma_settled_within(tokens, 1 + n, m, 1 + n + m, more, settings);
                }
                lemma_expr_extends(after(tokens, 1 + n), more, settings);
            }
        },
        TokenView::Extern => {
            lemma_after_extends(tokens, 1, more);
            lemma_prototype_extends(after(tokens, 1), more);
        },
        _ => {
            lemma_expr_extends(tokens, more, settings);
        },
    }
}

/// Whether the last top-level construct of `tokens` is a definition or a
/// bare expression that reaches their end. Its last expression was taken for
/// complete only because no token followed it.
pub open spec fn ends_open(tokens: Seq<TokenView>, settings: ParserSettings) -> bool
    decreases tokens.len(),
{
    if tokens.len() == 0 {
        false
    } else if tokens[0] == TokenView::Delimeter {
        ends_open(after(tokens, 1), settings)
    } else {
        match parse_statement_spec(tokens, settings) {
            Outcome::Good(node, n) => {
                if 0 < n < tokens.len() {
                    ends_open(after(tokens, n), settings)
                } else {
                    node is FunctionNode
                }
            },
            _ => false,
        }
    }
}

/// Parsing loses nothing: the tokens handed back are the tail of those
/// given, and the tree handed back starts with the tree given.
pub proof fn lemma_parse_keeps(
    tokens: Seq<TokenView>,
    tree: Seq<ASTNodeView>,
    settings: ParserSettings,
)
    ensures
        parse_spec(tokens, tree, settings) matches Ok(parsed) ==> {
            &&& parsed.1.len() <= tokens.len()
            &&& parsed.1 == tokens.skip(tokens.len() - parsed.1.len())
            &&& tree.len() <= parsed.0.len()
            &&& parsed.0.take(tree.len() as int) == tree
        },
    decreases tokens.len(),
{
    if tokens.len() == 0 {
        assert(tokens.skip(0) =~= tokens);
        assert(tree.take(tree.len() as int) =~= tree);
    } else if tokens[0] == TokenView::Delimeter {
        lemma_parse_keeps(after(tokens, 1), tree, settings);
        if let Ok(parsed) = parse_spec(tokens, tree, settings) {
            assert(parsed.1 =~= tokens.skip(tokens.len() - parsed.1.len()));
        }
    } else {
        lemma_statement_bounds(tokens, settings);
        match parse_statement_spec(tokens, settings) {
            Outcome::Good(node, n) => {
                lemma_parse_keeps(after(tokens, n), tree.push(node), settings);
                if let Ok(parsed) = parse_spec(tokens, tree, settings) {
                    assert(parsed.1 =~= tokens.skip(tokens.len() - parsed.1.len()));
                    assert(parsed.0.take(tree.len() as int) =~= parsed.0.take(
                        tree.len() + 1 as int,
                    ).take(tree.len() as int));
                    assert(tree.push(node).take(tree.len() as int) =~= tree);
                }
            },
            Outcome::NotComplete => {
                assert(tokens.skip(0) =~= tokens);
                assert(tree.take(tree.len() as int) =~= tree);
            },
            Outcome::Bad(_) => {},
        }
    }
}

/// What parsing two pieces one after the other comes to: an error of the
/// first piece stands; otherwise the second piece is parsed behind the
/// tokens that the first left over, onto the tree that it gave.
pub open spec fn parse_in_two_spec(
    first: Seq<TokenView>,
    second: Seq<TokenView>,
    tree: Seq<ASTNodeView>,
    settings: ParserSettings,
) -> Parsed {
    match parse_spec(first, tree, settings) {
        Ok((grown, pending)) => parse_spec(pending + second, grown, settings),
        Err(message) => Err(message),
    }
}

/// A sequence of tokens may be cut in two at any place and given to the
/// parser piece by piece: parsing the first piece, and then what that left
/// over with the second piece behind it, comes to the same as parsing the
/// whole at once.
///
/// One kind of cut is left out. Where the first piece ends with an expression
/// that the parser took for complete because the piece ended there, the
/// second piece must not start with a token that would have carried that
/// expression on.
pub proof fn lemma_resume(
    first: Seq<TokenView>,
    second: Seq<TokenView>,
    tree: Seq<ASTNodeView>,
    settings: ParserSettings,
)
    requires
        !(ends_open(first, settings) && carries_on(first, first.len(), second, settings)),
    ensures
        parse_spec(first + second, tree, settings) == parse_in_two_spec(
            first,
            second,
            tree,
            settings,
        ),
    decreases first.len(),
{
    let whole = first + second;
    if first.len() == 0 {
        assert(whole =~= first + second);
    } else {
        assert(whole[0] == first[0]);
        if first[0] == TokenView::Delimeter {
            lemma_after_extends(first, 1, second);
            if first.len() > 1 {
                assert(after(first, 1)[first.len() - 2] == first[first.len() - 1]);
            }
            lemma_resume(after(first, 1), second, tree, settings);
        } else {
            lemma_statement_bounds(first, settings);
            match parse_statement_spec(first, settings) {
                Outcome::Good(node, n) => {
                    if n < first.len() {
                        assert(after(first, n)[first.len() - n - 1] == first[first.len() - 1]);
                    }
                    lemma_statement_extends(first, second, settings);
                    lemma_after_extends(first, n, second);
                    lemma_resume(after(first, n), second, tree.push(node), settings);
                },
                Outcome::Bad(_) => {
                    lemma_statement_extends(first, second, settings);
                },
                Outcome::NotComplete => {},
            }
        }
    }
}

/// While the parser hands tokens back, any cut will do: the construct that
/// it waits for is read again from its first token once more tokens stand
/// behind it.
pub proof fn lemma_resume_pending(
    first: Seq<TokenView>,
    second: Seq<TokenView>,
    tree: Seq<ASTNodeView>,
    settings: ParserSettings,
)
    requires
        parse_spec(first, tree, settings) matches Ok(parsed) && parsed.1.len() > 0,
    ensures
        parse_spec(first + second, tree, settings) == parse_in_two_spec(
            first,
            second,
            tree,
            settings,
        ),
{
    lemma_pending_is_not_open(first, tree, settings);
    lemma_resume(first, second, tree, settings);
}

/// An error does not go away: what is malformed in a piece is malformed in
/// every sequence that starts with the piece.
pub proof fn lemma_error_stands(
    first: Seq<TokenView>,
    second: Seq<TokenView>,
    tree: Seq<ASTNodeView>,
    settings: ParserSettings,
)
    requires
        parse_spec(first, tree, settings) is Err,
    ensures
        parse_spec(first + second, tree, settings) == parse_spec(first, tree, settings),
    decreases first.len(),
{
    let whole = first + second;
    assert(whole[0] == first[0]);
    if first[0] == TokenView::Delimeter {
        lemma_after_extends(first, 1, second);
        lemma_error_stands(after(first, 1), second, tree, settings);
    } else {
        lemma_statement_bounds(first, settings);
        if let Outcome::Good(node, n) = parse_statement_spec(first, settings) {
            let later = parse_spec(after(first, n), tree.push(node), settings);
            assert(later is Err);
            assert(after(first, n).len() > 0);
            lemma_statement_extends(first, second, settings);
            lemma_after_extends(first, n, second);
            lemma_error_stands(after(first, n), second, tree.push(node), settings);
        } else {
            lemma_statement_extends(first, second, settings);
        }
    }
}

/// Where the parser hands tokens back, the last construct is none that it
/// took for complete.
pub proof fn lemma_pending_is_not_open(
    tokens: Seq<TokenView>,
    tree: Seq<ASTNodeView>,
    settings: ParserSettings,
)
    requires
        parse_spec(tokens, tree, settings) matches Ok(parsed) && parsed.1.len() > 0,
    ensures
        !ends_open(tokens, settings),
    decreases tokens.len(),
{
    if tokens.len() > 0 {
        if tokens[0] == TokenView::Delimeter {
            lemma_pending_is_not_open(after(tokens, 1), tree, settings);
        } else {
            lemma_statement_bounds(tokens, settings);
            if let Outcome::Good(node, n) = parse_statement_spec(tokens, settings) {
                lemma_pending_is_not_open(after(tokens, n), tree.push(node), settings);
            }
        }
    }
}

} // verus!
