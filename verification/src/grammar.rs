//! The grammar, as functions from a sequence of tokens to what the parser
//! makes of it.
//!
//! ```text
//! program     : [statement | expression | ';']*
//! statement   : 'def' prototype expression | 'extern' prototype
//! prototype   : identifier '(' [identifier (',' identifier)*]? ')'
//! expression  : primary (operator primary)*
//! primary     : identifier | number | call | '(' expression ')'
//!             | 'let' identifier '=' expression
//! call        : identifier '(' [expression (',' expression)*]? ')'
//! ```
//!
//! Every function here reads its construct at the head of the tokens it is
//! given. Where the tokens end before the construct does, the result is
//! `NotComplete`, whatever was read so far: the same tokens, with more
//! behind them, are read again from the start.

use crate::ast::{ASTNodeView, ExprView, FunctionView, PrototypeView};
use crate::token::{BinaryOp, TokenView};
use vstd::prelude::*;

verus! {

/// The binding strength of each operator that is in use. An operator
/// without an entry is unknown to the parser.
#[derive(Clone, Copy, Debug, PartialEq, Eq)]
pub struct ParserSettings {
    add: Option<i32>,
    sub: Option<i32>,
    mul: Option<i32>,
    div: Option<i32>,
    shift: Option<i32>,
}

impl ParserSettings {
    /// The binding strength of `op`, if it has one. Higher binds tighter.
    pub closed spec fn spec_precedence(self, op: BinaryOp) -> Option<i32> {
        match op {
            BinaryOp::Add => self.add,
            BinaryOp::Sub => self.sub,
            BinaryOp::Mul => self.mul,
            BinaryOp::Div => self.div,
            BinaryOp::Shift => self.shift,
        }
    }

    /// The binding strength of `op`, if it has one. Higher binds tighter.
    pub fn precedence(&self, op: BinaryOp) -> (precedence: Option<i32>)
        ensures
            precedence == self.spec_precedence(op),
    {
        match op {
            BinaryOp::Add => self.add,
            BinaryOp::Sub => self.sub,
            BinaryOp::Mul => self.mul,
            BinaryOp::Div => self.div,
            BinaryOp::Shift => self.shift,
        }
    }

    /// Settings that know no operator.
    pub fn empty() -> (settings: ParserSettings)
        ensures
            forall|op: BinaryOp| settings.spec_precedence(op) is None,
    {
        ParserSettings { add: None, sub: None, mul: None, div: None, shift: None }
    }

    /// Gives `op` the binding strength `precedence`, or none.
    pub fn set_precedence(&mut self, op: BinaryOp, precedence: Option<i32>)
        ensures
            final(self).spec_precedence(op) == precedence,
            forall|other: BinaryOp|
                other != op ==> final(self).spec_precedence(other) == old(self).spec_precedence(
                    other,
                ),
    {
        match op {
            BinaryOp::Add => {
                self.add = precedence;
            },
            BinaryOp::Sub => {
                self.sub = precedence;
            },
            BinaryOp::Mul => {
                self.mul = precedence;
            },
            BinaryOp::Div => {
                self.div = precedence;
            },
            BinaryOp::Shift => {
                self.shift = precedence;
            },
        }
    }
}

impl Default for ParserSettings {
    /// The usual table: `*` and `/` at 40, `+` and `-` at 20, the shift at
    /// 10.
    fn default() -> (settings: ParserSettings)
        ensures
            settings.spec_precedence(BinaryOp::Shift) == Some(10i32),
            settings.spec_precedence(BinaryOp::Add) == Some(20i32),
            settings.spec_precedence(BinaryOp::Sub) == Some(20i32),
            settings.spec_precedence(BinaryOp::Mul) == Some(40i32),
            settings.spec_precedence(BinaryOp::Div) == Some(40i32),
    {
        ParserSettings {
            add: Some(20),
            sub: Some(20),
            mul: Some(40),
            div: Some(40),
            shift: Some(10),
        }
    }
}

/// What reading one construct comes to.
pub enum Outcome<T> {
    /// The construct, and the number of tokens that it takes.
    Good(T, nat),
    /// The tokens end before the construct does.
    NotComplete,
    /// The tokens cannot start this construct; the message says why.
    Bad(Seq<char>),
}

impl<T> Outcome<T> {
    /// The same outcome for a construct that starts `by` tokens later.
    pub open spec fn shift(self, by: nat) -> Outcome<T> {
        match self {
            Outcome::Good(value, n) => Outcome::Good(value, n + by),
            Outcome::NotComplete => Outcome::NotComplete,
            Outcome::Bad(message) => Outcome::Bad(message),
        }
    }
}

/// The tokens that follow the first `n`.
pub open spec fn after(tokens: Seq<TokenView>, n: nat) -> Seq<TokenView> {
    if n <= tokens.len() {
        tokens.skip(n as int)
    } else {
        Seq::empty()
    }
}

/// The message for a token that cannot start an expression.
pub open spec fn unexpected_token_message(token: TokenView) -> Seq<char> {
    "unknown token "@ + token.kind_name() + " when expecting an expression."@
}

/// `identifier '(' [identifier (',' identifier)*]? ')'`
pub open spec fn parse_prototype_spec(tokens: Seq<TokenView>) -> Outcome<PrototypeView> {
    if tokens.len() == 0 {
        Outcome::NotComplete
    } else {
        match tokens[0] {
            TokenView::Identity(name) => {
                if tokens.len() == 1 {
                    Outcome::NotComplete
                } else if tokens[1] != TokenView::LParen {
                    Outcome::Bad("expected '(' in prototype"@)
                } else if tokens.len() == 2 {
                    Outcome::NotComplete
                } else {
                    match tokens[2] {
                        TokenView::RParen => Outcome::Good(
                            PrototypeView { name, args: Seq::empty() },
                            3,
                        ),
                        TokenView::Identity(arg) => parse_parameters_spec(
                            after(tokens, 3),
                            name,
                            seq![arg],
                        ).shift(3),
                        _ => Outcome::Bad("expected ')' in prototype"@),
                    }
                }
            },
            _ => Outcome::Bad("expected function name in prototype"@),
        }
    }
}

/// The rest of a parameter list, behind a parameter: `(',' identifier)* ')'`.
pub open spec fn parse_parameters_spec(
    tokens: Seq<TokenView>,
    name: Seq<char>,
    args: Seq<Seq<char>>,
) -> Outcome<PrototypeView>
    decreases tokens.len(),
{
    if tokens.len() == 0 {
        Outcome::NotComplete
    } else {
        match tokens[0] {
            TokenView::RParen => Outcome::Good(PrototypeView { name, args }, 1),
            TokenView::Comma => {
                if tokens.len() == 1 {
                    Outcome::NotComplete
                } else {
                    match tokens[1] {
                        TokenView::Identity(arg) => parse_parameters_spec(
                            after(tokens, 2),
                            name,
                            args.push(arg),
                        ).shift(2),
                        _ => Outcome::Bad("expected parameter name in prototype"@),
                    }
                }
            },
            _ => Outcome::Bad("expected ',' or ')' in prototype"@),
        }
    }
}

/// A primary expression: what the first token announces.
pub open spec fn parse_primary_spec(tokens: Seq<TokenView>, settings: ParserSettings) -> Outcome<
    ExprView,
>
    decreases tokens.len(), 1nat,
{
    if tokens.len() == 0 {
        Outcome::NotComplete
    } else {
        match tokens[0] {
            TokenView::Identity(_) => parse_ident_spec(tokens, settings),
            TokenView::Number(_) => parse_literal_spec(tokens),
            TokenView::LParen => parse_parenthesis_spec(tokens, settings),
            TokenView::Let => parse_assignment_spec(tokens, settings),
            token => Outcome::Bad(unexpected_token_message(token)),
        }
    }
}

/// `number`
pub open spec fn parse_literal_spec(tokens: Seq<TokenView>) -> Outcome<ExprView> {
    if tokens.len() == 0 {
        Outcome::NotComplete
    } else {
        match tokens[0] {
            TokenView::Number(value) => Outcome::Good(ExprView::Literal(value), 1),
            _ => Outcome::Bad("literal expected"@),
        }
    }
}

/// `identifier`, a variable, or, where `(` follows at once, a call:
/// `identifier '(' [expression (',' expression)*]? ')'`.
pub open spec fn parse_ident_spec(tokens: Seq<TokenView>, settings: ParserSettings) -> Outcome<
    ExprView,
>
    decreases tokens.len(), 0nat,
{
    if tokens.len() == 0 {
        Outcome::NotComplete
    } else {
        match tokens[0] {
            TokenView::Identity(name) => {
                if tokens.len() == 1 || tokens[1] != TokenView::LParen {
                    Outcome::Good(ExprView::Variable(name), 1)
                } else if tokens.len() == 2 {
                    Outcome::NotComplete
                } else if tokens[2] == TokenView::RParen {
                    Outcome::Good(ExprView::Call(name, Seq::empty()), 3)
                } else {
                    parse_arguments_spec(after(tokens, 2), settings, name, Seq::empty()).shift(2)
                }
            },
            _ => Outcome::Bad("identifier expected"@),
        }
    }
}

/// The rest of an argument list, from an argument on:
/// `expression (',' expression)* ')'`.
pub open spec fn parse_arguments_spec(
    tokens: Seq<TokenView>,
    settings: ParserSettings,
    name: Seq<char>,
    args: Seq<ExprView>,
) -> Outcome<ExprView>
    decreases tokens.len(), 3nat,
{
    match parse_expr_spec(tokens, settings) {
        Outcome::Good(arg, n) => {
            if n >= tokens.len() {
                Outcome::NotComplete
            } else {
                match tokens[n as int] {
                    TokenView::RParen => Outcome::Good(ExprView::Call(name, args.push(arg)), n + 1),
                    TokenView::Comma => parse_arguments_spec(
                        after(tokens, n + 1),
                        settings,
                        name,
                        args.push(arg),
                    ).shift(n + 1),
                    _ => Outcome::Bad("expected ',' or ')' in call"@),
                }
            }
        },
        Outcome::NotComplete => Outcome::NotComplete,
        Outcome::Bad(message) => Outcome::Bad(message),
    }
}

/// `'(' expression ')'`
pub open spec fn parse_parenthesis_spec(
    tokens: Seq<TokenView>,
    settings: ParserSettings,
) -> Outcome<ExprView>
    decreases tokens.len(), 0nat,
{
    if tokens.len() == 0 {
        Outcome::NotComplete
    } else {
        match parse_expr_spec(after(tokens, 1), settings) {
            Outcome::Good(inner, n) => {
                if 1 + n >= tokens.len() {
                    Outcome::NotComplete
                } else if tokens[1 + n as int] == TokenView::RParen {
                    Outcome::Good(inner, n + 2)
                } else {
                    Outcome::Bad("')' expected"@)
                }
            },
            Outcome::NotComplete => Outcome::NotComplete,
            Outcome::Bad(message) => Outcome::Bad(message),
        }
    }
}

/// `'let' identifier '=' expression`
pub open spec fn parse_assignment_spec(
    tokens: Seq<TokenView>,
    settings: ParserSettings,
) -> Outcome<ExprView>
    decreases tokens.len(), 0nat,
{
    if tokens.len() == 0 {
        Outcome::NotComplete
    } else if tokens[0] != TokenView::Let {
        Outcome::Bad("Expected let keyword"@)
    } else if tokens.len() == 1 {
        Outcome::NotComplete
    } else {
        match tokens[1] {
            TokenView::Identity(name) => {
                if tokens.len() == 2 {
                    Outcome::NotComplete
                } else if tokens[2] != TokenView::Assign {
                    Outcome::Bad("Expected = token"@)
                } else {
                    match parse_expr_spec(after(tokens, 3), settings) {
                        Outcome::Good(value, n) => Outcome::Good(
                            ExprView::Assignment(name, Box::new(value)),
                            n + 3,
                        ),
                        Outcome::NotComplete => Outcome::NotComplete,
                        Outcome::Bad(message) => Outcome::Bad(message),
                    }
                }
            },
            _ => Outcome::Bad("Expected identifier after let keyword"@),
        }
    }
}

/// An expression: a primary, and the operators and operands behind it.
pub open spec fn parse_expr_spec(tokens: Seq<TokenView>, settings: ParserSettings) -> Outcome<
    ExprView,
>
    decreases tokens.len(), 2nat,
{
    match parse_primary_spec(tokens, settings) {
        Outcome::Good(lhs, n) => parse_binary_spec(after(tokens, n), settings, 0, lhs).shift(n),
        Outcome::NotComplete => Outcome::NotComplete,
        Outcome::Bad(message) => Outcome::Bad(message),
    }
}

/// The operators behind the operand `lhs`, for as long as they bind at
/// least as tightly as `floor`.
pub open spec fn parse_binary_spec(
    tokens: Seq<TokenView>,
    settings: ParserSettings,
    floor: int,
    lhs: ExprView,
) -> Outcome<ExprView>
    decreases tokens.len(), 1nat,
{
    if tokens.len() == 0 {
        Outcome::Good(lhs, 0)
    } else {
        match tokens[0] {
            TokenView::BinOp(op) => {
                match settings.spec_precedence(op) {
                    None => Outcome::Bad("unknown operator found"@),
                    Some(precedence) => {
                        if precedence >= floor {
                            parse_operation_spec(
                                after(tokens, 1),
                                settings,
                                floor,
                                op,
                                precedence as int,
                                lhs,
                            ).shift(1)
                        } else {
                            Outcome::Good(lhs, 0)
                        }
                    },
                }
            },
            _ => Outcome::Good(lhs, 0),
        }
    }
}

/// What stands behind the operator `op` of strength `precedence`, whose
/// left operand is `lhs`.
///
/// The operator takes the primary behind it as its right operand. Before the
/// two are joined, that operand takes in the operators that follow it and
/// bind more tightly than `op`. The result is the left operand of the
/// operators that follow and bind at least as tightly as `floor`.
pub open spec fn parse_operation_spec(
    tokens: Seq<TokenView>,
    settings: ParserSettings,
    floor: int,
    op: BinaryOp,
    precedence: int,
    lhs: ExprView,
) -> Outcome<ExprView>
    decreases tokens.len(), 3nat,
{
    match parse_primary_spec(tokens, settings) {
        Outcome::Good(rhs, n) => {
            match parse_tighter_spec(after(tokens, n), settings, precedence, rhs) {
                Outcome::Good(rhs, m) => parse_binary_spec(
                    after(tokens, n + m),
                    settings,
                    floor,
                    ExprView::Binary(op, Box::new(lhs), Box::new(rhs)),
                ).shift(n + m),
                Outcome::NotComplete => Outcome::NotComplete,
                Outcome::Bad(message) => Outcome::Bad(message),
            }
        },
        Outcome::NotComplete => Outcome::NotComplete,
        Outcome::Bad(message) => Outcome::Bad(message),
    }
}

/// What the right operand `rhs` of an operator of strength `precedence`
/// takes in: each operator behind it that binds more tightly, with all that
/// binds at least as tightly as that one.
pub open spec fn parse_tighter_spec(
    tokens: Seq<TokenView>,
    settings: ParserSettings,
    precedence: int,
    rhs: ExprView,
) -> Outcome<ExprView>
    decreases tokens.len(), 2nat,
{
    if tokens.len() == 0 {
        Outcome::Good(rhs, 0)
    } else {
        match tokens[0] {
            TokenView::BinOp(op) => {
                match settings.spec_precedence(op) {
                    None => Outcome::Bad("unknown operator found"@),
                    Some(tighter) => {
                        if tighter > precedence {
                            match parse_operation_spec(
                                after(tokens, 1),
                                settings,
                                tighter as int,
                                op,
                                tighter as int,
                                rhs,
                            ) {
                                Outcome::Good(rhs, n) => parse_tighter_spec(
                                    after(tokens, 1 + n),
                                    settings,
                                    precedence,
                                    rhs,
                                ).shift(1 + n),
                                Outcome::NotComplete => Outcome::NotComplete,
                                Outcome::Bad(message) => Outcome::Bad(message),
                            }
                        } else {
                            Outcome::Good(rhs, 0)
                        }
                    },
                }
            },
            _ => Outcome::Good(rhs, 0),
        }
    }
}

/// `'def' prototype expression`
pub open spec fn parse_function_spec(tokens: Seq<TokenView>, settings: ParserSettings) -> Outcome<
    ASTNodeView,
> {
    match parse_prototype_spec(after(tokens, 1)) {
        Outcome::Good(prototype, n) => {
            match parse_expr_spec(after(tokens, 1 + n), settings) {
                Outcome::Good(body, m) => Outcome::Good(
                    ASTNodeView::FunctionNode(FunctionView { prototype, body }),
                    1 + n + m,
                ),
                Outcome::NotComplete => Outcome::NotComplete,
                Outcome::Bad(message) => Outcome::Bad(message),
            }
        },
        Outcome::NotComplete => Outcome::NotComplete,
        Outcome::Bad(message) => Outcome::Bad(message),
    }
}

/// `'extern' prototype`
pub open spec fn parse_extern_spec(tokens: Seq<TokenView>) -> Outcome<ASTNodeView> {
    match parse_prototype_spec(after(tokens, 1)) {
        Outcome::Good(prototype, n) => Outcome::Good(ASTNodeView::ExternNode(prototype), 1 + n),
        Outcome::NotComplete => Outcome::NotComplete,
        Outcome::Bad(message) => Outcome::Bad(message),
    }
}

/// The function without a name and without parameters that a bare
/// expression at top level stands for.
pub open spec fn anonymous_function(body: ExprView) -> ASTNodeView {
    ASTNodeView::FunctionNode(
        FunctionView { prototype: PrototypeView { name: Seq::empty(), args: Seq::empty() }, body },
    )
}

/// A bare expression at top level.
pub open spec fn parse_expression_spec(
    tokens: Seq<TokenView>,
    settings: ParserSettings,
) -> Outcome<ASTNodeView> {
    match parse_expr_spec(tokens, settings) {
        Outcome::Good(body, n) => Outcome::Good(anonymous_function(body), n),
        Outcome::NotComplete => Outcome::NotComplete,
        Outcome::Bad(message) => Outcome::Bad(message),
    }
}

/// The top-level construct that starts with the first of `tokens`, which is
/// no delimiter.
pub open spec fn parse_statement_spec(
    tokens: Seq<TokenView>,
    settings: ParserSettings,
) -> Outcome<ASTNodeView>
    recommends
        tokens.len() > 0,
{
    match tokens[0] {
        TokenView::Def => parse_function_spec(tokens, settings),
        TokenView::Extern => parse_extern_spec(tokens),
        _ => parse_expression_spec(tokens, settings),
    }
}

/// Whether a complete construct takes at least `least` tokens and no more
/// than there are.
pub open spec fn within<T>(outcome: Outcome<T>, least: nat, tokens: Seq<TokenView>) -> bool {
    outcome matches Outcome::Good(_, n) ==> least <= n <= tokens.len()
}

/// Whether `tokens` start with an operator that binds at least as tightly as
/// `floor`.
pub open spec fn binds_at(tokens: Seq<TokenView>, settings: ParserSettings, floor: int) -> bool {
    &&& tokens.len() > 0
    &&& tokens[0] is BinOp
    &&& settings.spec_precedence(tokens[0]->BinOp_0) is Some
    &&& settings.spec_precedence(tokens[0]->BinOp_0)->0 >= floor
}

/// The rest of a parameter list takes at least its closing bracket.
pub proof fn lemma_parameters_bounds(
    tokens: Seq<TokenView>,
    name: Seq<char>,
    args: Seq<Seq<char>>,
)
    ensures
        within(parse_parameters_spec(tokens, name, args), 1, tokens),
    decreases tokens.len(),
{
    if tokens.len() > 1 && tokens[0] == TokenView::Comma {
        if let TokenView::Identity(arg) = tokens[1] {
            lemma_parameters_bounds(after(tokens, 2), name, args.push(arg));
        }
    }
}

/// A prototype takes at least a name and two brackets.
pub proof fn lemma_prototype_bounds(tokens: Seq<TokenView>)
    ensures
        within(parse_prototype_spec(tokens), 3, tokens),
{
    if tokens.len() > 2 {
        if let TokenView::Identity(name) = tokens[0] {
            if let TokenView::Identity(arg) = tokens[2] {
                lemma_parameters_bounds(after(tokens, 3), name, seq![arg]);
            }
        }
    }
}

/// A primary expression takes at least one token.
pub proof fn lemma_primary_bounds(tokens: Seq<TokenView>, settings: ParserSettings)
    ensures
        within(parse_primary_spec(tokens, settings), 1, tokens),
    decreases tokens.len(), 1nat,
{
    if tokens.len() > 0 {
        match tokens[0] {
            TokenView::Identity(_) => lemma_ident_bounds(tokens, settings),
            TokenView::LParen => lemma_parenthesis_bounds(tokens, settings),
            TokenView::Let => lemma_assignment_bounds(tokens, settings),
            _ => {},
        }
    }
}

/// A variable or a call takes at least one token.
pub proof fn lemma_ident_bounds(tokens: Seq<TokenView>, settings: ParserSettings)
    ensures
        within(parse_ident_spec(tokens, settings), 1, tokens),
    decreases tokens.len(), 0nat,
{
    if tokens.len() > 2 {
        if let TokenView::Identity(name) = tokens[0] {
            lemma_arguments_bounds(after(tokens, 2), settings, name, Seq::empty());
        }
    }
}

/// The rest of an argument list takes at least an argument and the closing
/// bracket.
pub proof fn lemma_arguments_bounds(
    tokens: Seq<TokenView>,
    settings: ParserSettings,
    name: Seq<char>,
    args: Seq<ExprView>,
)
    ensures
        within(parse_arguments_spec(tokens, settings, name, args), 2, tokens),
    decreases tokens.len(), 3nat,
{
    lemma_expr_bounds(tokens, settings);
    if let Outcome::Good(arg, n) = parse_expr_spec(tokens, settings) {
        if n < tokens.len() && tokens[n as int] == TokenView::Comma {
            lemma_arguments_bounds(after(tokens, n + 1), settings, name, args.push(arg));
        }
    }
}

/// An expression in brackets takes at least three tokens.
pub proof fn lemma_parenthesis_bounds(tokens: Seq<TokenView>, settings: ParserSettings)
    ensures
        within(parse_parenthesis_spec(tokens, settings), 3, tokens),
    decreases tokens.len(), 0nat,
{
    if tokens.len() > 0 {
        lemma_expr_bounds(after(tokens, 1), settings);
    }
}

/// A let-binding takes at least four tokens.
pub proof fn lemma_assignment_bounds(tokens: Seq<TokenView>, settings: ParserSettings)
    ensures
        within(parse_assignment_spec(tokens, settings), 4, tokens),
    decreases tokens.len(), 0nat,
{
    if tokens.len() > 3 {
        lemma_expr_bounds(after(tokens, 3), settings);
    }
}

/// An expression takes at least one token.
pub proof fn lemma_expr_bounds(tokens: Seq<TokenView>, settings: ParserSettings)
    ensures
        within(parse_expr_spec(tokens, settings), 1, tokens),
    decreases tokens.len(), 2nat,
{
    lemma_primary_bounds(tokens, settings);
    if let Outcome::Good(lhs, n) = parse_primary_spec(tokens, settings) {
        lemma_binary_bounds(after(tokens, n), settings, 0, lhs);
    }
}

/// The operators behind an operand take no more tokens than there are, and
/// where the first of them binds, at least two.
pub proof fn lemma_binary_bounds(
    tokens: Seq<TokenView>,
    settings: ParserSettings,
    floor: int,
    lhs: ExprView,
)
    ensures
        within(parse_binary_spec(tokens, settings, floor, lhs), 0, tokens),
        binds_at(tokens, settings, floor) ==> within(
            parse_binary_spec(tokens, settings, floor, lhs),
            2,
            tokens,
        ),
    decreases tokens.len(), 1nat,
{
    if binds_at(tokens, settings, floor) {
        let op = tokens[0]->BinOp_0;
        let precedence = settings.spec_precedence(op)->0 as int;
        lemma_operation_bounds(after(tokens, 1), settings, floor, op, precedence, lhs);
    }
}

/// What stands behind an operator takes at least its right operand.
pub proof fn lemma_operation_bounds(
    tokens: Seq<TokenView>,
    settings: ParserSettings,
    floor: int,
    op: BinaryOp,
    precedence: int,
    lhs: ExprView,
)
    ensures
        within(parse_operation_spec(tokens, settings, floor, op, precedence, lhs), 1, tokens),
    decreases tokens.len(), 3nat,
{
    lemma_primary_bounds(tokens, settings);
    if let Outcome::Good(rhs, n) = parse_primary_spec(tokens, settings) {
        lemma_tighter_bounds(after(tokens, n), settings, precedence, rhs);
        if let Outcome::Good(rhs, m) = parse_tighter_spec(
            after(tokens, n),
            settings,
            precedence,
            rhs,
        ) {
            lemma_binary_bounds(
                after(tokens, n + m),
                settings,
                floor,
                ExprView::Binary(op, Box::new(lhs), Box::new(rhs)),
            );
        }
    }
}

/// What a right operand takes in is no more than there is.
pub proof fn lemma_tighter_bounds(
    tokens: Seq<TokenView>,
    settings: ParserSettings,
    precedence: int,
    rhs: ExprView,
)
    ensures
        within(parse_tighter_spec(tokens, settings, precedence, rhs), 0, tokens),
    decreases tokens.len(), 2nat,
{
    if binds_at(tokens, settings, precedence + 1) {
        let op = tokens[0]->BinOp_0;
        let tighter = settings.spec_precedence(op)->0 as int;
        lemma_operation_bounds(after(tokens, 1), settings, tighter, op, tighter, rhs);
        if let Outcome::Good(rhs, n) = parse_operation_spec(
            after(tokens, 1),
            settings,
            tighter,
            op,
            tighter,
            rhs,
        ) {
            lemma_tighter_bounds(after(tokens, 1 + n), settings, precedence, rhs);
        }
    }
}

/// A top-level construct takes at least one token.
pub proof fn lemma_statement_bounds(tokens: Seq<TokenView>, settings: ParserSettings)
    requires
        tokens.len() > 0,
    ensures
        within(parse_statement_spec(tokens, settings), 1, tokens),
{
    lemma_prototype_bounds(after(tokens, 1));
    lemma_expr_bounds(tokens, settings);
    if let Outcome::Good(_, n) = parse_prototype_spec(after(tokens, 1)) {
        lemma_expr_bounds(after(tokens, 1 + n), settings);
    }
}

/// What parsing comes to: the tree with the new nodes behind the old ones
/// and the tokens that were not taken, or the message of a failure.
pub type Parsed = Result<(Seq<ASTNodeView>, Seq<TokenView>), Seq<char>>;

/// The whole of the parser: top-level constructs are read from `tokens`
/// and appended to `tree` until the tokens end, a construct is not complete,
/// or one is malformed. Delimiters between them are dropped.
///
/// The tokens handed back are those of the construct that was not complete,
/// from its first token on, exactly as they came.
pub open spec fn parse_spec(
    tokens: Seq<TokenView>,
    tree: Seq<ASTNodeView>,
    settings: ParserSettings,
) -> Parsed
    decreases tokens.len(),
{
    if tokens.len() == 0 {
        Ok((tree, tokens))
    } else if tokens[0] == TokenView::Delimeter {
        parse_spec(after(tokens, 1), tree, settings)
    } else {
        match parse_statement_spec(tokens, settings) {
            Outcome::Good(node, n) => {
                proof {
                    lemma_statement_bounds(tokens, settings);
                }
                parse_spec(after(tokens, n), tree.push(node), settings)
            },
            Outcome::NotComplete => Ok((tree, tokens)),
            Outcome::Bad(message) => Err(message),
        }
    }
}

} // verus!
