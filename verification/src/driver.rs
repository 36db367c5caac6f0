//! The session: what is kept between the lines of an interactive session,
//! and what each line leads to.
//!
//! The session reads no input and prints nothing. Its caller hands it each
//! line as it arrives, and does what the reply says.

use crate::ast::{clone_nodes, ASTNode, ASTNodeView};
use crate::grammar::{parse_spec, ParserSettings};
use crate::lexer::{tokens_of, Lexer};
use crate::parser::parse;
use crate::resume::lemma_parse_keeps;
use crate::token::{clone_tokens, Token, TokenView};
use vstd::prelude::*;

verus! {

/// Which intermediate result the session hands out.
#[derive(Clone, Copy, Debug, PartialEq, Eq)]
pub enum Stage {
    /// The syntax tree of each input, once it is complete.
    AST,
    /// The tokens of each line.
    Tokens,
    /// The whole tree so far, for lowering, once nothing is pending.
    Assembly,
}

/// What arrives from the source of lines.
#[derive(Debug, PartialEq, Eq)]
pub enum Event<'a> {
    /// One line of text, with the character that ends it.
    Line(&'a str),
    /// The source has ended.
    Closed,
}

/// What the caller hands on to the stage that was chosen.
#[derive(Debug, PartialEq)]
pub enum Output {
    Nothing,
    /// The tokens of the line.
    Tokens(Vec<Token>),
    /// The nodes that were completed since nodes were last handed out.
    Ast(Vec<ASTNode>),
    /// The whole tree of the session, with nothing pending.
    Assembly(Vec<ASTNode>),
    /// The message of an error; the input in progress was dropped.
    Error(String),
}

/// What the caller does next.
#[derive(Clone, Copy, Debug, PartialEq, Eq)]
pub enum Next {
    /// End the session.
    Quit,
    /// Ask for a line that starts a new input.
    Fresh,
    /// Ask for a line that continues the input in progress.
    More,
}

/// What a line leads to.
#[derive(Debug, PartialEq)]
pub struct Reply {
    pub output: Output,
    pub next: Next,
}

/// An output, with its texts as sequences of characters.
pub enum OutputView {
    Nothing,
    Tokens(Seq<TokenView>),
    Ast(Seq<ASTNodeView>),
    Assembly(Seq<ASTNodeView>),
    Error(Seq<char>),
}

impl View for Output {
    type V = OutputView;

    open spec fn view(&self) -> OutputView {
        match self {
            Output::Nothing => OutputView::Nothing,
            Output::Tokens(tokens) => OutputView::Tokens(tokens.deep_view()),
            Output::Ast(nodes) => OutputView::Ast(nodes.deep_view()),
            Output::Assembly(nodes) => OutputView::Assembly(nodes.deep_view()),
            Output::Error(message) => OutputView::Error(message@),
        }
    }
}

/// A reply, with its texts as sequences of characters.
pub struct ReplyView {
    pub output: OutputView,
    pub next: Next,
}

impl View for Reply {
    type V = ReplyView;

    open spec fn view(&self) -> ReplyView {
        ReplyView { output: self.output@, next: self.next }
    }
}

/// What a session holds, with its texts as sequences of characters.
pub struct SessionView {
    pub stage: Stage,
    pub settings: ParserSettings,
    /// The tokens of the construct that is not complete yet, in their order.
    pub pending: Seq<TokenView>,
    /// The nodes of the session, in program order.
    pub ast: Seq<ASTNodeView>,
    /// How many of the nodes were handed out already.
    pub shown: nat,
}

/// The line that ends the session.
pub open spec fn quit_command() -> Seq<char> {
    ".quit\n"@
}

/// What the chosen stage is given after a line was parsed.
pub open spec fn output_of(
    stage: Stage,
    line: Seq<TokenView>,
    tree: Seq<ASTNodeView>,
    shown: nat,
    complete: bool,
) -> OutputView {
    match stage {
        Stage::Tokens => OutputView::Tokens(line),
        Stage::AST => if complete {
            OutputView::Ast(tree.skip(shown as int))
        } else {
            OutputView::Nothing
        },
        Stage::Assembly => if complete {
            OutputView::Assembly(tree)
        } else {
            OutputView::Nothing
        },
    }
}

/// One turn of the session.
///
/// The quit command and the end of the source end the session and change
/// nothing. Any other line is cut into tokens, and these are parsed behind
/// the tokens that were pending. An error, lexical or of syntax, is reported
/// and drops what was pending; the tree stays as it was. Otherwise the tree
/// grows by the nodes that were completed, and the tokens that the parser
/// handed back are pending. While tokens are pending the next line continues
/// the input.
///
/// The stage decides what is handed out and nothing else: what is pending,
/// the tree and the count of nodes handed out are the same for every stage.
pub open spec fn step_spec(session: SessionView, event: Option<Seq<char>>) -> (
    SessionView,
    ReplyView,
) {
    match event {
        None => (session, ReplyView { output: OutputView::Nothing, next: Next::Quit }),
        Some(text) => {
            if text == quit_command() {
                (session, ReplyView { output: OutputView::Nothing, next: Next::Quit })
            } else {
                match tokens_of(text) {
                    Err(error) => (
                        SessionView { pending: Seq::empty(), ..session },
                        ReplyView {
                            output: OutputView::Error(error.message()),
                            next: Next::Fresh,
                        },
                    ),
                    Ok(line) => match parse_spec(
                        session.pending + line,
                        session.ast,
                        session.settings,
                    ) {
                        Err(message) => (
                            SessionView { pending: Seq::empty(), ..session },
                            ReplyView { output: OutputView::Error(message), next: Next::Fresh },
                        ),
                        Ok((tree, rest)) => {
                            let complete = rest.len() == 0;
                            (
                                SessionView {
                                    pending: rest,
                                    ast: tree,
                                    shown: if complete {
                                        tree.len()
                                    } else {
                                        session.shown
                                    },
                                    ..session
                                },
                                ReplyView {
                                    output: output_of(
                                        session.stage,
                                        line,
                                        tree,
                                        session.shown,
                                        complete,
                                    ),
                                    next: if complete {
                                        Next::Fresh
                                    } else {
                                        Next::More
                                    },
                                },
                            )
                        },
                    },
                }
            }
        },
    }
}

/// The stage decides what is handed out and nothing else: with another
/// stage the same event leads to the same state and the same question for
/// the next line.
pub proof fn lemma_stage_selects_output_only(
    session: SessionView,
    stage: Stage,
    event: Option<Seq<char>>,
)
    ensures
        step_spec(SessionView { stage, ..session }, event).0 == (SessionView {
            stage,
            ..step_spec(session, event).0
        }),
        step_spec(SessionView { stage, ..session }, event).1.next == step_spec(
            session,
            event,
        ).1.next,
{
}

/// The tree of a session only grows, at its end: after any event it starts
/// with the tree from before, and no more of it was handed out than it
/// holds.
pub proof fn lemma_step_keeps_tree(session: SessionView, event: Option<Seq<char>>)
    requires
        session.shown <= session.ast.len(),
    ensures
        session.ast.len() <= step_spec(session, event).0.ast.len(),
        step_spec(session, event).0.ast.take(session.ast.len() as int) == session.ast,
        session.shown <= step_spec(session, event).0.shown <= step_spec(session, event).0.ast.len(),
{
    assert(session.ast.take(session.ast.len() as int) =~= session.ast);
    if let Some(text) = event {
        if let Ok(line) = tokens_of(text) {
            lemma_parse_keeps(session.pending + line, session.ast, session.settings);
        }
    }
}

/// The state of an interactive session.
pub struct Session {
    stage: Stage,
    settings: ParserSettings,
    pending: Vec<Token>,
    ast: Vec<ASTNode>,
    shown: usize,
}

impl View for Session {
    type V = SessionView;

    closed spec fn view(&self) -> SessionView {
        SessionView {
            stage: self.stage,
            settings: self.settings,
            pending: self.pending.deep_view(),
            ast: self.ast.deep_view(),
            shown: self.shown as nat,
        }
    }
}

impl<'a> Event<'a> {
    /// The line that arrived, if one did.
    pub open spec fn text(self) -> Option<Seq<char>> {
        match self {
            Event::Line(text) => Some(text@),
            Event::Closed => None,
        }
    }
}

impl Session {
    #[verifier::type_invariant]
    spec fn well_formed(self) -> bool {
        self.shown <= self.ast.len()
    }

    /// A session in which nothing was read yet.
    pub fn new(stage: Stage, settings: ParserSettings) -> (session: Session)
        ensures
            session@ == (SessionView {
                stage,
                settings,
                pending: Seq::empty(),
                ast: Seq::empty(),
                shown: 0,
            }),
    {
        let session = Session { stage, settings, pending: Vec::new(), ast: Vec::new(), shown: 0 };
        assert(session.pending.deep_view() =~= Seq::<TokenView>::empty());
        assert(session.ast.deep_view() =~= Seq::<ASTNodeView>::empty());
        session
    }

    /// The stage that was chosen.
    pub fn stage(&self) -> (stage: Stage)
        ensures
            stage == self@.stage,
    {
        self.stage
    }

    /// The tokens of the construct that is not complete yet.
    pub fn pending(&self) -> (pending: &Vec<Token>)
        ensures
            pending.deep_view() == self@.pending,
    {
        &self.pending
    }

    /// The nodes of the session, in program order.
    pub fn ast(&self) -> (ast: &Vec<ASTNode>)
        ensures
            ast.deep_view() == self@.ast,
            self@.shown <= ast.len(),
    {
        proof {
            use_type_invariant(self);
        }
        &self.ast
    }

    /// Takes one event and says what it leads to.
    pub fn step(&mut self, event: Event) -> (reply: Reply)
        ensures
            (final(self)@, reply@) == step_spec(old(self)@, event.text()),
    {
        proof {
            use_type_invariant(&*self);
        }
        let text = match event {
            Event::Closed => {
                return Reply { output: Output::Nothing, next: Next::Quit };
            },
            Event::Line(text) => text,
        };
        if String::from_str(text) == String::from_str(".quit\n") {
            return Reply { output: Output::Nothing, next: Next::Quit };
        }
        let mut lexer = Lexer::new(text);
        let mut line = match lexer.get_all_tokens() {
            Ok(line) => line,
            Err(error) => {
                self.pending = Vec::new();
                assert(self.pending.deep_view() =~= Seq::<TokenView>::empty());
                return Reply { output: Output::Error(error.message()), next: Next::Fresh };
            },
        };
        let ghost line_view = line.deep_view();
        let ghost before = self.pending.deep_view();
        let shown_line = if let Stage::Tokens = self.stage {
            let copy = clone_tokens(line.as_slice(), 0, line.len());
            assert(line_view.subrange(0, line.len() as int) =~= line_view);
            copy
        } else {
            Vec::new()
        };
        let mut tokens: Vec<Token> = Vec::new();
        std::mem::swap(&mut tokens, &mut self.pending);
        tokens.append(&mut line);
        assert(tokens.deep_view() =~= before + line_view);
        match parse(tokens.as_slice(), self.ast.as_slice(), &self.settings) {
            Err(message) => {
                self.pending = Vec::new();
                assert(self.pending.deep_view() =~= Seq::<TokenView>::empty());
                Reply { output: Output::Error(message), next: Next::Fresh }
            },
            Ok((tree, rest)) => {
                proof {
                    lemma_parse_keeps(before + line_view, self.ast.deep_view(), self.settings);
                }
                let complete = rest.len() == 0;
                let output = match self.stage {
                    Stage::Tokens => Output::Tokens(shown_line),
                    Stage::AST => if complete {
                        let fresh = clone_nodes(tree.as_slice(), self.shown, tree.len());
                        assert(tree.deep_view().subrange(self.shown as int, tree.len() as int)
                            =~= tree.deep_view().skip(self.shown as int));
                        Output::Ast(fresh)
                    } else {
                        Output::Nothing
                    },
                    Stage::Assembly => if complete {
                        let whole = clone_nodes(tree.as_slice(), 0, tree.len());
                        assert(tree.deep_view().subrange(0, tree.len() as int)
                            =~= tree.deep_view());
                        Output::Assembly(whole)
                    } else {
                        Output::Nothing
                    },
                };
                self.pending = rest;
                self.ast = tree;
                if complete {
                    self.shown = self.ast.len();
                }
                Reply {
                    output,
                    next: if complete {
                        Next::Fresh
                    } else {
                        Next::More
                    },
                }
            },
        }
    }
}

} // verus!
