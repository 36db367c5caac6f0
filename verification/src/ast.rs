//! The syntax tree that the parser builds.

use crate::token::{BinaryOp, Number};
use vstd::prelude::*;

verus! {

/// An expression, with its texts as sequences of characters.
pub enum ExprView {
    Literal(Seq<char>),
    Variable(Seq<char>),
    Assignment(Seq<char>, Box<ExprView>),
    Call(Seq<char>, Seq<ExprView>),
    Binary(BinaryOp, Box<ExprView>, Box<ExprView>),
}

/// A prototype, with its texts as sequences of characters.
pub struct PrototypeView {
    pub name: Seq<char>,
    pub args: Seq<Seq<char>>,
}

/// A function, with its texts as sequences of characters.
pub struct FunctionView {
    pub prototype: PrototypeView,
    pub body: ExprView,
}

/// A top-level node, with its texts as sequences of characters.
pub enum ASTNodeView {
    ExternNode(PrototypeView),
    FunctionNode(FunctionView),
}

/// An expression. Every node owns its children.
#[derive(Debug, PartialEq)]
pub enum Expression {
    /// A numeric literal.
    LiteralExpr(Number),
    /// The variable of that name.
    VariableExpr(String),
    /// `let name = value`.
    AssignmentOp(String, Box<Expression>),
    /// A call of the function of that name, with its arguments in order.
    CallExpr(String, Vec<Expression>),
    /// An operator between its left and its right operand.
    BinaryExpr(BinaryOp, Box<Expression>, Box<Expression>),
}

/// A function signature: a name and the names of the parameters, in order.
/// Nothing keeps two parameters from having one name.
#[derive(Debug, PartialEq)]
pub struct Prototype {
    pub name: String,
    pub args: Vec<String>,
}

/// A function definition. A bare expression at top level is a function
/// with an empty name and no parameters.
#[derive(Debug, PartialEq)]
pub struct Function {
    pub prototype: Prototype,
    pub body: Expression,
}

/// One top-level unit of a program.
#[derive(Debug, PartialEq)]
pub enum ASTNode {
    ExternNode(Prototype),
    FunctionNode(Function),
}

impl Expression {
    /// The tree that this expression is.
    pub open spec fn model(self) -> ExprView
        decreases self,
    {
        match self {
            Expression::LiteralExpr(value) => ExprView::Literal(value@),
            Expression::VariableExpr(name) => ExprView::Variable(name@),
            Expression::AssignmentOp(name, value) => ExprView::Assignment(
                name@,
                Box::new(value.model()),
            ),
            Expression::CallExpr(name, args) => ExprView::Call(
                name@,
                Seq::new(
                    args.len() as nat,
                    |i: int|
                        if 0 <= i < args.len() {
                            args[i].model()
                        } else {
                            ExprView::Variable(Seq::empty())
                        },
                ),
            ),
            Expression::BinaryExpr(op, lhs, rhs) => ExprView::Binary(
                op,
                Box::new(lhs.model()),
                Box::new(rhs.model()),
            ),
        }
    }

    /// The view of a call holds the views of its arguments, in order.
    pub proof fn lemma_call_view(name: String, args: Vec<Expression>)
        ensures
            Expression::CallExpr(name, args)@ == ExprView::Call(name@, args.deep_view()),
    {
        let call = Expression::CallExpr(name, args);
        assert(call@->Call_1 =~= args.deep_view());
    }
}

impl View for Expression {
    type V = ExprView;

    open spec fn view(&self) -> ExprView {
        self.model()
    }
}

impl DeepView for Expression {
    type V = ExprView;

    open spec fn deep_view(&self) -> ExprView {
        self.model()
    }
}

impl Clone for Expression {
    fn clone(&self) -> (copy: Expression)
        ensures
            copy@ == self@,
        decreases self,
    {
        match self {
            Expression::LiteralExpr(value) => Expression::LiteralExpr(value.clone()),
            Expression::VariableExpr(name) => Expression::VariableExpr(name.clone()),
            Expression::AssignmentOp(name, value) => Expression::AssignmentOp(
                name.clone(),
                Box::new((**value).clone()),
            ),
            Expression::CallExpr(name, args) => {
                let mut copies: Vec<Expression> = Vec::new();
                let mut i: usize = 0;
                while i < args.len()
                    invariant
                        i <= args.len(),
                        copies.len() == i,
                        *self == Expression::CallExpr(*name, *args),
                        forall|j: int| 0 <= j < i ==> copies[j]@ == args[j]@,
                    decreases args.len() - i,
                {
                    let arg = &args[i];
                    proof {
                        broadcast use vstd::std_specs::vec::axiom_vec_index_decreases;

                        assert(decreases_to!(*args => args[i as int]));
                        assert(decreases_to!(*self => self->CallExpr_1));
                    }
                    copies.push(arg.clone());
                    i += 1;
                }
                let callee = name.clone();
                proof {
                    assert(copies.deep_view() =~= args.deep_view());
                    Expression::lemma_call_view(callee, copies);
                    Expression::lemma_call_view(*name, *args);
                }
                Expression::CallExpr(callee, copies)
            },
            Expression::BinaryExpr(op, lhs, rhs) => Expression::BinaryExpr(
                *op,
                Box::new((**lhs).clone()),
                Box::new((**rhs).clone()),
            ),
        }
    }
}

impl View for Prototype {
    type V = PrototypeView;

    open spec fn view(&self) -> PrototypeView {
        PrototypeView { name: self.name@, args: self.args.deep_view() }
    }
}

impl Clone for Prototype {
    fn clone(&self) -> (copy: Prototype)
        ensures
            copy@ == self@,
    {
        let mut args: Vec<String> = Vec::new();
        let mut i: usize = 0;
        while i < self.args.len()
            invariant
                i <= self.args.len(),
                args.len() == i,
                forall|j: int| 0 <= j < i ==> args[j]@ == self.args[j]@,
            decreases self.args.len() - i,
        {
            args.push(self.args[i].clone());
            i += 1;
        }
        assert(args.deep_view() =~= self.args.deep_view());
        Prototype { name: self.name.clone(), args }
    }
}

impl View for Function {
    type V = FunctionView;

    open spec fn view(&self) -> FunctionView {
        FunctionView { prototype: self.prototype@, body: self.body@ }
    }
}

impl Clone for Function {
    fn clone(&self) -> (copy: Function)
        ensures
            copy@ == self@,
    {
        Function { prototype: self.prototype.clone(), body: self.body.clone() }
    }
}

impl View for ASTNode {
    type V = ASTNodeView;

    open spec fn view(&self) -> ASTNodeView {
        match self {
            ASTNode::ExternNode(prototype) => ASTNodeView::ExternNode(prototype@),
            ASTNode::FunctionNode(function) => ASTNodeView::FunctionNode(function@),
        }
    }
}

impl DeepView for ASTNode {
    type V = ASTNodeView;

    open spec fn deep_view(&self) -> ASTNodeView {
        self@
    }
}

impl Clone for ASTNode {
    fn clone(&self) -> (copy: ASTNode)
        ensures
            copy@ == self@,
    {
        match self {
            ASTNode::ExternNode(prototype) => ASTNode::ExternNode(prototype.clone()),
            ASTNode::FunctionNode(function) => ASTNode::FunctionNode(function.clone()),
        }
    }
}

/// Copies `nodes[from..to]`.
pub fn clone_nodes(nodes: &[ASTNode], from: usize, to: usize) -> (copies: Vec<ASTNode>)
    requires
        from <= to <= nodes.len(),
    ensures
        copies.deep_view() == nodes.deep_view().subrange(from as int, to as int),
{
    let mut copies: Vec<ASTNode> = Vec::new();
    let mut i: usize = from;
    while i < to
        invariant
            from <= i <= to <= nodes.len(),
            copies.len() == i - from,
            forall|j: int| 0 <= j < copies.len() ==> copies[j]@ == nodes[from + j]@,
        decreases to - i,
    {
        copies.push(nodes[i].clone());
        i += 1;
    }
    assert(copies.deep_view() =~= nodes.deep_view().subrange(from as int, to as int));
    copies
}

} // verus!
