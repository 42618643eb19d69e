//! The name-based parse tree: the input contract of the lowering pass.
//!
//! Every node refers to variables by name; the parser guarantees only the
//! syntactic shape (a lookup always carries a base name and zero or more
//! index expressions).  Whether the names resolve is decided later, by the
//! alias and register context.

use vstd::prelude::*;
use crate::interpreter::Instruction;

verus! {

/// A literal rational number.
pub struct FractionNode {
    pub value: num_rational::BigRational,
}

/// A binary operation over two expressions; the operator is carried as the
/// instruction that will execute it.
pub struct BinopNode {
    pub lhs: ExpressionNode,
    pub rhs: ExpressionNode,
    pub op: Instruction,
}

/// An array literal.
pub struct ArrayLiteralNode {
    pub items: Vec<ExpressionNode>,
}

/// A use of a named variable, optionally indexed into its substructure.
pub struct LookupNode {
    pub name: String,
    pub indices: Vec<ExpressionNode>,
}

/// An expression of the parse tree.
pub enum ExpressionNode {
    Fraction(Box<FractionNode>),
    Binop(Box<BinopNode>),
    ArrayLiteral(Box<ArrayLiteralNode>),
    Lookup(Box<LookupNode>),
}

/// `let name = rhs` when `is_unlet` is false, `unlet name = rhs` otherwise.
pub struct LetUnletNode {
    pub name: String,
    pub is_unlet: bool,
    pub rhs: ExpressionNode,
}

/// `ref name = rhs` when `is_unref` is false, `unref name = rhs` otherwise.
pub struct RefUnrefNode {
    pub name: String,
    pub is_unref: bool,
    pub rhs: LookupNode,
}

/// A compound assignment to a lookup target.
pub struct ModopNode {
    pub lookup: LookupNode,
    pub op: Instruction,
    pub rhs: ExpressionNode,
}

/// A reversible branch: a forward guard, two branch bodies, and the
/// backward guard a reverse traversal re-checks.
pub struct IfNode {
    pub fwd_expr: ExpressionNode,
    pub if_stmts: Vec<StatementNode>,
    pub else_stmts: Vec<StatementNode>,
    pub bkwd_expr: ExpressionNode,
}

/// A deterministic abort condition.
pub struct CatchNode {
    pub expr: ExpressionNode,
}

/// A statement of the parse tree.
pub enum StatementNode {
    LetUnlet(Box<LetUnletNode>),
    RefUnref(Box<RefUnrefNode>),
    Modop(Box<ModopNode>),
    If(Box<IfNode>),
    Catch(Box<CatchNode>),
}

/// A function declaration: a name, its parameter-role lists, and a body.
pub struct FunctionNode {
    pub name: String,
    pub borrow_params: Vec<String>,
    pub steal_params: Vec<String>,
    pub return_params: Vec<String>,
    pub stmts: Vec<StatementNode>,
}

/// A whole compilation unit.
pub struct Module {
    pub functions: Vec<FunctionNode>,
}

} // verus!
