//! The register-based syntax tree: the output of the lowering pass.
//!
//! Every name of the parse tree is replaced by a resolved register
//! index.  Expression nodes carry `used_vars`, the registers the
//! subtree reads, and an `is_mono` flag meaning the subtree reads
//! through no interior alias, so its forward and backward execution
//! cannot depend on runtime aliasing; both propagate up from children.
//!
//! Some node kinds of the data model (strings, array repeats, unary
//! operations, print, push/pull, while, for, do-yield, calls) are
//! declared here but have no lowering in this core: they are not
//! variants of the lowered statement and expression enums, which makes
//! the gap visible at compile time.

use vstd::prelude::*;
use crate::interpreter::Instruction;
use crate::values::Value;

verus! {

/// A lowered expression.
pub enum ExpressionNode {
    Fraction(Box<FractionNode>),
    Binop(Box<BinopNode>),
    ArrayLiteral(Box<ArrayLiteralNode>),
    Lookup(Box<LookupNode>),
}

/// A lowered statement.
pub enum StatementNode {
    LetUnlet(Box<LetUnletNode>),
    RefUnref(Box<RefUnrefNode>),
    Modop(Box<ModopNode>),
    If(Box<IfNode>),
    Catch(Box<CatchNode>),
}

/// A literal number, deduplicated into the constant pool.
pub struct FractionNode {
    pub const_idx: usize,
    pub used_vars: Vec<usize>,
}

/// A literal string, deduplicated into the constant pool.
pub struct StringNode {
    pub const_idx: usize,
    pub used_vars: Vec<usize>,
}

/// An array literal.
pub struct ArrayLiteralNode {
    pub items: Vec<ExpressionNode>,
    pub is_mono: bool,
    pub used_vars: Vec<usize>,
}

/// An array built by repeating an item.
pub struct ArrayRepeatNode {
    pub item: ExpressionNode,
    pub dimensions: ExpressionNode,
    pub is_mono: bool,
    pub used_vars: Vec<usize>,
}

/// A read of a register, optionally indexed into its substructure.
pub struct LookupNode {
    pub register: usize,
    pub indices: Vec<ExpressionNode>,
    pub is_mono: bool,
    pub used_vars: Vec<usize>,
}

/// A binary operation.
pub struct BinopNode {
    pub lhs: ExpressionNode,
    pub rhs: ExpressionNode,
    pub op: Instruction,
    pub is_mono: bool,
    pub used_vars: Vec<usize>,
}

/// A unary operation.
pub struct UniopNode {
    pub expr: ExpressionNode,
    pub op: Instruction,
    pub is_mono: bool,
    pub used_vars: Vec<usize>,
}

/// A print statement.
pub struct PrintNode {
    pub items: Vec<ExpressionNode>,
    pub newline: bool,
    pub is_mono: bool,
}

/// A variable creation or destruction, resolved to its register.
pub struct LetUnletNode {
    pub is_unlet: bool,
    pub register: usize,
    pub rhs: ExpressionNode,
    pub is_mono: bool,
}

/// An alias introduction or retirement, resolved to its register.
pub struct RefUnrefNode {
    pub is_unref: bool,
    pub register: usize,
    pub rhs: LookupNode,
    pub is_mono: bool,
}

/// A compound assignment.
pub struct ModopNode {
    pub lookup: LookupNode,
    pub op: Instruction,
    pub rhs: ExpressionNode,
    pub is_mono: bool,
}

/// A push or pull between a register and an aggregate.
pub struct PushPullNode {
    pub is_push: bool,
    pub register: usize,
    pub lookup: LookupNode,
    pub is_mono: bool,
}

/// A reversible branch with forward and backward guards.
pub struct IfNode {
    pub fwd_expr: ExpressionNode,
    pub if_stmts: Vec<StatementNode>,
    pub else_stmts: Vec<StatementNode>,
    pub bkwd_expr: ExpressionNode,
    pub is_mono: bool,
}

/// A reversible loop.
pub struct WhileNode {
    pub fwd_expr: ExpressionNode,
    pub stmts: Vec<StatementNode>,
    pub bkwd_expr: Option<ExpressionNode>,
    pub is_mono: bool,
}

/// Iteration over an aggregate.
pub struct ForNode {
    pub register: usize,
    pub iterator: LookupNode,
    pub stmts: Vec<StatementNode>,
    pub is_mono: bool,
}

/// A do block undone by its paired yield block.
pub struct DoYieldNode {
    pub do_stmts: Vec<StatementNode>,
    pub yield_stmts: Vec<StatementNode>,
}

/// A deterministic abort condition.
pub struct CatchNode {
    pub expr: ExpressionNode,
}

/// A call or uncall of another function.
pub struct CallNode {
    pub is_uncall: bool,
    pub func_idx: usize,
    pub borrow_args: Vec<LookupNode>,
    pub stolen_args: Vec<usize>,
    pub return_args: Vec<usize>,
    pub is_mono: bool,
}

/// How one parameter's register is linked across a call.
pub struct ParamLink {
    pub is_interior: bool,
    pub link: Option<String>,
    pub linked_borrow: Option<usize>,
    pub linked_io: Option<usize>,
}

/// The cross-function ownership contract of one function.
pub struct FunctionPrototype {
    pub id: usize,
    pub owned_link_groups: Vec<[Vec<usize>; 3]>,
    pub borrow_params: Vec<Option<ParamLink>>,
    pub steal_params: Vec<Option<ParamLink>>,
    pub return_params: Vec<Option<ParamLink>>,
}

/// A lowered function: its body, its deduplicated constant pool, its
/// register count, and the registers of its parameter roles.
pub struct FunctionNode {
    pub stmts: Vec<StatementNode>,
    pub consts: Vec<Value>,
    pub num_registers: usize,
    pub borrow_registers: Vec<usize>,
    pub steal_registers: Vec<usize>,
    pub return_registers: Vec<usize>,
}

/// A lowered compilation unit: its functions, the index of the entry
/// point if one is named `main`, and the global initialization
/// function.
pub struct Module {
    pub functions: Vec<FunctionNode>,
    pub main_idx: Option<usize>,
    pub global_func: FunctionNode,
}

/// Whether a lowered expression reads through no interior alias, as
/// recorded by the lowering pass.
pub fn expr_is_mono(e: &ExpressionNode) -> (r: bool)
    ensures
        r == spec_expr_is_mono(*e),
{
    match e {
        ExpressionNode::Fraction(_) => true,
        ExpressionNode::Binop(b) => b.is_mono,
        ExpressionNode::ArrayLiteral(a) => a.is_mono,
        ExpressionNode::Lookup(l) => l.is_mono,
    }
}

/// The recorded monomorphism flag of a lowered expression; literal
/// numbers read nothing and are always monomorphic.
pub open spec fn spec_expr_is_mono(e: ExpressionNode) -> bool {
    match e {
        ExpressionNode::Fraction(_) => true,
        ExpressionNode::Binop(b) => b.is_mono,
        ExpressionNode::ArrayLiteral(a) => a.is_mono,
        ExpressionNode::Lookup(l) => l.is_mono,
    }
}

/// The registers a lowered expression reads, as recorded by the
/// lowering pass.
pub fn expr_used_vars(e: &ExpressionNode) -> (r: &Vec<usize>)
    ensures
        r@ == spec_expr_used_vars(*e),
{
    match e {
        ExpressionNode::Fraction(f) => &f.used_vars,
        ExpressionNode::Binop(b) => &b.used_vars,
        ExpressionNode::ArrayLiteral(a) => &a.used_vars,
        ExpressionNode::Lookup(l) => &l.used_vars,
    }
}

/// The recorded used-variable list of a lowered expression.
pub open spec fn spec_expr_used_vars(e: ExpressionNode) -> Seq<usize> {
    match e {
        ExpressionNode::Fraction(f) => f.used_vars@,
        ExpressionNode::Binop(b) => b.used_vars@,
        ExpressionNode::ArrayLiteral(a) => a.used_vars@,
        ExpressionNode::Lookup(l) => l.used_vars@,
    }
}


/// Whether a lowered statement reads through no interior alias, as
/// recorded by the lowering pass.
pub fn stmt_is_mono(s: &StatementNode) -> (r: bool)
    ensures
        r == spec_stmt_is_mono(*s),
{
    match s {
        StatementNode::LetUnlet(n) => n.is_mono,
        StatementNode::RefUnref(n) => n.is_mono,
        StatementNode::Modop(n) => n.is_mono,
        StatementNode::If(n) => n.is_mono,
        StatementNode::Catch(_) => true,
    }
}

/// The recorded monomorphism flag of a lowered statement; a catch
/// carries none of its own and counts as monomorphic.
pub open spec fn spec_stmt_is_mono(s: StatementNode) -> bool {
    match s {
        StatementNode::LetUnlet(n) => n.is_mono,
        StatementNode::RefUnref(n) => n.is_mono,
        StatementNode::Modop(n) => n.is_mono,
        StatementNode::If(n) => n.is_mono,
        StatementNode::Catch(_) => true,
    }
}

} // verus!
