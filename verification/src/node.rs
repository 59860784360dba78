use vstd::prelude::*;

verus! {

/// Binary operators the parser can produce.
#[derive(Clone, Copy, Debug, PartialEq, Eq, Structural)]
pub enum BinOp {
    Add,
    Sub,
    Mul,
    Div,
    Rem,
    Eq,
    Ne,
    Lt,
    Gt,
    Le,
    Ge,
    And,
    Or,
}

/// A formal parameter of a function declaration; every parameter is a
/// 32-bit integer.
#[derive(Debug)]
pub struct FormalParameter {
    pub name: String,
}

/// A node of the syntax tree. Each node owns its children.
#[derive(Debug)]
pub enum Node {
    StatementList(Vec<Node>),
    Block(Vec<Node>),
    /// Left operand, right operand, operator.
    BinaryOp(Box<Node>, Box<Node>, BinOp),
    /// Target, assigned value.
    Assign(Box<Node>, Box<Node>),
    /// Condition, then-branch, else-branch (`Nope` where absent).
    If(Box<Node>, Box<Node>, Box<Node>),
    /// Condition, body.
    While(Box<Node>, Box<Node>),
    /// Init, condition, step, body.
    For(Box<Node>, Box<Node>, Box<Node>, Box<Node>),
    /// Name, optional initializer.
    VarDecl(String, Option<Box<Node>>),
    /// Simple name, formal parameters, body.
    FunctionDecl(String, Vec<FormalParameter>, Box<Node>),
    /// Callee, arguments.
    Call(Box<Node>, Vec<Node>),
    Return(Option<Box<Node>>),
    Identifier(String),
    /// Object, property name.
    Member(Box<Node>, String),
    /// A numeric literal, already cut to its integral part.
    Number(i64),
    Boolean(bool),
    Text(String),
    Nope,
}

/// The number of nodes that hoisting can reach from `node` without entering
/// a nested function, plus the sizes of the nested function bodies
/// declared there.
pub open spec fn node_size(node: &Node) -> nat
    decreases node, 0nat,
{
    match node {
        Node::StatementList(nodes) => 1 + list_size(nodes, nodes.len() as nat),
        Node::Block(nodes) => 1 + list_size(nodes, nodes.len() as nat),
        Node::If(_, t, e) => 1 + node_size(t) + node_size(e),
        Node::While(_, b) => 1 + node_size(b),
        Node::For(i, c, s, b) => 1 + node_size(i) + node_size(c) + node_size(s) + node_size(b),
        Node::FunctionDecl(_, _, body) => 1 + node_size(body),
        _ => 1,
    }
}

/// The sizes of the first `n` nodes of `nodes`, added up.
pub open spec fn list_size(nodes: &Vec<Node>, n: nat) -> nat
    decreases nodes, n,
{
    if n == 0 || n > nodes.len() {
        0
    } else {
        list_size(nodes, (n - 1) as nat) + node_size(&nodes[n - 1])
    }
}

/// The literal `x` narrowed to the 32-bit signed range: values beyond the
/// range become its nearest bound.
pub open spec fn clamp_i32(x: i64) -> i32 {
    if x > i32::MAX {
        i32::MAX
    } else if x < i32::MIN {
        i32::MIN
    } else {
        x as i32
    }
}

/// Narrows a numeric literal to the 32-bit signed range.
pub fn number_to_i32(x: i64) -> (r: i32)
    ensures
        r == clamp_i32(x),
{
    if x > 2147483647i64 {
        i32::MAX
    } else if x < -2147483648i64 {
        i32::MIN
    } else {
        x as i32
    }
}

} // verus!
