//! The syntax tree: a tagged variant per program form, with one constructor
//! per form.

use vstd::prelude::*;

use crate::primitive::{val_view, Type, ValV};
use crate::token::Token;

verus! {

/// Mathematical image of a syntax-tree operation.
#[verifier::ext_equal]
pub enum OpV {
    Main(Box<NodeV>),
    Identifier(Seq<char>),
    Operator(Seq<char>, Seq<NodeV>),
    Comparison(Seq<char>, Seq<NodeV>),
    Logical(Seq<char>, Seq<NodeV>),
    Constant(ValV),
    IfElse(Box<NodeV>, Seq<NodeV>),
    When(Box<NodeV>, Seq<NodeV>),
    Assign(Box<NodeV>, Box<NodeV>),
    StdOut(Box<NodeV>),
    DefineFunction(Box<NodeV>, ValV),
    CallFunction(Box<NodeV>, Seq<NodeV>),
    Empty,
}

/// Mathematical image of a syntax-tree node: its operation and the token
/// text it carries.
#[verifier::ext_equal]
pub struct NodeV {
    pub op: OpV,
    pub value: Seq<char>,
}

/// The tagged operation a node performs. Children are owned directly; the
/// tree has no cycles and no back-references.
#[derive(Debug, PartialEq)]
pub enum Operation {
    Main(Node),
    Identifier(String),
    Operator(String, Vec<Node>),
    Comparison(String, Vec<Node>),
    Logical(String, Vec<Node>),
    Constant(Type),
    IfElse(Node, Vec<Node>),
    When(Node, Vec<Node>),
    Assign(Node, Node),
    StdOut(Node),
    DefineFunction(Node, Type),
    CallFunction(Node, Vec<Node>),
    Empty,
}

/// A syntax-tree node: its operation, boxed, and the token text it carries
/// (an identifier name, an operator symbol, or a keyword).
#[derive(Debug, PartialEq)]
pub struct Node {
    pub operation: Box<Operation>,
    pub value: String,
}

/// The mathematical image of a list of nodes.
pub open spec fn nodes_view(nodes: Seq<Node>) -> Seq<NodeV>
    decreases nodes,
{
    if nodes.len() == 0 {
        Seq::empty()
    } else {
        nodes_view(nodes.drop_last()).push(node_view(nodes.last()))
    }
}

/// A list of nodes maps to its images, index by index.
pub broadcast proof fn lemma_nodes_view(nodes: Seq<Node>)
    ensures
        (#[trigger] nodes_view(nodes)).len() == nodes.len(),
        forall|i: int| 0 <= i < nodes.len() ==> nodes_view(nodes)[i] == node_view(nodes[i]),
    decreases nodes.len(),
{
    if nodes.len() > 0 {
        lemma_nodes_view(nodes.drop_last());
    }
}

/// The mathematical image of an operation.
pub open spec fn op_view(op: Operation) -> OpV
    decreases op,
{
    match op {
        Operation::Main(n) => OpV::Main(Box::new(node_view(n))),
        Operation::Identifier(s) => OpV::Identifier(s@),
        Operation::Operator(tok, nodes) => OpV::Operator(tok@, nodes_view(nodes@)),
        Operation::Comparison(tok, nodes) => OpV::Comparison(tok@, nodes_view(nodes@)),
        Operation::Logical(tok, nodes) => OpV::Logical(tok@, nodes_view(nodes@)),
        Operation::Constant(t) => OpV::Constant(val_view(t)),
        Operation::IfElse(c, nodes) => OpV::IfElse(Box::new(node_view(c)), nodes_view(nodes@)),
        Operation::When(c, nodes) => OpV::When(Box::new(node_view(c)), nodes_view(nodes@)),
        Operation::Assign(name, n) => OpV::Assign(
            Box::new(node_view(name)),
            Box::new(node_view(n)),
        ),
        Operation::StdOut(n) => OpV::StdOut(Box::new(node_view(n))),
        Operation::DefineFunction(name, f) => OpV::DefineFunction(
            Box::new(node_view(name)),
            val_view(f),
        ),
        Operation::CallFunction(name, args) => OpV::CallFunction(
            Box::new(node_view(name)),
            nodes_view(args@),
        ),
        Operation::Empty => OpV::Empty,
    }
}

/// The mathematical image of a node.
pub open spec fn node_view(n: Node) -> NodeV
    decreases n,
{
    NodeV { op: op_view(*n.operation), value: n.value@ }
}

impl View for Node {
    type V = NodeV;

    open spec fn view(&self) -> NodeV {
        node_view(*self)
    }
}

impl Node {
    /// A deep copy: the copy has the same mathematical value.
    pub fn duplicate(&self) -> (r: Node)
        ensures
            r@ == self@,
        decreases *self,
    {
        let op: Operation = match &*self.operation {
            Operation::Main(n) => Operation::Main(n.duplicate()),
            Operation::Identifier(s) => Operation::Identifier(s.clone()),
            Operation::Operator(tok, nodes) => Operation::Operator(
                tok.clone(),
                crate::primitive::dup_nodes(nodes),
            ),
            Operation::Comparison(tok, nodes) => Operation::Comparison(
                tok.clone(),
                crate::primitive::dup_nodes(nodes),
            ),
            Operation::Logical(tok, nodes) => Operation::Logical(
                tok.clone(),
                crate::primitive::dup_nodes(nodes),
            ),
            Operation::Constant(t) => Operation::Constant(t.duplicate()),
            Operation::IfElse(c, nodes) => Operation::IfElse(
                c.duplicate(),
                crate::primitive::dup_nodes(nodes),
            ),
            Operation::When(c, nodes) => Operation::When(
                c.duplicate(),
                crate::primitive::dup_nodes(nodes),
            ),
            Operation::Assign(name, n) => Operation::Assign(name.duplicate(), n.duplicate()),
            Operation::StdOut(n) => Operation::StdOut(n.duplicate()),
            Operation::DefineFunction(name, f) => Operation::DefineFunction(
                name.duplicate(),
                f.duplicate(),
            ),
            Operation::CallFunction(name, args) => Operation::CallFunction(
                name.duplicate(),
                crate::primitive::dup_nodes(args),
            ),
            Operation::Empty => Operation::Empty,
        };
        Node { operation: Box::new(op), value: self.value.clone() }
    }

    /// The whole program: wraps the one top-level statement.
    pub fn main(statements: Node) -> (r: Node)
        ensures
            r@ == (NodeV { op: OpV::Main(Box::new(statements@)), value: Seq::<char>::empty() }),
    {
        Node { operation: Box::new(Operation::Main(statements)), value: String::new() }
    }

    /// An arithmetic form: the operator symbol and its operand list.
    pub fn operator(token: String, nodes: Vec<Node>) -> (r: Node)
        ensures
            r@ == (NodeV { op: OpV::Operator(token@, nodes_view(nodes@)), value: token@ }),
    {
        let value = token.clone();
        Node { operation: Box::new(Operation::Operator(token, nodes)), value }
    }

    /// A comparison form: the operator symbol and its operand list.
    pub fn comparison(token: String, nodes: Vec<Node>) -> (r: Node)
        ensures
            r@ == (NodeV { op: OpV::Comparison(token@, nodes_view(nodes@)), value: token@ }),
    {
        let value = token.clone();
        Node { operation: Box::new(Operation::Comparison(token, nodes)), value }
    }

    /// A logical form: the operator word and its operand list.
    pub fn logical(token: String, nodes: Vec<Node>) -> (r: Node)
        ensures
            r@ == (NodeV { op: OpV::Logical(token@, nodes_view(nodes@)), value: token@ }),
    {
        let value = token.clone();
        Node { operation: Box::new(Operation::Logical(token, nodes)), value }
    }

    /// A literal: the token is converted to its runtime value.
    pub fn constant(token: Token) -> (r: Node)
        ensures
            r@ == (NodeV {
                op: OpV::Constant(crate::primitive::spec_from_token(token@)),
                value: token@.text,
            }),
    {
        let primitive = Type::from(&token);
        Node { operation: Box::new(Operation::Constant(primitive)), value: token.value }
    }

    /// A name to be looked up (or bound) at evaluation time.
    pub fn indentifier(token: Token) -> (r: Node)
        ensures
            r@ == (NodeV { op: OpV::Identifier(token@.text), value: token@.text }),
    {
        let value = token.value;
        let name = value.clone();
        Node { operation: Box::new(Operation::Identifier(name)), value }
    }

    /// A print form around the printed expression.
    pub fn stdout(node: Node) -> (r: Node)
        ensures
            r@ == (NodeV { op: OpV::StdOut(Box::new(node@)), value: Seq::<char>::empty() }),
    {
        Node { operation: Box::new(Operation::StdOut(node)), value: String::new() }
    }

    /// A two-way conditional: condition, then-branch, else-branch.
    pub fn ifelse(condition: Node, nodes: Vec<Node>) -> (r: Node)
        ensures
            r@ == (NodeV {
                op: OpV::IfElse(Box::new(condition@), nodes_view(nodes@)),
                value: "if"@,
            }),
    {
        Node {
            operation: Box::new(Operation::IfElse(condition, nodes)),
            value: String::from_str("if"),
        }
    }

    /// A guarded block: condition and body statements.
    pub fn when(condition: Node, body: Vec<Node>) -> (r: Node)
        ensures
            r@ == (NodeV { op: OpV::When(Box::new(condition@), nodes_view(body@)), value: "when"@ }),
    {
        Node {
            operation: Box::new(Operation::When(condition, body)),
            value: String::from_str("when"),
        }
    }

    /// A variable definition: target name and value expression.
    pub fn assign(name: Node, node: Node) -> (r: Node)
        ensures
            r@ == (NodeV { op: OpV::Assign(Box::new(name@), Box::new(node@)), value: "def"@ }),
    {
        Node {
            operation: Box::new(Operation::Assign(name, node)),
            value: String::from_str("def"),
        }
    }

    /// A function definition: its name, parameter list and body.
    pub fn function_define(name: Node, params: Vec<Node>, body: Vec<Node>) -> (r: Node)
        ensures
            r@ == (NodeV {
                op: OpV::DefineFunction(
                    Box::new(name@),
                    ValV::Func(nodes_view(params@), nodes_view(body@)),
                ),
                value: "defn"@,
            }),
    {
        let ghost gname = name;
        let ghost gparams = params;
        let ghost gbody = body;
        let r = Node {
            operation: Box::new(Operation::DefineFunction(name, Type::Func(params, body))),
            value: String::from_str("defn"),
        };
        proof {
            assert(*r.operation == Operation::DefineFunction(gname, Type::Func(gparams, gbody)));
            assert(val_view(Type::Func(gparams, gbody)) == ValV::Func(
                nodes_view(gparams@),
                nodes_view(gbody@),
            ));
            assert(op_view(*r.operation) == OpV::DefineFunction(
                Box::new(node_view(gname)),
                val_view(Type::Func(gparams, gbody)),
            ));
            assert(r@.value == "defn"@);
        }
        r
    }

    /// A call of a named function on an argument list.
    pub fn function_call(name: Node, args: Vec<Node>) -> (r: Node)
        ensures
            r@ == (NodeV {
                op: OpV::CallFunction(Box::new(name@), nodes_view(args@)),
                value: "calling function"@,
            }),
    {
        Node {
            operation: Box::new(Operation::CallFunction(name, args)),
            value: String::from_str("calling function"),
        }
    }

    /// A structural placeholder for elided syntax.
    pub fn empty() -> (r: Node)
        ensures
            r@ == (NodeV { op: OpV::Empty, value: Seq::<char>::empty() }),
    {
        Node { operation: Box::new(Operation::Empty), value: String::new() }
    }
}

} // verus!
