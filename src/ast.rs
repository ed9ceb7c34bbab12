//! The syntax tree of a program, and its mathematical model.

use vstd::prelude::*;

verus! {

/// The model of a literal or variable reference.
pub enum ValueModel {
    Ident(Seq<char>),
    Number(int),
    Str(Seq<char>),
    Bool(bool),
}

/// The model of one call argument: a value and, for a named argument, the
/// parameter name.
pub struct ArgModel {
    pub value: ValueModel,
    pub name: Option<Seq<char>>,
}

/// The model of a call: the function name and the arguments in order.
pub struct CallModel {
    pub name: Seq<char>,
    pub args: Seq<ArgModel>,
}

/// The model of a statement: an assignment of a call's result, or a bare call.
pub enum StmtModel {
    Assign(Seq<char>, CallModel),
    Call(CallModel),
}

/// A node that can be checked for consistency after parsing.
pub trait Checkable {
    fn check(&self);
}

impl<T: Checkable> Checkable for Vec<T> {
    fn check(&self) {
        let mut i: usize = 0;
        while i < self.len()
            invariant
                i <= self.len(),
            decreases self.len() - i,
        {
            self[i].check();
            i = i + 1;
        }
    }
}

impl<T: Checkable> Checkable for Option<T> {
    fn check(&self) {
        match self {
            Some(t) => t.check(),
            None => {},
        }
    }
}

impl Checkable for String {
    fn check(&self) {
    }
}

/// A whole program: its statements in order.
pub struct ProgramNode(pub Vec<StmtNode>);

impl View for ProgramNode {
    type V = Seq<StmtModel>;

    open spec fn view(&self) -> Seq<StmtModel> {
        self.0@.map_values(|s: StmtNode| s@)
    }
}

impl Checkable for ProgramNode {
    fn check(&self) {
        self.0.check();
    }
}

/// A run of statements.
pub struct StmtsNode(pub Vec<StmtNode>);

pub enum StmtNode {
    Assign(String, CallNode),
    Call(CallNode),
}

impl View for StmtNode {
    type V = StmtModel;

    open spec fn view(&self) -> StmtModel {
        match self {
            StmtNode::Assign(v, c) => StmtModel::Assign(v@, c@),
            StmtNode::Call(c) => StmtModel::Call(c@),
        }
    }
}

impl Checkable for StmtNode {
    fn check(&self) {
        match self {
            StmtNode::Assign(s, c) => {
                s.check();
                c.check();
            },
            StmtNode::Call(c) => c.check(),
        }
    }
}

/// What follows the leading identifier of a statement.
pub enum StmtTailNode {
    Assign(CallNode),
    Call(ArgsNode),
}

/// A call: function name and arguments.
pub struct CallNode(pub String, pub ArgsNode);

impl View for CallNode {
    type V = CallModel;

    open spec fn view(&self) -> CallModel {
        CallModel { name: self.0@, args: self.1@ }
    }
}

impl Checkable for CallNode {
    fn check(&self) {
        self.0.check();
        self.1.check();
    }
}

/// The parenthesised part of a call.
pub struct CallTailNode(pub ArgsNode);

pub struct ArgsNode(pub Vec<ArgNode>);

impl View for ArgsNode {
    type V = Seq<ArgModel>;

    open spec fn view(&self) -> Seq<ArgModel> {
        self.0@.map_values(|a: ArgNode| a@)
    }
}

impl Checkable for ArgsNode {
    fn check(&self) {
        self.0.check();
    }
}

/// The value to pass, and the parameter name for a named argument.
pub struct ArgNode(pub ValueNode, pub Option<String>);

impl View for ArgNode {
    type V = ArgModel;

    open spec fn view(&self) -> ArgModel {
        ArgModel {
            value: self.0@,
            name: match self.1 {
                Some(n) => Some(n@),
                None => None,
            },
        }
    }
}

impl Checkable for ArgNode {
    fn check(&self) {
        self.0.check();
        self.1.check();
    }
}

/// The `= value` part of a named argument, if present.
pub struct ArgTailNode(pub Option<ValueNode>);

pub enum ValueNode {
    Ident(String),
    Number(i32),
    String(String),
    Bool(bool),
}

impl View for ValueNode {
    type V = ValueModel;

    open spec fn view(&self) -> ValueModel {
        match self {
            ValueNode::Ident(s) => ValueModel::Ident(s@),
            ValueNode::Number(n) => ValueModel::Number(*n as int),
            ValueNode::String(s) => ValueModel::Str(s@),
            ValueNode::Bool(b) => ValueModel::Bool(*b),
        }
    }
}

impl Checkable for ValueNode {
    fn check(&self) {
    }
}

pub struct BoolNode(pub bool);

} // verus!
