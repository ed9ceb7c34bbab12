//! Runtime values and the variable context that holds them.

use vstd::prelude::*;

use crate::ast::{ArgNode, ValueModel, ValueNode};
use crate::chart::Chart;
use vstd::string::StringExecFns;

verus! {

/// The model of a runtime value.
pub enum RuntimeModel {
    Chart(Seq<Seq<char>>),
    Str(Seq<char>),
    Number(int),
    Bool(bool),
    Null,
}

/// A value produced by evaluating an argument or returned by a builtin.
#[derive(Debug)]
pub enum Value {
    Chart(Chart),
    String(String),
    Number(i32),
    Bool(bool),
    NullValue,
}

impl View for Value {
    type V = RuntimeModel;

    open spec fn view(&self) -> RuntimeModel {
        match self {
            Value::Chart(c) => RuntimeModel::Chart(c@),
            Value::String(s) => RuntimeModel::Str(s@),
            Value::Number(n) => RuntimeModel::Number(*n as int),
            Value::Bool(b) => RuntimeModel::Bool(*b),
            Value::NullValue => RuntimeModel::Null,
        }
    }
}

/// Errors met while binding and evaluating a call.
#[derive(Debug)]
pub enum CallError {
    /// No builtin has this name.
    UnknownFunc(String),
    /// The builtin, how many parameters it has, how many positional
    /// arguments were given.
    TooManyArguments(String, usize, usize),
    /// The builtin, and a named argument that none of its parameters has.
    UnknownParam(String, String),
    /// An identifier used as an argument names no variable.
    UndefinedVariable(String),
    /// The builtin, and a parameter without default that got no argument.
    MissingArgument(String, String),
    /// A value of another kind than the one asked for.
    WrongValueType(Value),
    /// A chart too large for the operation asked for.
    ChartTooBig,
}

impl Value {
    /// A chart value holds a well-formed chart.
    pub open spec fn wf(&self) -> bool {
        self matches Value::Chart(c) ==> c.wf()
    }

    /// A copy of the value.
    pub fn duplicate(&self) -> (r: Value)
        requires
            self.wf(),
        ensures
            r@ == self@,
            r.wf(),
    {
        match self {
            Value::Chart(c) => Value::Chart(c.duplicate()),
            Value::String(s) => Value::String(s.clone()),
            Value::Number(n) => Value::Number(*n),
            Value::Bool(b) => Value::Bool(*b),
            Value::NullValue => Value::NullValue,
        }
    }

    /// The argument's value: literals as they are, identifiers looked up in
    /// the context.
    pub fn from_arg(arg: &ArgNode, context: &Context) -> (r: Result<Value, CallError>)
        requires
            context.wf(),
        ensures
            r is Ok <==> !refers_undefined(arg.0@, context@),
            r matches Ok(v) ==> v@ == resolve(arg.0@, context@) && v.wf(),
            r matches Err(e) ==> (e matches CallError::UndefinedVariable(n) && arg.0@ == ValueModel::Ident(n@)),
    {
        match &arg.0 {
            ValueNode::String(s) => Ok(Value::String(s.clone())),
            ValueNode::Number(n) => Ok(Value::Number(*n)),
            ValueNode::Bool(b) => Ok(Value::Bool(*b)),
            ValueNode::Ident(ident) => match context.get_variable(ident.as_str()) {
                Ok(v) => Ok(v.duplicate()),
                Err(e) => Err(e),
            },
        }
    }

    /// The text of a string value.
    pub fn as_string(&self) -> (r: Result<&String, CallError>)
        requires
            self.wf(),
        ensures
            r is Ok <==> self is String,
            r matches Ok(s) ==> *self == Value::String(*s),
            r matches Err(e) ==> (e matches CallError::WrongValueType(v) && v@ == self@),
    {
        match self {
            Value::String(s) => Ok(s),
            _ => Err(CallError::WrongValueType(self.duplicate())),
        }
    }

    /// The chart of a chart value.
    pub fn as_chart(&self) -> (r: Result<&Chart, CallError>)
        requires
            self.wf(),
        ensures
            r is Ok <==> self is Chart,
            r matches Ok(c) ==> *self == Value::Chart(*c) && c.wf(),
            r matches Err(e) ==> (e matches CallError::WrongValueType(v) && v@ == self@),
    {
        match self {
            Value::Chart(c) => Ok(c),
            _ => Err(CallError::WrongValueType(self.duplicate())),
        }
    }
}

/// The argument value is an identifier that names no variable.
pub open spec fn refers_undefined(v: ValueModel, ctx: Map<Seq<char>, RuntimeModel>) -> bool {
    v matches ValueModel::Ident(n) && !ctx.contains_key(n)
}

/// What an argument value evaluates to in `ctx`.
pub open spec fn resolve(v: ValueModel, ctx: Map<Seq<char>, RuntimeModel>) -> RuntimeModel {
    match v {
        ValueModel::Ident(n) => ctx[n],
        ValueModel::Number(n) => RuntimeModel::Number(n),
        ValueModel::Str(s) => RuntimeModel::Str(s),
        ValueModel::Bool(b) => RuntimeModel::Bool(b),
    }
}

/// The variables defined by a list of assignments; a later one wins.
pub open spec fn assignments_map(s: Seq<(String, Value)>) -> Map<Seq<char>, RuntimeModel>
    decreases s.len(),
{
    if s.len() == 0 {
        Map::empty()
    } else {
        assignments_map(s.drop_last()).insert(s.last().0@, s.last().1@)
    }
}

/// Variable names and their values during one program's evaluation.
#[derive(Debug)]
pub struct Context {
    variables: Vec<(String, Value)>,
}

impl View for Context {
    type V = Map<Seq<char>, RuntimeModel>;

    closed spec fn view(&self) -> Map<Seq<char>, RuntimeModel> {
        assignments_map(self.variables@)
    }
}

impl Context {
    /// Every stored value is well formed.
    pub closed spec fn wf(&self) -> bool {
        forall|i: int| 0 <= i < self.variables@.len() ==> (#[trigger] self.variables@[i]).1.wf()
    }

    /// An empty context.
    pub fn new() -> (r: Context)
        ensures
            r@ == Map::<Seq<char>, RuntimeModel>::empty(),
            r.wf(),
    {
        Context { variables: Vec::new() }
    }

    /// Binds `name` to a copy of `value`, replacing any earlier binding.
    pub fn assign_variable(&mut self, name: &str, value: &Value)
        requires
            old(self).wf(),
            value.wf(),
        ensures
            final(self).wf(),
            final(self)@ == old(self)@.insert(name@, value@),
    {
        let v = value.duplicate();
        let ghost before = self.variables@;
        self.variables.push((String::from_str(name), v));
        assert(self.variables@.drop_last() =~= before);
    }

    /// Whether `name` is bound.
    pub fn contains(&self, name: &str) -> (r: bool)
        ensures
            r == self@.contains_key(name@),
    {
        let key = String::from_str(name);
        let mut i: usize = self.variables.len();
        assert(self.variables@.take(i as int) =~= self.variables@);
        while i > 0
            invariant
                i <= self.variables@.len(),
                key@ == name@,
                assignments_map(self.variables@).contains_key(name@) == assignments_map(self.variables@.take(i as int)).contains_key(name@),
            decreases i,
        {
            let ghost t = self.variables@.take(i as int);
            assert(t.drop_last() =~= self.variables@.take(i - 1));
            if self.variables[i - 1].0 == key {
                return true;
            }
            i = i - 1;
        }
        assert(self.variables@.take(0) =~= Seq::<(String, Value)>::empty());
        false
    }

    /// The value bound to `name`.
    pub fn get_variable(&self, name: &str) -> (r: Result<&Value, CallError>)
        requires
            self.wf(),
        ensures
            r is Ok <==> self@.contains_key(name@),
            r matches Ok(v) ==> v@ == self@[name@] && v.wf(),
            r matches Err(e) ==> (e matches CallError::UndefinedVariable(n) && n@ == name@),
    {
        let key = String::from_str(name);
        let mut i: usize = self.variables.len();
        assert(self.variables@.take(i as int) =~= self.variables@);
        while i > 0
            invariant
                self.wf(),
                i <= self.variables@.len(),
                key@ == name@,
                assignments_map(self.variables@).contains_key(name@) == assignments_map(self.variables@.take(i as int)).contains_key(name@),
                assignments_map(self.variables@).contains_key(name@) ==> assignments_map(self.variables@)[name@] == assignments_map(self.variables@.take(i as int))[name@],
            decreases i,
        {
            let ghost t = self.variables@.take(i as int);
            assert(t.drop_last() =~= self.variables@.take(i - 1));
            if self.variables[i - 1].0 == key {
                return Ok(&self.variables[i - 1].1);
            }
            i = i - 1;
        }
        assert(self.variables@.take(0) =~= Seq::<(String, Value)>::empty());
        Err(CallError::UndefinedVariable(key))
    }
}

} // verus!
