//! Statement evaluation. Running a builtin may need the outside world (files
//! for `read` and `write`), so a statement is evaluated in two steps: bind
//! its call here, let the caller run the builtin, then store the result.

use vstd::prelude::*;

use crate::ast::{CallNode, StmtNode};
use crate::builtins::{arg_node_models, call, call_outcome, registry_ok, Invocation, Registry};
use crate::value::{CallError, Context, RuntimeModel, Value};

verus! {

/// A bound call and the variable, if any, that receives its result.
#[derive(Debug)]
pub struct Step {
    pub target: Option<String>,
    pub invocation: Invocation,
}

pub open spec fn step_invocation(r: Result<Step, CallError>) -> Result<Invocation, CallError> {
    match r {
        Ok(st) => Ok(st.invocation),
        Err(e) => Err(e),
    }
}

/// The call that a statement makes.
pub open spec fn stmt_call(stmt: StmtNode) -> CallNode {
    match stmt {
        StmtNode::Assign(_, c) => c,
        StmtNode::Call(c) => c,
    }
}

/// Holds the variables of one program run.
#[derive(Debug)]
pub struct Interpreter {
    pub context: Context,
}

impl Interpreter {
    pub fn new() -> (r: Interpreter)
        ensures
            r.context@ == Map::<Seq<char>, RuntimeModel>::empty(),
            r.context.wf(),
    {
        Interpreter { context: Context::new() }
    }

    /// Binds the call of `stmt` against the current variables.
    pub fn eval_stmt(&self, registry: &Registry, stmt: &StmtNode) -> (r: Result<Step, CallError>)
        requires
            registry_ok(registry@),
            self.context.wf(),
        ensures
            call_outcome(
                registry@,
                stmt_call(*stmt).0@,
                arg_node_models(stmt_call(*stmt).1.0@),
                self.context@,
                step_invocation(r),
            ),
            r matches Ok(st) ==> match stmt {
                StmtNode::Assign(v, _) => st.target matches Some(t) && t@ == v@,
                StmtNode::Call(_) => st.target is None,
            },
    {
        match stmt {
            StmtNode::Assign(variable, c) => match call(registry, c.0.as_str(), &c.1.0, &self.context) {
                Ok(invocation) => Ok(Step { target: Some(variable.clone()), invocation }),
                Err(e) => Err(e),
            },
            StmtNode::Call(c) => match call(registry, c.0.as_str(), &c.1.0, &self.context) {
                Ok(invocation) => Ok(Step { target: None, invocation }),
                Err(e) => Err(e),
            },
        }
    }

    /// Stores the result of a step's builtin under the step's target.
    pub fn assign(&mut self, variable: &str, value: &Value)
        requires
            old(self).context.wf(),
            value.wf(),
        ensures
            final(self).context.wf(),
            final(self).context@ == old(self).context@.insert(variable@, value@),
    {
        self.context.assign_variable(variable, value);
    }
}

} // verus!
