//! The messages that activities and the coordinator exchange.

use vstd::prelude::*;
use crate::compiler::value::{FunRef, ThreadValue, ValueInt, VariableId};

verus! {

pub type ThreadId = u64;

pub type ProcessId = u64;

/// What a bound dataflow variable holds. The coordinator carries it and never looks inside.
#[derive(Clone, Copy, Debug, PartialEq, Eq, Structural)]
pub enum Payload {
    Unit,
    Bool(bool),
    Int(ValueInt),
    Fun(FunRef),
}

/// A dataflow variable as it travels in a message: still unbound, or bound to its payload.
#[derive(Clone, Copy, Debug, PartialEq, Eq, Structural)]
pub enum Value {
    Unbound(VariableId),
    Bound(VariableId, Payload),
}

impl Value {
    pub open spec fn spec_id(&self) -> VariableId {
        match *self {
            Value::Unbound(id) => id,
            Value::Bound(id, _) => id,
        }
    }

    /// The variable that the value speaks of.
    #[verifier::when_used_as_spec(spec_id)]
    pub fn id(&self) -> (id: VariableId)
        ensures
            id == self.spec_id(),
    {
        match self {
            Value::Unbound(id) => *id,
            Value::Bound(id, _) => *id,
        }
    }

    /// The dataflow variable that a value of the running program stands for. `Unit`
    /// belongs to no variable.
    pub open spec fn spec_from_thread_value(v: ThreadValue) -> Option<Value> {
        match v {
            ThreadValue::Unit => None,
            ThreadValue::Unbound(id) => Some(Value::Unbound(id)),
            ThreadValue::Bool(id, b) => Some(Value::Bound(id, Payload::Bool(b))),
            ThreadValue::Integer(id, n) => Some(Value::Bound(id, Payload::Int(n))),
            ThreadValue::Fun(id, f) => Some(Value::Bound(id, Payload::Fun(f))),
        }
    }

    /// The dataflow variable that a value of the running program stands for. `Unit`
    /// belongs to no variable.
    #[verifier::when_used_as_spec(spec_from_thread_value)]
    pub fn from_thread_value(v: ThreadValue) -> (cell: Option<Value>)
        ensures
            cell == Self::spec_from_thread_value(v),
    {
        match v {
            ThreadValue::Unit => None,
            ThreadValue::Unbound(id) => Some(Value::Unbound(id)),
            ThreadValue::Bool(id, b) => Some(Value::Bound(id, Payload::Bool(b))),
            ThreadValue::Integer(id, n) => Some(Value::Bound(id, Payload::Int(n))),
            ThreadValue::Fun(id, f) => Some(Value::Bound(id, Payload::Fun(f))),
        }
    }

    /// The value of the running program that the variable stands for. A variable bound to
    /// the unit is the unit.
    pub open spec fn spec_to_thread_value(&self) -> ThreadValue {
        match *self {
            Value::Unbound(id) => ThreadValue::Unbound(id),
            Value::Bound(_, Payload::Unit) => ThreadValue::Unit,
            Value::Bound(id, Payload::Bool(b)) => ThreadValue::Bool(id, b),
            Value::Bound(id, Payload::Int(n)) => ThreadValue::Integer(id, n),
            Value::Bound(id, Payload::Fun(f)) => ThreadValue::Fun(id, f),
        }
    }

    /// The value of the running program that the variable stands for. A variable bound to
    /// the unit is the unit.
    #[verifier::when_used_as_spec(spec_to_thread_value)]
    pub fn to_thread_value(&self) -> (v: ThreadValue)
        ensures
            v == self.spec_to_thread_value(),
    {
        match self {
            Value::Unbound(id) => ThreadValue::Unbound(*id),
            Value::Bound(_, Payload::Unit) => ThreadValue::Unit,
            Value::Bound(id, Payload::Bool(b)) => ThreadValue::Bool(*id, *b),
            Value::Bound(id, Payload::Int(n)) => ThreadValue::Integer(*id, *n),
            Value::Bound(id, Payload::Fun(f)) => ThreadValue::Fun(*id, *f),
        }
    }

    pub open spec fn spec_is_bound(&self) -> bool {
        *self is Bound
    }

    /// Whether the value carries a payload.
    #[verifier::when_used_as_spec(spec_is_bound)]
    pub fn is_bound(&self) -> (b: bool)
        ensures
            b == self.spec_is_bound(),
    {
        match self {
            Value::Unbound(_) => false,
            Value::Bound(_, _) => true,
        }
    }
}

/// One message. From an activity to the coordinator it is a request or an
/// announcement; from the coordinator to an activity, `SynchVar` is a notification.
#[derive(Debug, PartialEq, Eq)]
pub enum Operation {
    /// With an unbound value: the activity needs to read the variable.
    /// With a bound value: the activity has just bound it.
    SynchVar(ThreadId, Value),
    /// The activity asks for a new activity that runs the given program.
    ThreadSpawn(ThreadId, Vec<Operation>),
    /// The activity will produce the variable, and only once it is demanded.
    WaitNeeded(ThreadId, VariableId),
    /// The activity's program is exhausted.
    ThreadTerminate(ThreadId),
}

/// A value of the running program that belongs to a variable comes back unchanged from
/// the variable that stands for it.
pub proof fn lemma_thread_value_round_trip(v: ThreadValue)
    requires
        v != ThreadValue::Unit,
    ensures
        Value::spec_from_thread_value(v) is Some,
        Value::spec_from_thread_value(v)->0.spec_to_thread_value() == v,
{
}

impl Operation {
    /// A request to read variable `id`.
    pub fn unbound(thread_id: ThreadId, id: VariableId) -> (op: Self)
        ensures
            op == Operation::SynchVar(thread_id, Value::Unbound(id)),
    {
        Self::SynchVar(thread_id, Value::Unbound(id))
    }

    /// The announcement that variable `id` now holds the integer `value`.
    pub fn integer(thread_id: ThreadId, id: VariableId, value: ValueInt) -> (op: Self)
        ensures
            op == Operation::SynchVar(thread_id, Value::Bound(id, Payload::Int(value))),
    {
        Self::SynchVar(thread_id, Value::Bound(id, Payload::Int(value)))
    }

    pub open spec fn spec_thread(&self) -> ThreadId {
        match *self {
            Operation::SynchVar(t, _) => t,
            Operation::ThreadSpawn(t, _) => t,
            Operation::WaitNeeded(t, _) => t,
            Operation::ThreadTerminate(t) => t,
        }
    }

    /// The activity that the message names as its author.
    #[verifier::when_used_as_spec(spec_thread)]
    pub fn thread(&self) -> (t: ThreadId)
        ensures
            t == self.spec_thread(),
    {
        match self {
            Operation::SynchVar(t, _) => *t,
            Operation::ThreadSpawn(t, _) => *t,
            Operation::WaitNeeded(t, _) => *t,
            Operation::ThreadTerminate(t) => *t,
        }
    }
}

} // verus!
