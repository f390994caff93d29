//! The values that a running activity computes with.

use vstd::prelude::*;

verus! {

pub type ValueInt = u64;

pub type VariableId = u64;

/// A function of the running program: a native one, or one that the program defines.
/// Both are numbered by the compiled program's tables.
#[derive(Clone, Copy, Debug, PartialEq, Eq, Structural)]
pub enum FunRef {
    Native(u32),
    Fun(u32),
}

/// A value on an activity's stack. All but `Unit` name the dataflow variable they belong to.
#[derive(Clone, Copy, Debug, PartialEq, Eq, Structural)]
pub enum ThreadValue {
    Unit,
    Unbound(VariableId),
    Bool(VariableId, bool),
    Integer(VariableId, ValueInt),
    Fun(VariableId, FunRef),
}

/// Why a primitive operation refused its arguments.
#[derive(Clone, Copy, Debug, PartialEq, Eq, Structural)]
pub enum ValueError {
    /// An integer was expected and a value of another kind was given.
    NotAnInteger,
}

/// What can go wrong in building and running a program.
#[derive(Clone, Copy, Debug, PartialEq, Eq, Structural)]
pub enum CompilerError {
    UnsupportedFeature,
    SyntaxError,
    TypeError,
    OutOfMemory,
    InvalidArgument,
    UnresolvedReference,
    InvalidOperation,
    Overflow,
    Underflow,
    DivideByZero,
    Other,
}

impl ThreadValue {
    /// The variable and the number of an `Integer`; every other kind is refused.
    pub fn integer(&self) -> (r: Result<(VariableId, ValueInt), ValueError>)
        ensures
            r == (match *self {
                ThreadValue::Integer(index, value) => Ok::<(VariableId, ValueInt), ValueError>(
                    (index, value),
                ),
                _ => Err::<(VariableId, ValueInt), ValueError>(ValueError::NotAnInteger),
            }),
    {
        match self {
            ThreadValue::Integer(index, value) => Ok((*index, *value)),
            _ => Err(ValueError::NotAnInteger),
        }
    }
}

} // verus!
