//! Literals of the language and its native functions on integers.
//!
//! The result of a native function belongs to the variable of its first argument.

use vstd::prelude::*;
use crate::compiler::value::{ThreadValue, ValueError, ValueInt, VariableId};

verus! {

/// A literal of the program text, with the variable that it is written for.
#[derive(Clone, Copy, Debug, PartialEq, Eq, Hash, Structural)]
pub enum ThreadLiteral {
    Bool(VariableId, bool),
    Integer(VariableId, ValueInt),
}

/// The value that a literal stands for.
pub fn thread_literal_to_value(lit: &ThreadLiteral) -> (v: ThreadValue)
    ensures
        v == (match *lit {
            ThreadLiteral::Bool(variable_id, b) => ThreadValue::Bool(variable_id, b),
            ThreadLiteral::Integer(variable_id, n) => ThreadValue::Integer(variable_id, n),
        }),
{
    match lit {
        ThreadLiteral::Bool(variable_id, b) => ThreadValue::Bool(*variable_id, *b),
        ThreadLiteral::Integer(variable_id, n) => ThreadValue::Integer(*variable_id, *n),
    }
}

/// The variable and the number of an integer value.
pub open spec fn int_of(v: ThreadValue) -> Result<(VariableId, ValueInt), ValueError> {
    match v {
        ThreadValue::Integer(index, value) => Ok((index, value)),
        _ => Err(ValueError::NotAnInteger),
    }
}

/// Whether the first two arguments are integers.
pub open spec fn two_ints(args: Seq<ThreadValue>) -> bool {
    args.len() >= 2 && int_of(args[0]) is Ok && int_of(args[1]) is Ok
}

/// The sum of two integers.
pub fn nif_plus(args: &[ThreadValue]) -> (r: Result<ThreadValue, ValueError>)
    requires
        args@.len() >= 2,
        two_ints(args@) ==> int_of(args@[0])->Ok_0.1 + int_of(args@[1])->Ok_0.1 <= u64::MAX,
    ensures
        two_ints(args@) ==> r == Ok::<ThreadValue, ValueError>(
            ThreadValue::Integer(
                int_of(args@[0])->Ok_0.0,
                (int_of(args@[0])->Ok_0.1 + int_of(args@[1])->Ok_0.1) as u64,
            ),
        ),
        !two_ints(args@) ==> r == Err::<ThreadValue, ValueError>(ValueError::NotAnInteger),
{
    let (i1, n1) = args[0].integer()?;
    let (_, n2) = args[1].integer()?;
    Ok(ThreadValue::Integer(i1, n1 + n2))
}

/// The difference of two integers.
pub fn nif_sub(args: &[ThreadValue]) -> (r: Result<ThreadValue, ValueError>)
    requires
        args@.len() >= 2,
        two_ints(args@) ==> int_of(args@[0])->Ok_0.1 >= int_of(args@[1])->Ok_0.1,
    ensures
        two_ints(args@) ==> r == Ok::<ThreadValue, ValueError>(
            ThreadValue::Integer(
                int_of(args@[0])->Ok_0.0,
                (int_of(args@[0])->Ok_0.1 - int_of(args@[1])->Ok_0.1) as u64,
            ),
        ),
        !two_ints(args@) ==> r == Err::<ThreadValue, ValueError>(ValueError::NotAnInteger),
{
    let (i1, n1) = args[0].integer()?;
    let (_, n2) = args[1].integer()?;
    Ok(ThreadValue::Integer(i1, n1 - n2))
}

/// The product of two integers.
pub fn nif_mul(args: &[ThreadValue]) -> (r: Result<ThreadValue, ValueError>)
    requires
        args@.len() >= 2,
        two_ints(args@) ==> int_of(args@[0])->Ok_0.1 * int_of(args@[1])->Ok_0.1 <= u64::MAX,
    ensures
        two_ints(args@) ==> r == Ok::<ThreadValue, ValueError>(
            ThreadValue::Integer(
                int_of(args@[0])->Ok_0.0,
                (int_of(args@[0])->Ok_0.1 * int_of(args@[1])->Ok_0.1) as u64,
            ),
        ),
        !two_ints(args@) ==> r == Err::<ThreadValue, ValueError>(ValueError::NotAnInteger),
{
    let (i1, n1) = args[0].integer()?;
    let (_, n2) = args[1].integer()?;
    Ok(ThreadValue::Integer(i1, n1 * n2))
}

/// The bitwise complement of an integer.
pub fn nif_neg(args: &[ThreadValue]) -> (r: Result<ThreadValue, ValueError>)
    requires
        args@.len() >= 1,
    ensures
        r == (match int_of(args@[0]) {
            Ok((i1, n1)) => Ok::<ThreadValue, ValueError>(ThreadValue::Integer(i1, !n1)),
            Err(e) => Err::<ThreadValue, ValueError>(e),
        }),
{
    let (i1, n1) = args[0].integer()?;
    Ok(ThreadValue::Integer(i1, !n1))
}

/// Whether two integers are equal.
pub fn nif_eq(args: &[ThreadValue]) -> (r: Result<ThreadValue, ValueError>)
    requires
        args@.len() >= 2,
    ensures
        two_ints(args@) ==> r == Ok::<ThreadValue, ValueError>(
            ThreadValue::Bool(
                int_of(args@[0])->Ok_0.0,
                int_of(args@[0])->Ok_0.1 == int_of(args@[1])->Ok_0.1,
            ),
        ),
        !two_ints(args@) ==> r == Err::<ThreadValue, ValueError>(ValueError::NotAnInteger),
{
    let (i1, n1) = args[0].integer()?;
    let (_, n2) = args[1].integer()?;
    Ok(ThreadValue::Bool(i1, n1 == n2))
}

/// Whether the first integer is at most the second.
pub fn nif_le(args: &[ThreadValue]) -> (r: Result<ThreadValue, ValueError>)
    requires
        args@.len() >= 2,
    ensures
        two_ints(args@) ==> r == Ok::<ThreadValue, ValueError>(
            ThreadValue::Bool(
                int_of(args@[0])->Ok_0.0,
                int_of(args@[0])->Ok_0.1 <= int_of(args@[1])->Ok_0.1,
            ),
        ),
        !two_ints(args@) ==> r == Err::<ThreadValue, ValueError>(ValueError::NotAnInteger),
{
    let (i1, n1) = args[0].integer()?;
    let (_, n2) = args[1].integer()?;
    Ok(ThreadValue::Bool(i1, n1 <= n2))
}

} // verus!
