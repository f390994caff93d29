use sio::compiler::literal::{parse_number, thread_literal_of, LiteralError, LiteralKind};
use sio::compiler::nifs::{
    nif_eq, nif_le, nif_mul, nif_neg, nif_plus, nif_sub, thread_literal_to_value, ThreadLiteral,
};
use sio::compiler::value::{CompilerError, FunRef, ThreadValue, ValueError};

#[test]
fn literals_become_values() {
    assert_eq!(thread_literal_to_value(&ThreadLiteral::Bool(3, true)), ThreadValue::Bool(3, true));
    assert_eq!(thread_literal_to_value(&ThreadLiteral::Integer(0, 42)), ThreadValue::Integer(0, 42));
}

#[test]
fn only_integers_are_integers() {
    assert_eq!(ThreadValue::Integer(2, 9).integer(), Ok((2, 9)));
    assert_eq!(ThreadValue::Unit.integer(), Err(ValueError::NotAnInteger));
    assert_eq!(ThreadValue::Unbound(2).integer(), Err(ValueError::NotAnInteger));
    assert_eq!(ThreadValue::Bool(2, true).integer(), Err(ValueError::NotAnInteger));
    assert_eq!(ThreadValue::Fun(2, FunRef::Fun(0)).integer(), Err(ValueError::NotAnInteger));
}

#[test]
fn arithmetic_keeps_the_variable_of_the_first_argument() {
    let a = ThreadValue::Integer(1, 6);
    let b = ThreadValue::Integer(2, 4);
    assert_eq!(nif_plus(&[a, b]), Ok(ThreadValue::Integer(1, 10)));
    assert_eq!(nif_sub(&[a, b]), Ok(ThreadValue::Integer(1, 2)));
    assert_eq!(nif_mul(&[a, b]), Ok(ThreadValue::Integer(1, 24)));
    assert_eq!(nif_eq(&[a, b]), Ok(ThreadValue::Bool(1, false)));
    assert_eq!(nif_eq(&[a, ThreadValue::Integer(9, 6)]), Ok(ThreadValue::Bool(1, true)));
    assert_eq!(nif_le(&[a, b]), Ok(ThreadValue::Bool(1, false)));
    assert_eq!(nif_le(&[b, a]), Ok(ThreadValue::Bool(2, true)));
    assert_eq!(nif_le(&[a, a]), Ok(ThreadValue::Bool(1, true)));
    assert_eq!(nif_neg(&[a]), Ok(ThreadValue::Integer(1, !6)));
    assert_eq!(nif_neg(&[ThreadValue::Integer(1, 0)]), Ok(ThreadValue::Integer(1, u64::MAX)));
    assert_eq!(
        nif_plus(&[ThreadValue::Integer(1, u64::MAX - 1), ThreadValue::Integer(2, 1)]),
        Ok(ThreadValue::Integer(1, u64::MAX))
    );
    assert_eq!(nif_sub(&[a, a]), Ok(ThreadValue::Integer(1, 0)));
}

#[test]
fn arithmetic_refuses_other_kinds() {
    let a = ThreadValue::Integer(1, 6);
    let u = ThreadValue::Unbound(2);
    assert_eq!(nif_plus(&[a, u]), Err(ValueError::NotAnInteger));
    assert_eq!(nif_plus(&[u, a]), Err(ValueError::NotAnInteger));
    assert_eq!(nif_sub(&[ThreadValue::Unit, a]), Err(ValueError::NotAnInteger));
    assert_eq!(nif_mul(&[a, ThreadValue::Bool(1, true)]), Err(ValueError::NotAnInteger));
    assert_eq!(nif_eq(&[u, u]), Err(ValueError::NotAnInteger));
    assert_eq!(nif_le(&[a, u]), Err(ValueError::NotAnInteger));
    assert_eq!(nif_neg(&[u]), Err(ValueError::NotAnInteger));
}

#[test]
fn compiler_errors_are_distinct() {
    assert_ne!(CompilerError::Overflow, CompilerError::Underflow);
    assert_eq!(CompilerError::Other, CompilerError::Other);
}

#[test]
fn numbers_are_read_as_the_standard_library_reads_them() {
    let samples = [
        "", "+", "0", "+0", "00012", "42", "+42", "-1", "++1", "1+", " 1", "1 ", "12a", "a12",
        "18446744073709551615", "18446744073709551616", "+18446744073709551615",
        "99999999999999999999999", "1844674407370955161a", "٣", "1_000",
    ];
    for text in samples {
        assert_eq!(parse_number(text), u64::from_str_radix(text, 10).ok(), "{:?}", text);
    }
    assert_eq!(parse_number("18446744073709551615"), Some(u64::MAX));
    assert_eq!(parse_number("18446744073709551616"), None);
    assert_eq!(parse_number("007"), Some(7));
}

#[test]
fn text_literals_become_literals_of_variable_zero() {
    assert_eq!(thread_literal_of(LiteralKind::Bool, "true"), Ok(ThreadLiteral::Bool(0, true)));
    assert_eq!(thread_literal_of(LiteralKind::Bool, "false"), Ok(ThreadLiteral::Bool(0, false)));
    assert_eq!(thread_literal_of(LiteralKind::Bool, "True"), Ok(ThreadLiteral::Bool(0, false)));
    assert_eq!(thread_literal_of(LiteralKind::Bool, ""), Ok(ThreadLiteral::Bool(0, false)));
    assert_eq!(thread_literal_of(LiteralKind::Number, "42"), Ok(ThreadLiteral::Integer(0, 42)));
    assert_eq!(thread_literal_of(LiteralKind::Number, "4x"), Err(LiteralError::NotANumber));
    assert_eq!(thread_literal_of(LiteralKind::Number, ""), Err(LiteralError::NotANumber));
    assert_eq!(thread_literal_of(LiteralKind::String, "s"), Err(LiteralError::NotSupported));
    assert_eq!(thread_literal_of(LiteralKind::Decimal, "1.5"), Err(LiteralError::NotSupported));
    assert_eq!(thread_literal_of(LiteralKind::Bytes, "00"), Err(LiteralError::NotSupported));
}
