//! Literals as the program text writes them.

use vstd::prelude::*;
use crate::compiler::nifs::ThreadLiteral;
use crate::frontend::text::{chars_of, compare_texts, Order};

verus! {

/// The kinds of literal that a program text can hold.
#[derive(Clone, Copy, Debug, PartialEq, Eq, Structural)]
pub enum LiteralKind {
    Bool,
    Number,
    String,
    Decimal,
    Bytes,
}

/// Why a literal of the text is no literal of the language.
#[derive(Clone, Copy, Debug, PartialEq, Eq, Structural)]
pub enum LiteralError {
    /// The language has no literals of this kind.
    NotSupported,
    /// The text of a number is not a decimal number that fits in 64 bits.
    NotANumber,
}

/// The value of a decimal digit.
pub open spec fn digit(c: char) -> Option<nat> {
    if '0' <= c && c <= '9' {
        Some((c as u32 - '0' as u32) as nat)
    } else {
        None
    }
}

/// The number that a text of decimal digits writes; nothing where another character
/// stands in it. The empty text writes 0.
pub open spec fn digits_value(s: Seq<char>) -> Option<nat>
    decreases s.len(),
{
    if s.len() == 0 {
        Some(0)
    } else {
        match (digits_value(s.drop_last()), digit(s.last())) {
            (Some(v), Some(d)) => Some(v * 10 + d),
            _ => None,
        }
    }
}

/// The number that the text writes: decimal digits, at least one, with or without a plus
/// sign before them, and no more than 64 bits hold.
pub open spec fn number(s: Seq<char>) -> Option<u64> {
    let digits = if s.len() > 0 && s[0] == '+' {
        s.skip(1)
    } else {
        s
    };
    if digits.len() == 0 {
        None
    } else {
        match digits_value(digits) {
            Some(v) => if v <= u64::MAX {
                Some(v as u64)
            } else {
                None
            },
            None => None,
        }
    }
}

/// A text of digits writes a number no smaller than any of its beginnings does.
proof fn lemma_digits_grow(s: Seq<char>, n: int)
    requires
        0 <= n <= s.len(),
        digits_value(s) is Some,
    ensures
        digits_value(s.take(n)) is Some,
        digits_value(s.take(n))->0 <= digits_value(s)->0,
    decreases s.len(),
{
    if n == s.len() {
        assert(s.take(n) == s);
    } else {
        assert(s.drop_last().take(n) == s.take(n));
        lemma_digits_grow(s.drop_last(), n);
    }
}

/// A text with a character that is no digit writes no number.
proof fn lemma_digits_fail(s: Seq<char>, n: int)
    requires
        0 <= n <= s.len(),
        digits_value(s.take(n)) is None,
    ensures
        digits_value(s) is None,
    decreases s.len(),
{
    if n == s.len() {
        assert(s.take(n) == s);
    } else {
        assert(s.drop_last().take(n) == s.take(n));
        lemma_digits_fail(s.drop_last(), n);
    }
}

/// Reads a decimal number of at most 64 bits.
pub fn parse_number(text: &str) -> (n: Option<u64>)
    ensures
        n == number(text@),
{
    let chars = chars_of(text);
    let start: usize = if chars.len() > 0 && chars[0] == '+' {
        1
    } else {
        0
    };
    if start == chars.len() {
        return None;
    }
    let ghost digits = text@.skip(start as int);
    let mut value: u64 = 0;
    let mut i: usize = start;
    proof {
        assert(digits.take(0) == Seq::<char>::empty());
        assert(text@.skip(0) == text@);
        assert(digits == (if text@.len() > 0 && text@[0] == '+' {
            text@.skip(1)
        } else {
            text@
        }));
    }
    while i < chars.len()
        invariant
            start <= i <= chars.len(),
            chars@ == text@,
            digits == (if text@.len() > 0 && text@[0] == '+' {
                text@.skip(1)
            } else {
                text@
            }),
            digits.len() == chars.len() - start,
            digits.len() > 0,
            forall|k: int| 0 <= k < digits.len() ==> digits[k] == chars@[start + k],
            digits_value(digits.take(i - start)) == Some(value as nat),
        decreases chars.len() - i,
    {
        let c = chars[i];
        proof {
            assert(digits.take(i - start + 1).drop_last() == digits.take(i - start));
            assert(digits.take(i - start + 1).last() == c);
        }
        if c < '0' || c > '9' {
            proof {
                lemma_digits_fail(digits, i - start + 1);
            }
            return None;
        }
        let d = (c as u32 - '0' as u32) as u64;
        let next = match value.checked_mul(10) {
            Some(tens) => tens.checked_add(d),
            None => None,
        };
        match next {
            Some(v) => {
                value = v;
            },
            None => {
                proof {
                    if digits_value(digits) is Some {
                        lemma_digits_grow(digits, i - start + 1);
                    }
                }
                return None;
            },
        }
        i += 1;
    }
    proof {
        assert(digits.take(digits.len() as int) == digits);
    }
    Some(value)
}

/// The literal of the language that a literal of the text stands for. It belongs to
/// variable 0 until it is given to another.
///
/// A boolean is true where its text is `true`. A number is read as a decimal number. The
/// other kinds are not supported.
pub fn thread_literal_of(kind: LiteralKind, text: &str) -> (r: Result<ThreadLiteral, LiteralError>)
    ensures
        r == (match kind {
            LiteralKind::Bool => Ok::<ThreadLiteral, LiteralError>(
                ThreadLiteral::Bool(0, text@ == seq!['t', 'r', 'u', 'e']),
            ),
            LiteralKind::Number => match number(text@) {
                Some(n) => Ok::<ThreadLiteral, LiteralError>(ThreadLiteral::Integer(0, n)),
                None => Err::<ThreadLiteral, LiteralError>(LiteralError::NotANumber),
            },
            _ => Err::<ThreadLiteral, LiteralError>(LiteralError::NotSupported),
        }),
{
    match kind {
        LiteralKind::Bool => {
            proof {
                reveal_strlit("true");
                assert("true"@ == seq!['t', 'r', 'u', 'e']);
            }
            let b = match compare_texts(text, "true") {
                Order::Same => true,
                _ => false,
            };
            Ok(ThreadLiteral::Bool(0, b))
        },
        LiteralKind::Number => match parse_number(text) {
            Some(n) => Ok(ThreadLiteral::Integer(0, n)),
            None => Err(LiteralError::NotANumber),
        },
        _ => Err(LiteralError::NotSupported),
    }
}

} // verus!
