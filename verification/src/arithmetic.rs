//! The arithmetic of the language: 32-bit words, carried in 64-bit integers.

use vstd::prelude::*;

use crate::ast::{BinaryOp, UnaryOp};
use crate::trap::TrapCode;

verus! {

/// A trap: its code and the message that explains it.
pub type Trap = (TrapCode, String);

/// A trap, with its message as a text.
pub type TrapView = (TrapCode, Seq<char>);

/// A result, with the message of its trap as a text.
pub open spec fn result_view<T>(r: Result<T, Trap>) -> Result<T, TrapView> {
    match r {
        Ok(value) => Ok(value),
        Err(trap) => Err((trap.0, trap.1@)),
    }
}

/// The 32-bit two's complement number that `v` is congruent to.
pub open spec fn wrap32(v: int) -> i64 {
    ((v + 0x8000_0000) % 0x1_0000_0000 - 0x8000_0000) as i64
}

/// Whether `v` is a 32-bit two's complement number.
pub open spec fn is_word(v: i64) -> bool {
    -0x8000_0000 <= v < 0x8000_0000
}

/// The quotient of `a` and `b`, rounded towards zero.
pub open spec fn quotient(a: int, b: int) -> int {
    let magnitude = (if a < 0 { -a } else { a }) / (if b < 0 { -b } else { b });
    if (a < 0) == (b < 0) {
        magnitude
    } else {
        -magnitude
    }
}

/// One for true, zero for false.
pub open spec fn truth(b: bool) -> i64 {
    if b {
        1
    } else {
        0
    }
}

/// What a binary operator makes of two values.
pub open spec fn binary_result(op: BinaryOp, left: i64, right: i64) -> Result<i64, TrapView> {
    match op {
        BinaryOp::Add => Ok(wrap32(left + right)),
        BinaryOp::Sub => Ok(wrap32(left - right)),
        BinaryOp::Mul => Ok(wrap32(left * right)),
        BinaryOp::Div => if right == 0 {
            Err((TrapCode::DivideByZero, "Division by zero"@))
        } else {
            Ok(wrap32(quotient(left as int, right as int)))
        },
        BinaryOp::Eq => Ok(truth(left == right)),
        BinaryOp::Ne => Ok(truth(left != right)),
        BinaryOp::Lt => Ok(truth(left < right)),
        BinaryOp::Gt => Ok(truth(left > right)),
        BinaryOp::Le => Ok(truth(left <= right)),
        BinaryOp::Ge => Ok(truth(left >= right)),
        BinaryOp::And => Ok(truth(left != 0 && right != 0)),
        BinaryOp::Or => Ok(truth(left != 0 || right != 0)),
    }
}

/// What a unary operator makes of a value.
pub open spec fn unary_result(op: UnaryOp, operand: i64) -> i64 {
    match op {
        UnaryOp::Neg => wrap32(-operand),
        UnaryOp::Not => truth(operand == 0),
    }
}

/// Sums that differ by multiples of two to the sixty-fourth are the same word.
proof fn lemma_wrap_shift(v: int, k: int)
    ensures
        wrap32(v + k * 0x1_0000_0000_0000_0000) == wrap32(v),
{
    let shifted = v + 0x8000_0000 + k * 0x1_0000_0000_0000_0000;
    assert(shifted == (k * 0x1_0000_0000) * 0x1_0000_0000 + (v + 0x8000_0000));
    vstd::arithmetic::div_mod::lemma_mod_multiples_vanish(
        k * 0x1_0000_0000,
        v + 0x8000_0000,
        0x1_0000_0000,
    );
    assert(0x1_0000_0000 * (k * 0x1_0000_0000) == (k * 0x1_0000_0000) * 0x1_0000_0000);
}

/// The wrapping operations on 64-bit integers lose nothing that a word can hold.
proof fn lemma_wrapping(left: i64, right: i64)
    ensures
        wrap32(left.wrapping_add(right) as int) == wrap32(left + right),
        wrap32(left.wrapping_sub(right) as int) == wrap32(left - right),
        wrap32(left.wrapping_mul(right) as int) == wrap32(left * right),
{
    lemma_wrap_shift(left + right, 1);
    lemma_wrap_shift(left + right, -1);
    lemma_wrap_shift(left - right, 1);
    lemma_wrap_shift(left - right, -1);
    let product = left * right;
    let rest = product % 0x1_0000_0000_0000_0000;
    let whole = product / 0x1_0000_0000_0000_0000;
    lemma_wrap_shift(product, -whole);
    lemma_wrap_shift(product, -whole - 1);
    assert(product - whole * 0x1_0000_0000_0000_0000 == rest);
}

/// The quotient of machine integers is the quotient rounded towards zero.
proof fn lemma_quotient(left: i64, right: i64)
    requires
        right != 0,
        !(left == i64::MIN && right == -1),
    ensures
        quotient(left as int, right as int) == (if left >= 0 {
            left as int / right as int
        } else {
            -((-left) / (right as int))
        }),
        i64::MIN <= quotient(left as int, right as int) <= i64::MAX,
{
    let a: int = if left < 0 { -left } else { left as int };
    let b: int = if right < 0 { -right } else { right as int };
    assert(a / b <= a) by (nonlinear_arith)
        requires a >= 0, b >= 1;
    assert(a / b >= 0) by (nonlinear_arith)
        requires a >= 0, b >= 1;
    assert(a / (-b) == -(a / b)) by (nonlinear_arith)
        requires a >= 0, b >= 1;
    if a == 0x8000_0000_0000_0000 && b > 1 {
        assert(a / b < a) by (nonlinear_arith)
            requires a > 0, b > 1;
    }
}

/// The 32-bit two's complement number that `value` is congruent to.
pub fn normalize_i32(value: i64) -> (r: i64)
    ensures
        r == wrap32(value as int),
        is_word(r),
{
    assert(value & 0xFFFF_FFFFi64 == value % 0x1_0000_0000i64) by (bit_vector);
    let masked: i64 = value & 0xFFFF_FFFF;
    if masked > 0x7FFF_FFFF {
        masked - 0x1_0000_0000
    } else {
        masked
    }
}

/// One for true, zero for false.
pub fn bool_value(value: bool) -> (r: i64)
    ensures
        r == truth(value),
{
    if value {
        1
    } else {
        0
    }
}

/// What a binary operator other than the two logical ones makes of two values.
pub fn eval_binary(op: BinaryOp, left: i64, right: i64) -> (r: Result<i64, Trap>)
    requires
        op != BinaryOp::And,
        op != BinaryOp::Or,
        !(op == BinaryOp::Div && left == i64::MIN && right == -1),
    ensures
        result_view(r) == binary_result(op, left, right),
        r matches Ok(value) ==> is_word(value),
{
    proof {
        lemma_wrapping(left, right);
    }
    match op {
        BinaryOp::Add => Ok(normalize_i32(left.wrapping_add(right))),
        BinaryOp::Sub => Ok(normalize_i32(left.wrapping_sub(right))),
        BinaryOp::Mul => Ok(normalize_i32(left.wrapping_mul(right))),
        BinaryOp::Div => {
            if right == 0 {
                Err((TrapCode::DivideByZero, "Division by zero".to_string()))
            } else {
                proof {
                    lemma_quotient(left, right);
                }
                Ok(normalize_i32(left / right))
            }
        },
        BinaryOp::Eq => Ok(bool_value(left == right)),
        BinaryOp::Ne => Ok(bool_value(left != right)),
        BinaryOp::Lt => Ok(bool_value(left < right)),
        BinaryOp::Gt => Ok(bool_value(left > right)),
        BinaryOp::Le => Ok(bool_value(left <= right)),
        _ => Ok(bool_value(left >= right)),
    }
}

/// What a unary operator makes of a value.
pub fn eval_unary(op: UnaryOp, operand: i64) -> (r: i64)
    requires
        !(op == UnaryOp::Neg && operand == i64::MIN),
    ensures
        r == unary_result(op, operand),
        is_word(r),
{
    match op {
        UnaryOp::Neg => normalize_i32(-operand),
        UnaryOp::Not => bool_value(operand == 0),
    }
}

} // verus!
