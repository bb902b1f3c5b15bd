use vstd::prelude::*;

use crate::error::ParseError;
use crate::symbols::{scope_fn, ProgramState};

verus! {

/// A constant expression as written in the source.
#[derive(Debug)]
pub enum Value {
    I32(i32),
    Symbol(String),
    Add(Box<Value>, Box<Value>),
    Sub(Box<Value>, Box<Value>),
    Mul(Box<Value>, Box<Value>),
    Div(Box<Value>, Box<Value>),
    Neg(Box<Value>),
    Rev(Box<Value>),
}

/// Bit `i` of `x`, counted from the least significant.
pub open spec fn bit_of(x: u32, i: u32) -> bool {
    (x >> i) & 1u32 == 1u32
}

/// `r` holds the 32 bits of `x` in the opposite order.
pub open spec fn is_bit_reversal(x: u32, r: u32) -> bool {
    forall|i: u32| i < 32 ==> #[trigger] bit_of(r, i) == bit_of(x, (31 - i) as u32)
}

/// Relies on i32::reverse_bits: the least significant bit becomes the most
/// significant one, the second the second most significant, and so on.
#[verifier::external_body]
fn reverse_bits(x: i32) -> (r: i32)
    ensures
        is_bit_reversal(x as u32, r as u32),
{
    x.reverse_bits()
}

/// The low `k` bits of `x` in the opposite order, in the low `k` bits of the result.
pub open spec fn reverse_low(x: u32, k: nat) -> u32
    decreases k,
{
    if k == 0 {
        0
    } else {
        (reverse_low(x, (k - 1) as nat) << 1u32) | ((x >> ((k - 1) as u32)) & 1u32)
    }
}

/// The word with the bits of `x` in the opposite order.
pub open spec fn reversed(x: i32) -> i32 {
    reverse_low(x as u32, 32) as i32
}

/// Truncating division of 32-bit integers; the one overflowing quotient wraps.
pub open spec fn div_wrapping(a: i32, b: i32) -> i32
    recommends
        b != 0,
{
    match a.checked_div(b) {
        Some(q) => q,
        None => i32::MIN,
    }
}

/// Combines two evaluated operands, or passes on the first failure.
pub open spec fn combine(
    a: Result<i32, ParseError>,
    b: Result<i32, ParseError>,
    f: spec_fn(i32, i32) -> Result<i32, ParseError>,
) -> Result<i32, ParseError> {
    match a {
        Err(e) => Err(e),
        Ok(x) => match b {
            Err(e) => Err(e),
            Ok(y) => f(x, y),
        },
    }
}

/// The value of an expression when names resolve through `lookup`.
pub open spec fn eval(v: Value, lookup: spec_fn(Seq<char>) -> Option<i32>) -> Result<i32, ParseError>
    decreases v,
{
    match v {
        Value::I32(x) => Ok(x),
        Value::Symbol(s) => match lookup(s@) {
            Some(x) => Ok(x),
            None => Err(ParseError::UnknownSymbol(s)),
        },
        Value::Add(a, b) => combine(eval(*a, lookup), eval(*b, lookup), |x: i32, y: i32| Ok(x.wrapping_add(y))),
        Value::Sub(a, b) => combine(eval(*a, lookup), eval(*b, lookup), |x: i32, y: i32| Ok(x.wrapping_sub(y))),
        Value::Mul(a, b) => combine(eval(*a, lookup), eval(*b, lookup), |x: i32, y: i32| Ok(x.wrapping_mul(y))),
        Value::Div(a, b) => combine(
            eval(*a, lookup),
            eval(*b, lookup),
            |x: i32, y: i32|
                if y == 0 {
                    Err(ParseError::DivisionByZero)
                } else {
                    Ok(div_wrapping(x, y))
                },
        ),
        Value::Neg(a) => match eval(*a, lookup) {
            Ok(x) => Ok(0i32.wrapping_sub(x)),
            Err(e) => Err(e),
        },
        Value::Rev(a) => match eval(*a, lookup) {
            Ok(x) => Ok(reversed(x)),
            Err(e) => Err(e),
        },
    }
}

/// How names resolve inside a program.
pub open spec fn scope_of(state: &ProgramState) -> spec_fn(Seq<char>) -> Option<i32> {
    scope_fn(state.defines@, state.file@)
}

/// An expression that names no symbol.
pub open spec fn is_literal_only(v: Value) -> bool
    decreases v,
{
    match v {
        Value::I32(_) => true,
        Value::Symbol(_) => false,
        Value::Add(a, b) | Value::Sub(a, b) | Value::Mul(a, b) | Value::Div(a, b) =>
            is_literal_only(*a) && is_literal_only(*b),
        Value::Neg(a) | Value::Rev(a) => is_literal_only(*a),
    }
}

/// A 32-bit word is determined by its bits.
proof fn lemma_bits_determine(a: u32, b: u32)
    requires
        forall|i: u32| i < 32 ==> #[trigger] bit_of(a, i) == bit_of(b, i),
    ensures
        a == b,
{
    assert forall|i: u32| i < 32 implies (a >> i) & 1u32 == (b >> i) & 1u32 by {
        assert(bit_of(a, i) == bit_of(b, i));
        assert((a >> i) & 1u32 == 1u32 || (a >> i) & 1u32 == 0u32) by (bit_vector);
        assert((b >> i) & 1u32 == 1u32 || (b >> i) & 1u32 == 0u32) by (bit_vector);
    }
    assert((a >> 0u32) & 1u32 == (b >> 0u32) & 1u32);
    assert((a >> 1u32) & 1u32 == (b >> 1u32) & 1u32);
    assert((a >> 2u32) & 1u32 == (b >> 2u32) & 1u32);
    assert((a >> 3u32) & 1u32 == (b >> 3u32) & 1u32);
    assert((a >> 4u32) & 1u32 == (b >> 4u32) & 1u32);
    assert((a >> 5u32) & 1u32 == (b >> 5u32) & 1u32);
    assert((a >> 6u32) & 1u32 == (b >> 6u32) & 1u32);
    assert((a >> 7u32) & 1u32 == (b >> 7u32) & 1u32);
    assert((a >> 8u32) & 1u32 == (b >> 8u32) & 1u32);
    assert((a >> 9u32) & 1u32 == (b >> 9u32) & 1u32);
    assert((a >> 10u32) & 1u32 == (b >> 10u32) & 1u32);
    assert((a >> 11u32) & 1u32 == (b >> 11u32) & 1u32);
    assert((a >> 12u32) & 1u32 == (b >> 12u32) & 1u32);
    assert((a >> 13u32) & 1u32 == (b >> 13u32) & 1u32);
    assert((a >> 14u32) & 1u32 == (b >> 14u32) & 1u32);
    assert((a >> 15u32) & 1u32 == (b >> 15u32) & 1u32);
    assert((a >> 16u32) & 1u32 == (b >> 16u32) & 1u32);
    assert((a >> 17u32) & 1u32 == (b >> 17u32) & 1u32);
    assert((a >> 18u32) & 1u32 == (b >> 18u32) & 1u32);
    assert((a >> 19u32) & 1u32 == (b >> 19u32) & 1u32);
    assert((a >> 20u32) & 1u32 == (b >> 20u32) & 1u32);
    assert((a >> 21u32) & 1u32 == (b >> 21u32) & 1u32);
    assert((a >> 22u32) & 1u32 == (b >> 22u32) & 1u32);
    assert((a >> 23u32) & 1u32 == (b >> 23u32) & 1u32);
    assert((a >> 24u32) & 1u32 == (b >> 24u32) & 1u32);
    assert((a >> 25u32) & 1u32 == (b >> 25u32) & 1u32);
    assert((a >> 26u32) & 1u32 == (b >> 26u32) & 1u32);
    assert((a >> 27u32) & 1u32 == (b >> 27u32) & 1u32);
    assert((a >> 28u32) & 1u32 == (b >> 28u32) & 1u32);
    assert((a >> 29u32) & 1u32 == (b >> 29u32) & 1u32);
    assert((a >> 30u32) & 1u32 == (b >> 30u32) & 1u32);
    assert((a >> 31u32) & 1u32 == (b >> 31u32) & 1u32);
    assert(a == b) by (bit_vector)
        requires
                (a >> 0u32) & 1u32 == (b >> 0u32) & 1u32,
                (a >> 1u32) & 1u32 == (b >> 1u32) & 1u32,
                (a >> 2u32) & 1u32 == (b >> 2u32) & 1u32,
                (a >> 3u32) & 1u32 == (b >> 3u32) & 1u32,
                (a >> 4u32) & 1u32 == (b >> 4u32) & 1u32,
                (a >> 5u32) & 1u32 == (b >> 5u32) & 1u32,
                (a >> 6u32) & 1u32 == (b >> 6u32) & 1u32,
                (a >> 7u32) & 1u32 == (b >> 7u32) & 1u32,
                (a >> 8u32) & 1u32 == (b >> 8u32) & 1u32,
                (a >> 9u32) & 1u32 == (b >> 9u32) & 1u32,
                (a >> 10u32) & 1u32 == (b >> 10u32) & 1u32,
                (a >> 11u32) & 1u32 == (b >> 11u32) & 1u32,
                (a >> 12u32) & 1u32 == (b >> 12u32) & 1u32,
                (a >> 13u32) & 1u32 == (b >> 13u32) & 1u32,
                (a >> 14u32) & 1u32 == (b >> 14u32) & 1u32,
                (a >> 15u32) & 1u32 == (b >> 15u32) & 1u32,
                (a >> 16u32) & 1u32 == (b >> 16u32) & 1u32,
                (a >> 17u32) & 1u32 == (b >> 17u32) & 1u32,
                (a >> 18u32) & 1u32 == (b >> 18u32) & 1u32,
                (a >> 19u32) & 1u32 == (b >> 19u32) & 1u32,
                (a >> 20u32) & 1u32 == (b >> 20u32) & 1u32,
                (a >> 21u32) & 1u32 == (b >> 21u32) & 1u32,
                (a >> 22u32) & 1u32 == (b >> 22u32) & 1u32,
                (a >> 23u32) & 1u32 == (b >> 23u32) & 1u32,
                (a >> 24u32) & 1u32 == (b >> 24u32) & 1u32,
                (a >> 25u32) & 1u32 == (b >> 25u32) & 1u32,
                (a >> 26u32) & 1u32 == (b >> 26u32) & 1u32,
                (a >> 27u32) & 1u32 == (b >> 27u32) & 1u32,
                (a >> 28u32) & 1u32 == (b >> 28u32) & 1u32,
                (a >> 29u32) & 1u32 == (b >> 29u32) & 1u32,
                (a >> 30u32) & 1u32 == (b >> 30u32) & 1u32,
                (a >> 31u32) & 1u32 == (b >> 31u32) & 1u32,
    ;
}

/// A signed word is determined by its unsigned reading.
proof fn lemma_cast_injective(x: i32, y: i32)
    requires
        x as u32 == y as u32,
    ensures
        x == y,
{
    assert(x == y) by (bit_vector)
        requires
            x as u32 == y as u32,
    ;
}

proof fn lemma_shift_in_bit(a: u32, b: u32, i: u32)
    requires
        b <= 1,
        i < 32,
    ensures
        bit_of((a << 1u32) | b, i) == if i == 0 {
            b == 1
        } else {
            bit_of(a, (i - 1) as u32)
        },
{
    assert(((((a << 1u32) | b) >> i) & 1u32 == 1u32) == if i == 0u32 {
        b == 1u32
    } else {
        ((a >> ((i - 1u32) as u32)) & 1u32) == 1u32
    }) by (bit_vector)
        requires
            b <= 1u32,
            i < 32u32,
    ;
}

/// Bit `j` of `reverse_low(x, k)` is bit `k - 1 - j` of `x` below `k`, and clear above.
proof fn lemma_reverse_low_bits(x: u32, k: nat)
    requires
        k <= 32,
    ensures
        forall|j: u32|
            j < 32 ==> #[trigger] bit_of(reverse_low(x, k), j) == (j < k && bit_of(
                x,
                (k - 1 - j) as u32,
            )),
    decreases k,
{
    if k > 0 {
        lemma_reverse_low_bits(x, (k - 1) as nat);
        let a = reverse_low(x, (k - 1) as nat);
        let s = (k - 1) as u32;
        let b = (x >> s) & 1u32;
        assert((x >> s) & 1u32 <= 1u32) by (bit_vector);
        assert forall|j: u32| j < 32 implies #[trigger] bit_of(reverse_low(x, k), j) == (j < k
            && bit_of(x, (k - 1 - j) as u32)) by {
            lemma_shift_in_bit(a, b, j);
            if j == 0 {
                assert(bit_of(x, (k - 1) as u32) == (b == 1));
            } else {
                assert(bit_of(a, (j - 1) as u32) == ((j - 1) < (k - 1) && bit_of(
                    x,
                    (k - 1 - 1 - (j - 1) as u32) as u32,
                )));
                if j < k {
                    assert((k - 1 - 1 - (j - 1) as u32) as u32 == (k - 1 - j) as u32);
                }
            }
        }
    } else {
        assert forall|j: u32| j < 32 implies !#[trigger] bit_of(0u32, j) by {
            assert((0u32 >> j) & 1u32 != 1u32) by (bit_vector);
        }
    }
}

/// `reversed` reverses the bits of its argument.
proof fn lemma_reversed_is_reversal(x: i32)
    ensures
        is_bit_reversal(x as u32, reversed(x) as u32),
{
    lemma_reverse_low_bits(x as u32, 32);
    let r = reverse_low(x as u32, 32);
    assert(r as i32 as u32 == r) by (bit_vector);
}

/// Two reversals of one word agree.
proof fn lemma_reversal_unique(x: u32, r: u32)
    requires
        is_bit_reversal(x, r),
    ensures
        forall|s: i32| is_bit_reversal(x, #[trigger] (s as u32)) ==> s == r as i32,
{
    assert forall|s: i32| is_bit_reversal(x, #[trigger] (s as u32)) implies s == r as i32 by {
        assert forall|i: u32| i < 32 implies #[trigger] bit_of(s as u32, i) == bit_of(r, i) by {
            assert(bit_of(s as u32, i) == bit_of(x, (31 - i) as u32));
            assert(bit_of(r, i) == bit_of(x, (31 - i) as u32));
        }
        lemma_bits_determine(s as u32, r);
        assert(r as i32 as u32 == r) by (bit_vector);
        lemma_cast_injective(s, r as i32);
    }
}

/// An expression built from literals alone has the same value whatever the
/// symbols are, so evaluating it twice gives the same result.
pub proof fn lemma_literal_eval_is_fixed(
    v: Value,
    a: spec_fn(Seq<char>) -> Option<i32>,
    b: spec_fn(Seq<char>) -> Option<i32>,
)
    requires
        is_literal_only(v),
    ensures
        eval(v, a) == eval(v, b),
    decreases v,
{
    match v {
        Value::Add(x, y) | Value::Sub(x, y) | Value::Mul(x, y) | Value::Div(x, y) => {
            lemma_literal_eval_is_fixed(*x, a, b);
            lemma_literal_eval_is_fixed(*y, a, b);
        },
        Value::Neg(x) | Value::Rev(x) => {
            lemma_literal_eval_is_fixed(*x, a, b);
        },
        _ => {},
    }
}

/// Reversing the bits of a word twice gives the word back.
pub proof fn lemma_reverse_twice(x: i32)
    ensures
        reversed(reversed(x)) == x,
{
    lemma_reversed_is_reversal(x);
    lemma_reversed_is_reversal(reversed(x));
    lemma_reversals_cancel(x, reversed(x), reversed(reversed(x)));
}

/// An expression reversed twice has the value of the expression itself.
pub proof fn lemma_eval_reverse_twice(v: Value, lookup: spec_fn(Seq<char>) -> Option<i32>)
    ensures
        eval(Value::Rev(Box::new(Value::Rev(Box::new(v)))), lookup) == eval(v, lookup),
{
    let inner = Value::Rev(Box::new(v));
    assert(eval(inner, lookup) == match eval(v, lookup) {
        Ok(x) => Ok(reversed(x)),
        Err(e) => Err::<i32, ParseError>(e),
    });
    if let Ok(x) = eval(v, lookup) {
        lemma_reverse_twice(x);
    }
}

proof fn lemma_reversals_cancel(x: i32, r: i32, rr: i32)
    requires
        is_bit_reversal(x as u32, r as u32),
        is_bit_reversal(r as u32, rr as u32),
    ensures
        rr == x,
{
    assert forall|i: u32| i < 32 implies #[trigger] bit_of(rr as u32, i) == bit_of(x as u32, i) by {
        assert(bit_of(rr as u32, i) == bit_of(r as u32, (31 - i) as u32));
        assert(bit_of(r as u32, (31 - i) as u32) == bit_of(x as u32, (31 - (31 - i) as u32) as u32));
    }
    lemma_bits_determine(rr as u32, x as u32);
    lemma_cast_injective(rr, x);
}

impl Value {
    /// Folds the expression to a 32-bit integer, resolving names in `state`.
    pub fn reify(&self, state: &ProgramState) -> (r: Result<i32, ParseError>)
        ensures
            r == eval(*self, scope_of(state)),
        decreases self,
    {
        match self {
            Value::I32(v) => Ok(*v),
            Value::Symbol(s) => match state.resolve(s) {
                Some(v) => Ok(v),
                None => Err(ParseError::UnknownSymbol(s.clone())),
            },
            Value::Add(a, b) => {
                let x = a.reify(state)?;
                let y = b.reify(state)?;
                Ok(x.wrapping_add(y))
            },
            Value::Sub(a, b) => {
                let x = a.reify(state)?;
                let y = b.reify(state)?;
                Ok(x.wrapping_sub(y))
            },
            Value::Mul(a, b) => {
                let x = a.reify(state)?;
                let y = b.reify(state)?;
                Ok(x.wrapping_mul(y))
            },
            Value::Div(a, b) => {
                let x = a.reify(state)?;
                let y = b.reify(state)?;
                match x.checked_div(y) {
                    Some(q) => Ok(q),
                    None => if y == 0 {
                        Err(ParseError::DivisionByZero)
                    } else {
                        Ok(i32::MIN)
                    },
                }
            },
            Value::Neg(a) => {
                let x = a.reify(state)?;
                Ok(0i32.wrapping_sub(x))
            },
            Value::Rev(a) => {
                let x = a.reify(state)?;
                let r = reverse_bits(x);
                proof {
                    lemma_reversed_is_reversal(x);
                    lemma_reversal_unique(x as u32, reversed(x) as u32);
                    assert(reversed(x) as u32 as i32 == reversed(x)) by (bit_vector);
                }
                Ok(r)
            },
        }
    }
}

} // verus!
