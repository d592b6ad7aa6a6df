//! Arithmetic in the 128-bit prime field of Winterfell's reference example,
//! with modulus `2^128 - 45 * 2^40 + 1`. Field elements are held in
//! canonical form, as `u128` values below the modulus.

use vstd::arithmetic::div_mod::*;
use vstd::arithmetic::power::*;
use vstd::prelude::*;

verus! {

/// The field modulus `2^128 - 45 * 2^40 + 1`.
pub const MODULUS: u128 = 340282366920938463463374557953744961537u128;

/// The modulus is the prime `2^128 - 45 * 2^40 + 1`.
pub proof fn lemma_modulus_value()
    ensures
        MODULUS == 0x1_0000_0000_0000_0000_0000_0000_0000_0000 - 45 * 0x100_0000_0000 + 1,
{
}

/// A `u128` is a field element in canonical form when it lies below the modulus.
pub open spec fn is_canonical(x: u128) -> bool {
    x < MODULUS
}

/// The canonical field element that an integer stands for.
pub open spec fn reduce(x: int) -> u128 {
    (x % (MODULUS as int)) as u128
}

/// Every reduced value is a canonical field element.
pub proof fn lemma_reduce_is_canonical(x: int)
    ensures
        is_canonical(reduce(x)),
        reduce(x) as int == x % (MODULUS as int),
{
    lemma_mod_bound(x, MODULUS as int);
}

/// Builds the field element for a `u128` value, reducing modulo the field
/// modulus, as `BaseElement::new` does: every `u128` lies below twice the
/// modulus, so one conditional subtraction is the whole reduction.
pub fn field_new(value: u128) -> (r: u128)
    ensures
        r == reduce(value as int),
        is_canonical(r),
{
    if value < MODULUS {
        proof {
            lemma_small_mod(value as nat, MODULUS as nat);
        }
        value
    } else {
        proof {
            lemma_mod_sub_multiples_vanish(value as int, MODULUS as int);
            lemma_small_mod((value - MODULUS) as nat, MODULUS as nat);
        }
        value - MODULUS
    }
}

/// Field addition, computed as the field's own addition does.
pub fn field_add(a: u128, b: u128) -> (r: u128)
    requires
        is_canonical(a),
        is_canonical(b),
    ensures
        r == reduce(a + b),
        is_canonical(r),
{
    let z = MODULUS - b;
    if a < z {
        proof {
            lemma_small_mod((a + b) as nat, MODULUS as nat);
        }
        MODULUS - z + a
    } else {
        proof {
            lemma_mod_sub_multiples_vanish(a + b, MODULUS as int);
            lemma_small_mod((a + b - MODULUS) as nat, MODULUS as nat);
        }
        a - z
    }
}

/// Field subtraction, computed as the field's own subtraction does.
pub fn field_sub(a: u128, b: u128) -> (r: u128)
    requires
        is_canonical(a),
        is_canonical(b),
    ensures
        r == reduce(a - b),
        is_canonical(r),
{
    if a < b {
        proof {
            lemma_mod_add_multiples_vanish(a - b, MODULUS as int);
            lemma_small_mod((a - b + MODULUS) as nat, MODULUS as nat);
        }
        MODULUS - b + a
    } else {
        proof {
            lemma_small_mod((a - b) as nat, MODULUS as nat);
        }
        a - b
    }
}

/// Products of congruent factors are congruent.
proof fn lemma_mul_congruent(x1: int, x2: int, y1: int, y2: int, m: int)
    requires
        m > 0,
        x1 % m == x2 % m,
        y1 % m == y2 % m,
    ensures
        (x1 * y1) % m == (x2 * y2) % m,
{
    lemma_mul_mod_noop(x1, y1, m);
    lemma_mul_mod_noop(x2, y2, m);
}

/// Sums of congruent terms are congruent.
proof fn lemma_add_congruent(x1: int, x2: int, y1: int, y2: int, m: int)
    requires
        m > 0,
        x1 % m == x2 % m,
        y1 % m == y2 % m,
    ensures
        (x1 + y1) % m == (x2 + y2) % m,
{
    lemma_add_mod_noop(x1, y1, m);
    lemma_add_mod_noop(x2, y2, m);
}

/// One round of the double-and-add multiplication keeps `r + d * q` fixed
/// modulo `m`.
proof fn lemma_double_and_add_step(r: int, d: int, q1: int, bit: int, m: int)
    requires
        m > 0,
        bit == 0 || bit == 1,
    ensures
        ((r + bit * d) % m + ((d + d) % m) * q1) % m == (r + d * (2 * q1 + bit)) % m,
{
    let a = r + bit * d;
    let b = (d + d) * q1;
    lemma_mod_twice(a, m);
    lemma_mod_twice(d + d, m);
    lemma_mul_congruent((d + d) % m, d + d, q1, q1, m);
    lemma_add_congruent(a % m, a, ((d + d) % m) * q1, b, m);
    assert(a + b == r + d * (2 * q1 + bit)) by (nonlinear_arith)
        requires
            a == r + bit * d,
            b == (d + d) * q1,
    ;
}

/// Field multiplication: the canonical value of `a * b` modulo the field
/// modulus, computed by double-and-add over the bits of `b`.
pub fn field_mul(a: u128, b: u128) -> (r: u128)
    requires
        is_canonical(a),
        is_canonical(b),
    ensures
        r == reduce(a * b),
        is_canonical(r),
{
    let ghost m = MODULUS as int;
    let mut acc: u128 = 0;
    let mut addend: u128 = a;
    let mut rest: u128 = b;
    while rest > 0
        invariant
            m == MODULUS as int,
            is_canonical(acc),
            is_canonical(addend),
            (acc + addend * rest) % m == (a * b) % m,
        decreases rest,
    {
        let ghost q1: int = (rest / 2) as int;
        let bit: u128 = rest % 2;
        proof {
            assert(rest == 2 * q1 + bit);
        }
        let ghost old_acc = acc as int;
        let ghost old_addend = addend as int;
        if bit == 1 {
            acc = field_add(acc, addend);
        }
        addend = field_add(addend, addend);
        rest = rest / 2;
        proof {
            lemma_reduce_is_canonical(old_acc + old_addend);
            lemma_reduce_is_canonical(old_addend + old_addend);
            lemma_small_mod(old_acc as nat, m as nat);
            lemma_double_and_add_step(old_acc, old_addend, q1, bit as int, m);
        }
    }
    proof {
        lemma_small_mod(acc as nat, m as nat);
        lemma_reduce_is_canonical(a * b);
    }
    acc
}

/// One round of square-and-multiply keeps `r * b^p` fixed modulo `m`.
proof fn lemma_square_and_multiply_step(r: int, b: int, p1: nat, bit: nat, m: int)
    requires
        m > 0,
        bit == 0 || bit == 1,
    ensures
        (((r * pow(b, bit)) % m) * pow((b * b) % m, p1)) % m == (r * pow(b, 2 * p1 + bit)) % m,
{
    lemma_pow_mod_noop(b * b, p1, m);
    lemma_mod_twice(r * pow(b, bit), m);
    lemma_mul_congruent((r * pow(b, bit)) % m, r * pow(b, bit), pow((b * b) % m, p1), pow(b * b, p1), m);
    lemma_pow_adds(b, 2 * p1, bit);
    lemma_pow_multiplies(b, 2, p1);
    lemma_square_is_pow2(b);
    let x = pow(b, bit);
    let y = pow(b * b, p1);
    assert((r * x) * y == r * (y * x)) by (nonlinear_arith);
}

/// Raises a field element to an integer power by square-and-multiply, as
/// `FieldElement::exp` does; `0^0` is `1`.
pub fn field_exp(base: u128, power: u128) -> (r: u128)
    requires
        is_canonical(base),
    ensures
        r == reduce(pow(base as int, power as nat)),
        is_canonical(r),
{
    let ghost m = MODULUS as int;
    let mut acc: u128 = 1;
    let mut square: u128 = base;
    let mut rest: u128 = power;
    proof {
        lemma_pow1(base as int);
    }
    while rest > 0
        invariant
            m == MODULUS as int,
            is_canonical(acc),
            is_canonical(square),
            (acc * pow(square as int, rest as nat)) % m == pow(base as int, power as nat) % m,
        decreases rest,
    {
        let ghost p1 = (rest / 2) as nat;
        let bit: u128 = rest % 2;
        let ghost old_acc = acc as int;
        let ghost old_square = square as int;
        proof {
            assert(rest == 2 * p1 + bit);
            lemma_pow0(old_square);
            lemma_pow1(old_square);
            lemma_small_mod(old_acc as nat, m as nat);
        }
        if bit == 1 {
            acc = field_mul(acc, square);
        }
        square = field_mul(square, square);
        rest = rest / 2;
        proof {
            lemma_reduce_is_canonical(old_acc * old_square);
            lemma_reduce_is_canonical(old_square * old_square);
            lemma_square_and_multiply_step(old_acc, old_square, p1, bit as nat, m);
        }
    }
    proof {
        lemma_pow0(square as int);
        lemma_small_mod(acc as nat, m as nat);
        lemma_reduce_is_canonical(pow(base as int, power as nat));
    }
    acc
}

} // verus!
