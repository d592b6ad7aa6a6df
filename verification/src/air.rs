//! The algebraic intermediate representation (AIR) of the computation this
//! verifier accepts proofs for: starting from a field element `start`, apply
//! `x -> x^3 + 42` once per trace step, and claim that the last trace value
//! equals `result`. The trace has a single column, one transition
//! constraint of degree 3, and two boundary assertions.

use crate::field::{
    field_add, field_exp, field_sub, is_canonical, lemma_reduce_is_canonical, reduce, MODULUS,
};
use vstd::arithmetic::div_mod::*;
use vstd::arithmetic::power::*;
use vstd::prelude::*;

verus! {

/// Number of columns of the execution trace.
pub const TRACE_WIDTH: usize = 1;

/// Degree of the single transition constraint (the cubing step).
pub const TRANSITION_DEGREE: usize = 3;

/// Number of boundary assertions: the first and the last trace value.
pub const NUM_ASSERTIONS: usize = 2;

/// The exponent applied at each step of the computation.
pub const STEP_POWER: u128 = 3;

/// The constant added at each step of the computation.
pub const STEP_CONSTANT: u128 = 42;

/// One step of the computation: `x -> x^3 + 42` in the field.
pub open spec fn work_step_spec(x: u128) -> u128 {
    reduce(pow(x as int, 3) + 42)
}

/// What the transition constraint evaluates to on two consecutive trace
/// values: `next - (current^3 + 42)` in the field.
pub open spec fn transition_residual_spec(current: u128, next: u128) -> u128 {
    reduce(next - work_step_spec(current))
}

/// Applies one step of the computation to a field element.
pub fn work_step(x: u128) -> (r: u128)
    requires
        is_canonical(x),
    ensures
        r == work_step_spec(x),
        is_canonical(r),
        r as int == (x * x * x + 42) % (MODULUS as int),
{
    proof {
        lemma_work_step_cubes(x);
    }
    let cube = field_exp(x, STEP_POWER);
    let r = field_add(cube, STEP_CONSTANT);
    proof {
        let m = MODULUS as int;
        let p = pow(x as int, 3);
        lemma_reduce_is_canonical(p);
        lemma_small_mod(42nat, m as nat);
        lemma_add_mod_noop(p, 42, m);
        lemma_mod_twice(p, m);
    }
    r
}

/// The public inputs of a proof: the claimed first and last trace values.
#[derive(Clone, Copy)]
pub struct PublicInputs {
    pub start: u128,
    pub result: u128,
}

impl PublicInputs {
    /// The public inputs as a list of field elements, `start` first.
    pub fn to_elements(&self) -> (r: Vec<u128>)
        ensures
            r@ == seq![self.start, self.result],
    {
        vec![self.start, self.result]
    }
}

/// An assertion that the trace holds `value` in `column` at `step`.
pub struct BoundaryAssertion {
    pub column: usize,
    pub step: usize,
    pub value: u128,
}

/// The boundary assertions of the AIR for a trace of the given length.
pub open spec fn work_assertions_spec(trace_length: nat, start: u128, result: u128) -> Seq<BoundaryAssertion> {
    seq![
        BoundaryAssertion { column: 0, step: 0, value: start },
        BoundaryAssertion { column: 0, step: (trace_length - 1) as usize, value: result },
    ]
}

/// The AIR for a trace of a given length and given public inputs.
pub struct WorkAir {
    trace_length: usize,
    start: u128,
    result: u128,
}

impl WorkAir {
    #[verifier::type_invariant]
    spec fn wf(self) -> bool {
        self.trace_length >= 1
    }

    /// The length of the trace the AIR describes.
    pub closed spec fn spec_trace_length(&self) -> nat {
        self.trace_length as nat
    }

    /// The claimed first trace value.
    pub closed spec fn spec_start(&self) -> u128 {
        self.start
    }

    /// The claimed last trace value.
    pub closed spec fn spec_result(&self) -> u128 {
        self.result
    }

    /// Builds the AIR for a trace of `trace_width` columns and
    /// `trace_length` rows; the trace must have exactly one column.
    pub fn new(trace_width: usize, trace_length: usize, pub_inputs: PublicInputs) -> (air: WorkAir)
        requires
            trace_width == TRACE_WIDTH,
            trace_length >= 1,
        ensures
            air.spec_trace_length() == trace_length,
            air.spec_start() == pub_inputs.start,
            air.spec_result() == pub_inputs.result,
    {
        WorkAir { trace_length, start: pub_inputs.start, result: pub_inputs.result }
    }

    /// The length of the trace the AIR describes.
    pub fn trace_length(&self) -> (n: usize)
        ensures
            n == self.spec_trace_length(),
            n >= 1,
    {
        proof {
            use_type_invariant(self);
        }
        self.trace_length
    }

    /// The transition constraint evaluated on two consecutive trace values:
    /// zero exactly when `next` is `current^3 + 42`.
    pub fn evaluate_transition(&self, current: u128, next: u128) -> (r: u128)
        requires
            is_canonical(current),
            is_canonical(next),
        ensures
            r == transition_residual_spec(current, next),
            is_canonical(r),
            r == 0 <==> next == work_step_spec(current),
            r == 0 <==> next as int == (current * current * current + 42) % (MODULUS as int),
            r as int == (next - (current * current * current + 42)) % (MODULUS as int),
    {
        proof {
            lemma_work_step_cubes(current);
            lemma_residual_is_difference(current, next);
        }
        let step = work_step(current);
        let r = field_sub(next, step);
        proof {
            lemma_residual_zero(current, next);
        }
        r
    }

    /// The boundary assertions: the trace starts at `start` and its last
    /// value is `result`, both in column 0.
    pub fn get_assertions(&self) -> (r: Vec<BoundaryAssertion>)
        ensures
            r@ == work_assertions_spec(self.spec_trace_length(), self.spec_start(), self.spec_result()),
            r@.len() == 2,
            r@[0].column == 0 && r@[0].step == 0 && r@[0].value == self.spec_start(),
            r@[1].column == 0 && r@[1].step == self.spec_trace_length() - 1 && r@[1].value
                == self.spec_result(),
    {
        proof {
            use_type_invariant(self);
        }
        let last_step = self.trace_length - 1;
        let r = vec![
            BoundaryAssertion { column: 0, step: 0, value: self.start },
            BoundaryAssertion { column: 0, step: last_step, value: self.result },
        ];
        assert(r@ =~= work_assertions_spec(self.spec_trace_length(), self.spec_start(), self.spec_result()));
        r
    }
}

/// One step of the computation cubes its input and adds 42, modulo the
/// field modulus.
pub proof fn lemma_work_step_cubes(x: u128)
    ensures
        work_step_spec(x) as int == (x * x * x + 42) % (MODULUS as int),
        work_step_spec(x) as int == (pow(x as int, 3) + 42) % (MODULUS as int),
{
    let m = MODULUS as int;
    lemma_pow1(x as int);
    lemma_square_is_pow2(x as int);
    lemma_pow_adds(x as int, 1, 2);
    assert(x * (x * x) == x * x * x) by (nonlinear_arith);
    lemma_reduce_is_canonical(pow(x as int, 3) + 42);
}

/// The residual is `next - (current^3 + 42)` modulo the field modulus.
pub proof fn lemma_residual_is_difference(current: u128, next: u128)
    ensures
        transition_residual_spec(current, next) as int == (next - (current * current * current
            + 42)) % (MODULUS as int),
{
    let m = MODULUS as int;
    let c3 = current * current * current + 42;
    lemma_work_step_cubes(current);
    lemma_reduce_is_canonical(next - work_step_spec(current));
    lemma_sub_mod_noop(next as int, c3, m);
    lemma_sub_mod_noop(next as int, work_step_spec(current) as int, m);
    lemma_mod_twice(c3, m);
}

/// The boundary assertions of a trace of any length pin the first row to
/// `start` and the last row to `result`, both in column 0, and there are
/// no others.
pub proof fn lemma_assertions_pin_first_and_last_row(trace_length: nat, start: u128, result: u128)
    requires
        1 <= trace_length <= usize::MAX,
    ensures
        work_assertions_spec(trace_length, start, result).len() == 2,
        work_assertions_spec(trace_length, start, result)[0] == (BoundaryAssertion {
            column: 0,
            step: 0,
            value: start,
        }),
        work_assertions_spec(trace_length, start, result)[1].column == 0,
        work_assertions_spec(trace_length, start, result)[1].step as int == trace_length - 1,
        work_assertions_spec(trace_length, start, result)[1].value == result,
{
}

/// The residual vanishes exactly when `next` is one step after `current`.
pub proof fn lemma_residual_zero(current: u128, next: u128)
    requires
        is_canonical(next),
    ensures
        transition_residual_spec(current, next) == 0 <==> next == work_step_spec(current),
{
    let m = MODULUS as int;
    let s = work_step_spec(current);
    lemma_reduce_is_canonical(pow(current as int, 3) + 42);
    let d = next - s;
    if d >= 0 {
        lemma_small_mod(d as nat, m as nat);
    } else {
        lemma_mod_add_multiples_vanish(d, m);
        lemma_small_mod((d + m) as nat, m as nat);
    }
}

} // verus!
