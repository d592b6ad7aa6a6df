//! The prover side of the example computation: the execution trace of
//! `x -> x^3 + 42` and the public inputs read off it. The trace must match
//! the AIR in `air` exactly; `lemma_work_trace_satisfies_air` states that it
//! does.

use crate::air::{
    lemma_residual_zero, lemma_work_step_cubes, transition_residual_spec,
    work_assertions_spec, work_step, work_step_spec, PublicInputs,
};
use crate::field::{is_canonical, lemma_reduce_is_canonical, MODULUS};
use vstd::arithmetic::power::pow;
use vstd::prelude::*;

verus! {

/// The `i`-th value of the trace that starts at `start`: `start` after
/// `i` steps of `x -> x^3 + 42`.
pub open spec fn work_trace_spec(start: u128, i: nat) -> u128
    decreases i,
{
    if i == 0 {
        start
    } else {
        work_step_spec(work_trace_spec(start, (i - 1) as nat))
    }
}

/// Every value of a trace that starts at a field element is a field element.
pub proof fn lemma_work_trace_canonical(start: u128, i: nat)
    requires
        is_canonical(start),
    ensures
        is_canonical(work_trace_spec(start, i)),
    decreases i,
{
    if i > 0 {
        lemma_reduce_is_canonical(pow(work_trace_spec(start, (i - 1) as nat) as int, 3) + 42);
    }
}

/// A power of two.
pub open spec fn is_power_of_two(n: nat) -> bool
    decreases n,
{
    if n == 1 {
        true
    } else if n < 2 || n % 2 != 0 {
        false
    } else {
        is_power_of_two(n / 2)
    }
}

/// The trace lengths that a trace table accepts: powers of two from 8 up to
/// `2^40`, the largest power-of-two subgroup of the field.
pub open spec fn valid_trace_length(n: nat) -> bool {
    8 <= n <= 0x100_0000_0000 && is_power_of_two(n)
}

/// Builds the single trace column of `n` rows for the computation that
/// starts at `start`: row 0 holds `start`, and row `i` holds `start` after
/// `i` steps of `x -> x^3 + 42`, so the last row is `n - 1` steps on.
pub fn build_do_work_trace(start: u128, n: usize) -> (trace: Vec<u128>)
    requires
        is_canonical(start),
        valid_trace_length(n as nat),
    ensures
        trace@.len() == n,
        forall|i: int| 0 <= i < n ==> #[trigger] trace@[i] == work_trace_spec(start, i as nat),
        trace@[0] == start,
        forall|i: int|
            0 <= i < n - 1 ==> #[trigger] trace@[i + 1] as int == (trace@[i] * trace@[i] * trace@[i]
                + 42) % (MODULUS as int),
{
    let mut trace: Vec<u128> = Vec::new();
    let mut state = start;
    trace.push(state);
    while trace.len() < n
        invariant
            1 <= trace@.len() <= n,
            state == work_trace_spec(start, (trace@.len() - 1) as nat),
            is_canonical(start),
            forall|i: int| 0 <= i < trace@.len() ==> #[trigger] trace@[i] == work_trace_spec(start, i as nat),
        decreases n - trace@.len(),
    {
        proof {
            lemma_work_trace_canonical(start, (trace@.len() - 1) as nat);
        }
        state = work_step(state);
        trace.push(state);
    }
    proof {
        assert forall|i: int| 0 <= i < n - 1 implies #[trigger] trace@[i + 1] as int == (trace@[i]
            * trace@[i] * trace@[i] + 42) % (MODULUS as int) by {
            lemma_work_trace_steps(start, i as nat);
        }
    }
    trace
}

/// The trace starts at `start`, and each value is the previous one cubed
/// plus 42, modulo the field modulus.
pub proof fn lemma_work_trace_steps(start: u128, i: nat)
    ensures
        work_trace_spec(start, 0) == start,
        work_trace_spec(start, i + 1) as int == (work_trace_spec(start, i) * work_trace_spec(start, i)
            * work_trace_spec(start, i) + 42) % (MODULUS as int),
{
    lemma_work_step_cubes(work_trace_spec(start, i));
}

/// The public inputs of a trace: its first and its last value.
pub fn get_pub_inputs(trace: &Vec<u128>) -> (inputs: PublicInputs)
    requires
        trace@.len() >= 1,
    ensures
        inputs.start == trace@[0],
        inputs.result == trace@[trace@.len() - 1],
{
    let last_step = trace.len() - 1;
    PublicInputs { start: trace[0], result: trace[last_step] }
}

/// The trace that the prover builds satisfies the AIR: the transition
/// constraint vanishes on every pair of consecutive rows, and each boundary
/// assertion for the public inputs read off the trace holds at its row.
pub proof fn lemma_work_trace_satisfies_air(start: u128, n: nat)
    requires
        is_canonical(start),
        n >= 1,
        n <= usize::MAX,
    ensures
        forall|i: nat|
            #![trigger work_trace_spec(start, i)]
            i + 1 < n ==> transition_residual_spec(work_trace_spec(start, i), work_trace_spec(start, i + 1)) == 0,
        forall|k: int|
            0 <= k < work_assertions_spec(n, work_trace_spec(start, 0), work_trace_spec(start, (n - 1) as nat)).len() ==> {
                let a = #[trigger] work_assertions_spec(n, work_trace_spec(start, 0), work_trace_spec(start, (n - 1) as nat))[k];
                a.column == 0 && a.step < n && work_trace_spec(start, a.step as nat) == a.value
            },
{
    assert forall|i: nat|
        #![trigger work_trace_spec(start, i)]
        i + 1 < n implies transition_residual_spec(work_trace_spec(start, i), work_trace_spec(start, i + 1)) == 0 by {
        lemma_work_trace_canonical(start, i + 1);
        lemma_residual_zero(work_trace_spec(start, i), work_trace_spec(start, i + 1));
    }
}

} // verus!
