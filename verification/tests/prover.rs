use stark_verifier::air::{PublicInputs, WorkAir};
use stark_verifier::prover::{build_do_work_trace, get_pub_inputs};

#[test]
fn trace_applies_the_step_row_by_row() {
    let trace = build_do_work_trace(3, 8);
    assert_eq!(trace.len(), 8);
    assert_eq!(
        trace[..5].to_vec(),
        vec![
            3,
            69,
            328551,
            35465687262668193,
            237280320818395402166933071684267763523
        ]
    );
}

#[test]
fn public_inputs_are_first_and_last_row() {
    let trace = build_do_work_trace(3, 8);
    let inputs = get_pub_inputs(&trace);
    assert_eq!(inputs.start, 3);
    assert_eq!(inputs.result, trace[7]);
    assert_eq!(get_pub_inputs(&vec![5]).result, 5);
}

#[test]
fn prover_trace_satisfies_the_air() {
    let n = 64;
    let trace = build_do_work_trace(3, n);
    let inputs = get_pub_inputs(&trace);
    let air = WorkAir::new(1, n, PublicInputs { start: inputs.start, result: inputs.result });
    for i in 0..n - 1 {
        assert_eq!(air.evaluate_transition(trace[i], trace[i + 1]), 0);
    }
    for a in air.get_assertions() {
        assert_eq!(a.column, 0);
        assert_eq!(trace[a.step], a.value);
    }
}
