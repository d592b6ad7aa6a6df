use stark_verifier::air::{
    work_step, PublicInputs, WorkAir, NUM_ASSERTIONS, STEP_CONSTANT, STEP_POWER,
    TRACE_WIDTH, TRANSITION_DEGREE,
};
use stark_verifier::field::MODULUS;

#[test]
fn air_shape() {
    assert_eq!(TRACE_WIDTH, 1);
    assert_eq!(TRANSITION_DEGREE, 3);
    assert_eq!(NUM_ASSERTIONS, 2);
    assert_eq!(STEP_POWER, 3);
    assert_eq!(STEP_CONSTANT, 42);
}

#[test]
fn one_step_cubes_and_adds_42() {
    assert_eq!(work_step(3), 69);
    assert_eq!(work_step(0), 42);
    assert_eq!(work_step(69), 328551);
    // (-1)^3 + 42 = 41
    assert_eq!(work_step(MODULUS - 1), 41);
}

#[test]
fn transition_vanishes_exactly_on_a_step() {
    let air = WorkAir::new(1, 8, PublicInputs { start: 3, result: 7 });
    assert_eq!(air.evaluate_transition(3, 69), 0);
    assert_eq!(air.evaluate_transition(3, 70), 1);
    assert_eq!(air.evaluate_transition(3, 68), MODULUS - 1);
}

#[test]
fn assertions_pin_first_and_last_row() {
    let air = WorkAir::new(1, 1024, PublicInputs { start: 3, result: 99 });
    assert_eq!(air.trace_length(), 1024);
    let assertions = air.get_assertions();
    assert_eq!(assertions.len(), 2);
    assert_eq!((assertions[0].column, assertions[0].step, assertions[0].value), (0, 0, 3));
    assert_eq!((assertions[1].column, assertions[1].step, assertions[1].value), (0, 1023, 99));
}

#[test]
fn public_inputs_as_elements() {
    let inputs = PublicInputs { start: 5, result: 6 };
    assert_eq!(inputs.to_elements(), vec![5, 6]);
}
