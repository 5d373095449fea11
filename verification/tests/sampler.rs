use spk_writer::error::SpiceError;
use spk_writer::sampler::state_at_instant;
use spk_writer::sampler::states_at_instant;

fn unavailable(body: i32) -> SpiceError {
    SpiceError::StateUnavailable {
        body,
        observer: 399,
        epoch: "0".to_string(),
        diagnostic: "SPICE(SPKINSUFFDATA)".to_string(),
    }
}

#[test]
fn state_is_handed_on_unscaled() {
    let state = [384400.0, 0.0, -1.5, 0.0, 1.022, 0.0];
    let outcome = state_at_instant(301, 399, "0".to_string(), state, None);
    assert_eq!(outcome.unwrap(), state);
}

#[test]
fn flagged_failure_discards_the_state() {
    let epoch = 1.0e9f64;
    let outcome = state_at_instant(
        301,
        399,
        epoch.to_string(),
        [0.0; 6],
        Some("SPICE(SPKINSUFFDATA)".to_string()),
    );
    match outcome {
        Err(SpiceError::StateUnavailable { body, observer, epoch, diagnostic }) => {
            assert_eq!(body, 301);
            assert_eq!(observer, 399);
            assert_eq!(epoch, "1000000000");
            assert_eq!(diagnostic, "SPICE(SPKINSUFFDATA)");
        }
        other => panic!("unexpected outcome: {other:?}"),
    }
}

#[test]
fn states_are_laid_out_body_by_body() {
    let samples = [
        Ok([1.0, 2.0, 3.0, 4.0, 5.0, 6.0]),
        Ok([-1.0, -2.0, -3.0, -4.0, -5.0, -6.0]),
        Ok([0.5, 0.0, -0.0, 1e300, -1e-300, 7.0]),
    ];
    let buffer = states_at_instant(&samples).unwrap();
    assert_eq!(buffer.len(), 18);
    assert_eq!(
        buffer,
        vec![
            1.0, 2.0, 3.0, 4.0, 5.0, 6.0, -1.0, -2.0, -3.0, -4.0, -5.0, -6.0, 0.5, 0.0, -0.0, 1e300,
            -1e-300, 7.0
        ]
    );
}

#[test]
fn no_bodies_give_an_empty_buffer() {
    let samples: [Result<[f64; 6], SpiceError>; 0] = [];
    assert_eq!(states_at_instant(&samples).unwrap(), Vec::<f64>::new());
}

#[test]
fn first_failure_fails_the_buffer() {
    let samples = [Ok([1.0; 6]), Err(unavailable(301)), Ok([2.0; 6]), Err(unavailable(10))];
    match states_at_instant(&samples) {
        Err(SpiceError::StateUnavailable { body, .. }) => assert_eq!(body, 301),
        other => panic!("unexpected outcome: {other:?}"),
    }
}

#[test]
fn gravitational_parameter_is_handed_on() {
    let outcome = spk_writer::constant::mu(399, 3.986004418e14, None);
    assert_eq!(outcome.unwrap(), 3.986004418e14);
}

#[test]
fn flagged_failure_discards_the_parameter() {
    let outcome =
        spk_writer::constant::mu(-7, 0.0, Some("SPICE(KERNELVARNOTFOUND)".to_string()));
    match outcome {
        Err(SpiceError::ConstantUnavailable { body, diagnostic }) => {
            assert_eq!(body, -7);
            assert_eq!(diagnostic, "SPICE(KERNELVARNOTFOUND)");
        }
        other => panic!("unexpected outcome: {other:?}"),
    }
}
