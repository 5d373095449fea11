use spk_writer::kernel::write_to_spk;
use spk_writer::tables::converted;
use spk_writer::tables::rebased;
use spk_writer::tables::segment_table;

fn to_kilometers(meters: f64) -> f64 {
    meters / 1000.0
}

fn difference(a: f64, b: f64) -> f64 {
    a - b
}

/// Row `instant` of a series for `bodies` bodies: component `c` of body `b`
/// is `instant * (b + 1.5) * 1e7 + c * 321.25`.
fn sampled(instant: usize, body: usize, component: usize) -> f64 {
    instant as f64 * (body as f64 + 1.5) * 1e7 + component as f64 * 321.25
}

fn series(instants: usize, bodies: usize) -> Vec<Vec<f64>> {
    (0..instants)
        .map(|instant| (0..6 * bodies).map(|at| sampled(instant, at / 6, at % 6)).collect())
        .collect()
}

#[test]
fn conversion_is_applied_to_every_component() {
    assert_eq!(converted(&[1500.0, -250.0, 0.0], &to_kilometers), vec![1.5, -0.25, 0.0]);
    assert_eq!(converted(&[], &to_kilometers), Vec::<f64>::new());
    assert_eq!(converted(&[1, 2, 3], &|x: i32| 10 * x), vec![10, 20, 30]);
}

#[test]
fn rebasing_subtracts_component_by_component() {
    assert_eq!(rebased(&[5.0, 7.5, -1.0], &[1.0, 7.5, 2.0], &difference), vec![4.0, 0.0, -3.0]);
    assert_eq!(rebased(&[9, 8], &[1, 10], &|a: i32, b: i32| a - b), vec![8, -2]);
}

#[test]
fn tables_are_relative_to_a_sampled_observer() {
    let bodies = [399, 301, 10];
    let states = series(11, 3);
    let epochs: Vec<f64> = (0..11).map(|i| 60.0 * i as f64).collect();
    let kernel = write_to_spk(&bodies, &states, &epochs, 399, 0.5f32.to_bits()).unwrap();
    for (index, body) in [(0usize, 1usize), (1, 2)] {
        let table = segment_table(&kernel, index, &to_kilometers, &difference).unwrap();
        assert_eq!(table.len(), 36);
        for (kept, instant) in [0usize, 2, 4, 6, 8, 10].into_iter().enumerate() {
            for component in 0..6 {
                let expected = sampled(instant, body, component) / 1000.0
                    - sampled(instant, 0, component) / 1000.0;
                assert_eq!(table[6 * kept + component], expected);
            }
        }
    }
    assert!(segment_table(&kernel, 2, &to_kilometers, &difference).is_none());
    assert!(segment_table(&kernel, usize::MAX, &to_kilometers, &difference).is_none());
}

#[test]
fn tables_are_absolute_without_a_sampled_observer() {
    let bodies = [301, 10];
    let states = series(5, 2);
    let epochs = [0.0, 1.0, 2.0, 3.0, 4.0];
    let kernel = write_to_spk(&bodies, &states, &epochs, 399, 1.0f32.to_bits()).unwrap();
    for body in 0..2 {
        let table = segment_table(&kernel, body, &to_kilometers, &difference).unwrap();
        assert_eq!(table.len(), 30);
        for instant in 0..5 {
            for component in 0..6 {
                assert_eq!(
                    table[6 * instant + component],
                    sampled(instant, body, component) / 1000.0
                );
            }
        }
    }
}

#[test]
fn observer_listed_between_targets_is_subtracted_from_both() {
    let bodies = [10, 399, 301];
    let states = series(3, 3);
    let epochs = [0.0, 1.0, 2.0];
    let kernel = write_to_spk(&bodies, &states, &epochs, 399, 1.0f32.to_bits()).unwrap();
    let sun = segment_table(&kernel, 0, &to_kilometers, &difference).unwrap();
    let moon = segment_table(&kernel, 1, &to_kilometers, &difference).unwrap();
    for instant in 0..3 {
        for component in 0..6 {
            let observer = sampled(instant, 1, component) / 1000.0;
            assert_eq!(sun[6 * instant + component], sampled(instant, 0, component) / 1000.0 - observer);
            assert_eq!(moon[6 * instant + component], sampled(instant, 2, component) / 1000.0 - observer);
        }
    }
}

#[test]
fn kernel_without_segments_has_no_table() {
    let states = series(2, 1);
    let kernel = write_to_spk(&[399], &states, &[1.0, 2.0], 399, 1.0f32.to_bits()).unwrap();
    assert!(segment_table(&kernel, 0, &to_kilometers, &difference).is_none());
}
