use spk_writer::blocks::can_allocate;
use spk_writer::blocks::gather_block;
use spk_writer::blocks::join_blocks;
use spk_writer::error::SpiceError;
use spk_writer::kernel::find_body;
use spk_writer::kernel::inputs_fit;
use spk_writer::kernel::segment_label;
use spk_writer::kernel::write_to_spk;
use spk_writer::downsampling::downsample;
use spk_writer::downsampling::retained;

/// Row `instant` of a series for `bodies` bodies: component `c` of body `b`
/// is `1000 * instant + 10 * b + c`.
fn series(instants: usize, bodies: usize) -> Vec<Vec<f64>> {
    (0..instants)
        .map(|instant| {
            (0..6 * bodies)
                .map(|at| (1000 * instant + 10 * (at / 6) + at % 6) as f64)
                .collect()
        })
        .collect()
}

fn table(instants: &[usize], body: usize) -> Vec<f64> {
    let mut expected = Vec::new();
    for &instant in instants {
        for component in 0..6 {
            expected.push((1000 * instant + 10 * body + component) as f64);
        }
    }
    expected
}

#[test]
fn downsample_keeps_multiples_of_the_stride() {
    let items = [0, 1, 2, 3, 4, 5, 6, 7, 8, 9, 10];
    assert_eq!(downsample(&items, 1), items.to_vec());
    assert_eq!(downsample(&items, 2), vec![0, 2, 4, 6, 8, 10]);
    assert_eq!(downsample(&items, 3), vec![0, 3, 6, 9]);
    assert_eq!(downsample(&items, 10), vec![0, 10]);
    assert_eq!(downsample(&items, 11), vec![0]);
    assert_eq!(downsample(&items, usize::MAX), vec![0]);
    assert_eq!(downsample::<i32>(&[], 4), Vec::<i32>::new());
}

#[test]
fn retained_counts() {
    assert_eq!(retained(0, 3), 0);
    assert_eq!(retained(1, 3), 1);
    assert_eq!(retained(3, 3), 1);
    assert_eq!(retained(4, 3), 2);
    assert_eq!(retained(11, 2), 6);
    assert_eq!(retained(usize::MAX, 1), usize::MAX);
    assert_eq!(retained(usize::MAX, usize::MAX), 1);
}

#[test]
fn last_epoch_is_dropped_when_off_the_stride() {
    let epochs = [0.0, 1.0, 2.0, 3.0, 4.0, 5.0];
    assert_eq!(downsample(&epochs, 2), vec![0.0, 2.0, 4.0]);
}

#[test]
fn joining_lays_blocks_end_to_end() {
    let a = [1.5, 2.5];
    let b: [f64; 0] = [];
    let c = [3.5];
    let blocks: Vec<&[f64]> = vec![&a, &b, &c];
    assert_eq!(join_blocks(&blocks), vec![1.5, 2.5, 3.5]);
    let none: Vec<&[f64]> = Vec::new();
    assert_eq!(join_blocks(&none), Vec::<f64>::new());
}

#[test]
fn gathering_takes_one_body_at_the_retained_instants() {
    let states = series(5, 3);
    assert_eq!(gather_block(&states, 1, 0), table(&[0, 1, 2, 3, 4], 0));
    assert_eq!(gather_block(&states, 2, 1), table(&[0, 2, 4], 1));
    assert_eq!(gather_block(&states, 3, 2), table(&[0, 3], 2));
    assert_eq!(gather_block(&states, 7, 2), table(&[0], 2));
}

#[test]
fn labels_name_target_and_observer() {
    assert_eq!(segment_label(301, 399), "Position of 301 relative to 399");
    assert_eq!(segment_label(-125544, 0), "Position of -125544 relative to 0");
    assert_eq!(
        segment_label(i32::MIN, i32::MAX),
        format!("Position of {} relative to {}", i32::MIN, i32::MAX)
    );
}

#[test]
fn observer_is_found_at_its_first_position() {
    assert_eq!(find_body(&[399, 301, 10], 399), Some(0));
    assert_eq!(find_body(&[10, 399, 301, 399], 399), Some(1));
    assert_eq!(find_body(&[10, 301], 399), None);
    assert_eq!(find_body(&[], 399), None);
}

#[test]
fn earth_moon_sun_at_half_retention() {
    let bodies = [399, 301, 10];
    let states = series(11, 3);
    let epochs: Vec<f64> = (0..11).map(|i| 60.0 * i as f64).collect();
    let kernel = match write_to_spk(&bodies, &states, &epochs, 399, 0.5f32.to_bits()) {
        Ok(kernel) => kernel,
        Err(error) => panic!("{}", error.message()),
    };
    let kept = [0, 2, 4, 6, 8, 10];
    assert_eq!(*kernel.epochs(), vec![0.0, 120.0, 240.0, 360.0, 480.0, 600.0]);
    assert_eq!(*kernel.reference(), Some(table(&kept, 0)));
    assert_eq!(kernel.segments().len(), 2);
    let moon = &kernel.segments()[0];
    assert_eq!(moon.target, 301);
    assert_eq!(moon.observer, 399);
    assert_eq!(moon.label, "Position of 301 relative to 399");
    assert_eq!(moon.first_epoch, epochs[0]);
    assert_eq!(moon.last_epoch, epochs[10]);
    assert_eq!(moon.states, table(&kept, 1));
    let sun = &kernel.segments()[1];
    assert_eq!(sun.target, 10);
    assert_eq!(sun.observer, 399);
    assert_eq!(sun.label, "Position of 10 relative to 399");
    assert_eq!(sun.first_epoch, epochs[0]);
    assert_eq!(sun.last_epoch, epochs[10]);
    assert_eq!(sun.states, table(&kept, 2));
}

#[test]
fn unit_fraction_keeps_the_whole_timeline() {
    let bodies = [301, 10];
    let states = series(7, 2);
    let epochs: Vec<f64> = (0..7).map(|i| 0.25 * i as f64).collect();
    let kernel = write_to_spk(&bodies, &states, &epochs, 399, 1.0f32.to_bits()).unwrap();
    assert_eq!(*kernel.epochs(), epochs);
    assert_eq!(kernel.segments()[0].states, table(&[0, 1, 2, 3, 4, 5, 6], 0));
}

#[test]
fn absent_observer_gives_no_reference() {
    let bodies = [301, 10];
    let states = series(4, 2);
    let epochs = [0.0, 1.0, 2.0, 3.0];
    let kernel = write_to_spk(&bodies, &states, &epochs, 399, 0.4f32.to_bits()).unwrap();
    assert_eq!(*kernel.reference(), None);
    assert_eq!(*kernel.epochs(), vec![0.0, 2.0]);
    assert_eq!(kernel.segments().len(), 2);
    assert_eq!(kernel.segments()[0].target, 301);
    assert_eq!(kernel.segments()[0].states, table(&[0, 2], 0));
    assert_eq!(kernel.segments()[1].target, 10);
    assert_eq!(kernel.segments()[1].states, table(&[0, 2], 1));
    assert_eq!(kernel.segments()[1].last_epoch, 2.0);
}

#[test]
fn observer_in_the_middle_is_skipped() {
    let bodies = [10, 399, 301, 399];
    let states = series(3, 4);
    let epochs = [5.0, 6.0, 7.0];
    let kernel = write_to_spk(&bodies, &states, &epochs, 399, 1.0f32.to_bits()).unwrap();
    assert_eq!(*kernel.reference(), Some(table(&[0, 1, 2], 1)));
    assert_eq!(kernel.segments().len(), 2);
    assert_eq!(kernel.segments()[0].target, 10);
    assert_eq!(kernel.segments()[0].states, table(&[0, 1, 2], 0));
    assert_eq!(kernel.segments()[1].target, 301);
    assert_eq!(kernel.segments()[1].states, table(&[0, 1, 2], 2));
}

#[test]
fn no_bodies_give_no_segments() {
    let states: Vec<Vec<f64>> = vec![Vec::new(), Vec::new()];
    let kernel = write_to_spk(&[], &states, &[1.0, 2.0], 399, 1.0f32.to_bits()).unwrap();
    assert_eq!(*kernel.epochs(), vec![1.0, 2.0]);
    assert_eq!(*kernel.reference(), None);
    assert!(kernel.segments().is_empty());
}

#[test]
fn only_the_observer_gives_no_segments() {
    let states = series(2, 1);
    let kernel = write_to_spk(&[399], &states, &[1.0, 2.0], 399, 1.0f32.to_bits()).unwrap();
    assert_eq!(*kernel.reference(), Some(table(&[0, 1], 0)));
    assert!(kernel.segments().is_empty());
}

#[test]
fn small_fraction_keeps_only_the_first_instant() {
    let states = series(5, 1);
    let epochs = [1.0, 2.0, 3.0, 4.0, 5.0];
    let kernel = write_to_spk(&[301], &states, &epochs, 399, 1e-20f32.to_bits()).unwrap();
    assert_eq!(*kernel.epochs(), vec![1.0]);
    assert_eq!(kernel.segments()[0].first_epoch, 1.0);
    assert_eq!(kernel.segments()[0].last_epoch, 1.0);
    assert_eq!(kernel.segments()[0].states, table(&[0], 0));
}

#[test]
fn invalid_fraction_is_rejected_whatever_the_rest() {
    let states = series(3, 1);
    let epochs = [1.0, 2.0, 3.0];
    for fraction in [0.0f32, -0.0, -1.0, 1.5, f32::NAN, f32::INFINITY] {
        let outcome = write_to_spk(&[301], &states, &epochs, 399, fraction.to_bits());
        assert!(matches!(outcome, Err(SpiceError::InvalidFraction)));
    }
    let nothing: Vec<Vec<f64>> = Vec::new();
    let outcome = write_to_spk(&[301, 10], &nothing, &[], 399, 2.0f32.to_bits());
    assert!(matches!(outcome, Err(SpiceError::InvalidFraction)));
}

#[test]
fn planning_twice_gives_the_same_kernel() {
    let bodies = [399, 301, 10];
    let states = series(9, 3);
    let epochs: Vec<f64> = (0..9).map(|i| i as f64).collect();
    let first = write_to_spk(&bodies, &states, &epochs, 399, 0.3f32.to_bits()).unwrap();
    let second = write_to_spk(&bodies, &states, &epochs, 399, 0.3f32.to_bits()).unwrap();
    assert_eq!(first.epochs(), second.epochs());
    assert_eq!(first.reference(), second.reference());
    assert_eq!(first.segments().len(), second.segments().len());
    for (a, b) in first.segments().iter().zip(second.segments().iter()) {
        assert_eq!(a.target, b.target);
        assert_eq!(a.observer, b.observer);
        assert_eq!(a.label, b.label);
        assert_eq!(a.first_epoch, b.first_epoch);
        assert_eq!(a.last_epoch, b.last_epoch);
        assert_eq!(a.states, b.states);
    }
}

#[test]
fn inputs_must_fit_together() {
    let states = series(4, 2);
    let epochs = [0.0, 1.0, 2.0, 3.0];
    assert!(inputs_fit(&[301, 10], &states, &epochs, 1));
    assert!(inputs_fit(&[301, 10], &states, &epochs, usize::MAX));
    // One epoch too few, no epoch at all, one body too many, one row too short.
    assert!(!inputs_fit(&[301, 10], &states, &epochs[..3], 1));
    assert!(!inputs_fit::<f64>(&[301, 10], &[], &[], 1));
    assert!(!inputs_fit(&[301, 10, 399], &states, &epochs, 1));
    let mut ragged = series(4, 2);
    ragged[2].pop();
    assert!(!inputs_fit(&[301, 10], &ragged, &epochs, 1));
    let empty_rows: Vec<Vec<f64>> = vec![Vec::new(); 4];
    assert!(inputs_fit(&[], &empty_rows, &epochs, 2));
}

#[test]
fn allocation_limits() {
    let limit = isize::MAX as usize;
    assert!(can_allocate::<f64>(0));
    assert!(can_allocate::<f64>(limit / 8));
    assert!(!can_allocate::<f64>(limit / 8 + 1));
    assert!(can_allocate::<u8>(limit));
    assert!(!can_allocate::<u8>(limit + 1));
    assert!(can_allocate::<()>(limit));
    assert!(!can_allocate::<()>(limit + 1));
}
