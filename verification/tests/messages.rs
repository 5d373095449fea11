use spk_writer::error::SpiceError;
use spk_writer::text::decimal;

#[test]
fn decimal_text_of_identifiers() {
    for n in [0, 1, 9, 10, 11, 99, 100, 399, -1, -10, -125544, i32::MAX, i32::MIN, i32::MIN + 1] {
        assert_eq!(decimal(n), n.to_string());
    }
}

#[test]
fn invalid_fraction_message() {
    assert_eq!(
        SpiceError::InvalidFraction.message(),
        "Please supply a fraction_to_save value between 0 and 1"
    );
}

#[test]
fn not_found_message() {
    let error = SpiceError::NotFound { name: "VULCAN".to_string() };
    assert_eq!(error.message(), "Body 'VULCAN' not found in kernel pool");
}

#[test]
fn constant_unavailable_message() {
    let error = SpiceError::ConstantUnavailable {
        body: -42,
        diagnostic: "SPICE(KERNELVARNOTFOUND)".to_string(),
    };
    assert_eq!(
        error.message(),
        "Could not retrieve standard gravitational parameter for body -42: SPICE(KERNELVARNOTFOUND)"
    );
}

#[test]
fn state_unavailable_message() {
    let epoch = 86400.5f64;
    let error = SpiceError::StateUnavailable {
        body: 301,
        observer: 399,
        epoch: epoch.to_string(),
        diagnostic: "SPICE(SPKINSUFFDATA)".to_string(),
    };
    assert_eq!(
        error.message(),
        format!(
            "State for body {} relative to {} at {} could not be retrieved: {}",
            301, 399, epoch, "SPICE(SPKINSUFFDATA)"
        )
    );
}

#[test]
fn kernel_messages() {
    let diagnostic = "SPICE(FILEOPENFAILED)".to_string();
    assert_eq!(
        SpiceError::KernelOpen { diagnostic: diagnostic.clone() }.message(),
        "Failed to open SPK file for writing: SPICE(FILEOPENFAILED)"
    );
    assert_eq!(
        SpiceError::SegmentWrite { diagnostic: diagnostic.clone() }.message(),
        "Failed to write to SPK file: SPICE(FILEOPENFAILED)"
    );
    assert_eq!(
        SpiceError::KernelClose { diagnostic }.message(),
        "Failed to close SPK file after writing: SPICE(FILEOPENFAILED)"
    );
}

#[test]
fn duplicate_keeps_every_field() {
    let errors = [
        SpiceError::InvalidFraction,
        SpiceError::NotFound { name: "VULCAN".to_string() },
        SpiceError::ConstantUnavailable { body: 5, diagnostic: "a".to_string() },
        SpiceError::StateUnavailable {
            body: 1,
            observer: 2,
            epoch: "3.5".to_string(),
            diagnostic: "b".to_string(),
        },
        SpiceError::KernelOpen { diagnostic: "c".to_string() },
        SpiceError::SegmentWrite { diagnostic: "d".to_string() },
        SpiceError::KernelClose { diagnostic: "e".to_string() },
    ];
    for error in &errors {
        assert_eq!(error.duplicate().message(), error.message());
        assert_eq!(format!("{:?}", error.duplicate()), format!("{:?}", error));
    }
}
