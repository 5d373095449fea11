use spk_writer::error::SpiceError;
use spk_writer::resolver::engine_text;
use spk_writer::resolver::resolve;
use spk_writer::resolver::Lookup;

fn known(name: &str, id: i32) -> Lookup {
    Lookup { name: name.to_string(), id, found: true }
}

fn unknown(name: &str) -> Lookup {
    Lookup { name: name.to_string(), id: 0, found: false }
}

#[test]
fn known_names_resolve_in_order() {
    let lookups = [known("EARTH", 399), known("MOON", 301), known("10", 10)];
    assert_eq!(resolve(&lookups).unwrap(), vec![399, 301, 10]);
}

#[test]
fn empty_batch_resolves_to_nothing() {
    assert_eq!(resolve(&[]).unwrap(), Vec::<i32>::new());
}

#[test]
fn one_unknown_name_fails_the_batch() {
    let lookups = [known("EARTH", 399), unknown("VULCAN"), known("MOON", 301), known("SUN", 10)];
    match resolve(&lookups) {
        Err(SpiceError::NotFound { name }) => assert_eq!(name, "VULCAN"),
        other => panic!("unexpected outcome: {other:?}"),
    }
}

#[test]
fn unknown_name_at_either_end_fails_the_batch() {
    let first = [unknown("VULCAN"), known("MOON", 301)];
    assert!(matches!(resolve(&first), Err(SpiceError::NotFound { name }) if name == "VULCAN"));
    let last = [known("MOON", 301), unknown("NIBIRU")];
    assert!(matches!(resolve(&last), Err(SpiceError::NotFound { name }) if name == "NIBIRU"));
}

#[test]
fn first_unknown_name_is_reported() {
    let lookups = [known("EARTH", 399), unknown("VULCAN"), unknown("NIBIRU")];
    assert!(matches!(resolve(&lookups), Err(SpiceError::NotFound { name }) if name == "VULCAN"));
}

#[test]
fn identifier_of_an_unknown_name_is_ignored() {
    let lookups = [Lookup { name: "X".to_string(), id: 42, found: false }];
    assert!(matches!(resolve(&lookups), Err(SpiceError::NotFound { name }) if name == "X"));
}

#[test]
fn engine_text_is_not_empty_and_has_no_nul() {
    assert!(engine_text("EARTH"));
    assert!(engine_text("399"));
    assert!(engine_text("Ør 7"));
    assert!(!engine_text(""));
    assert!(!engine_text("EAR\0TH"));
    assert!(!engine_text("\0"));
}
