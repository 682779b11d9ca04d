use nbody_ring::err::StarErr;
use nbody_ring::err::ParseError;

#[test]
fn star_err_from_str_keeps_the_message() {
    let e = StarErr::from("Empty initial state");
    assert_eq!(e.message(), "Empty initial state");
}

#[test]
fn star_err_from_string_keeps_the_message() {
    let e = StarErr::from(String::from("ring broke"));
    assert_eq!(e.message(), "ring broke");
}

#[test]
fn star_err_text_has_the_prefix() {
    let e = StarErr::from("Empty initial state");
    assert_eq!(e.to_string(), "Runtime error: Empty initial state");
    assert_eq!(StarErr::from("").to_string(), "Runtime error: ");
}

#[test]
fn star_err_can_be_debug_printed() {
    let e = StarErr::from("x");
    assert!(format!("{:?}", e).contains("StarErr"));
}

#[test]
fn parse_error_messages() {
    assert_eq!(ParseError::TooFewArguments.message(), "Cannot parse input; Too few arguments");
    assert_eq!(ParseError::CannotParse.message(), "Cannot parse");
    assert_eq!(ParseError::BadVector.message(), "Too few arguments for ve3");
}
