use enigma::text::{postprocess_output, preprocess_input};

#[test]
fn test_preprocess_postprocess_roundtrip() {
    let input = "A1B2C3";
    let processed = preprocess_input(input);
    let output = postprocess_output(&processed);
    assert_eq!(output, "A1B2C3");
}

#[test]
fn preprocess_encodes_digits_as_letter_escapes() {
    assert_eq!(preprocess_input("0"), "XZ");
    assert_eq!(preprocess_input("9"), "XQ");
    assert_eq!(preprocess_input("abc"), "ABC");
    assert_eq!(preprocess_input("A1"), "AXY");
}

#[test]
fn postprocess_recovers_digits_and_keeps_other_escapes() {
    assert_eq!(postprocess_output("XZ"), "0");
    assert_eq!(postprocess_output("XY"), "1");
    // An escape outside the digit range stays literal.
    assert_eq!(postprocess_output("XA"), "XA");
    // A trailing escape character is dropped.
    assert_eq!(postprocess_output("ABX"), "AB");
}
