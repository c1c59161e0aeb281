use enigma::letters::machine::{
    create_plugboard, create_reflector, create_rotors, generate_notches, EnigmaMachine,
};

// Helper function to create a test Enigma machine
fn create_test_enigma() -> EnigmaMachine {
    EnigmaMachine::new_from_params(
        12345,                        // seed
        3,                            // 3 rotors
        "20231001",                   // fixed date
        vec![('A', 'B'), ('C', 'D')], // plugboard pairs
    )
    .unwrap()
}

#[test]
fn test_new_from_params() {
    // Test valid creation
    let enigma = EnigmaMachine::new_from_params(12345, 3, "20231001", vec![('A', 'B'), ('C', 'D')]);
    assert!(enigma.is_ok());

    // Test invalid number of rotors
    assert_eq!(
        EnigmaMachine::new_from_params(12345, 0, "20231001", vec![]),
        Err("Invalid number of rotors. Expected a value between 1 and 5.")
    );
    assert_eq!(
        EnigmaMachine::new_from_params(12345, 6, "20231001", vec![]),
        Err("Invalid number of rotors. Expected a value between 1 and 5.")
    );

    // Test invalid plugboard pairs
    assert_eq!(
        EnigmaMachine::new_from_params(12345, 3, "20231001", vec![('A', 'a')]),
        Err("Invalid character in plugboard pairs: Must be ASCII uppercase letters")
    );
}

#[test]
fn test_encrypt_basic() {
    // A simple, predictable configuration
    let enigma = EnigmaMachine::new_from_params(
        0, // fixed seed
        3,
        "20230101",                   // fixed date
        vec![('A', 'B'), ('C', 'D')], // only these substitutions
    )
    .unwrap();

    // Test the plugboard in isolation
    assert_eq!(enigma.plugboard.swap('A').unwrap(), 'B');
    assert_eq!(enigma.plugboard.swap('B').unwrap(), 'A');
    assert_eq!(enigma.plugboard.swap('C').unwrap(), 'D');
    assert_eq!(enigma.plugboard.swap('X').unwrap(), 'X'); // No mapping
}

#[test]
fn test_encrypt_invalid_chars() {
    let enigma = create_test_enigma();

    // Test invalid characters
    assert_eq!(
        enigma.encrypt("a"),
        Err("Invalid character: Must be an ASCII uppercase letter")
    );
    assert_eq!(
        enigma.encrypt("1"),
        Err("Invalid character: Must be an ASCII uppercase letter")
    );
    assert_eq!(
        enigma.encrypt(" "),
        Err("Invalid character: Must be an ASCII uppercase letter")
    );
}

#[test]
fn test_format_dashed() {
    let enigma = create_test_enigma();

    assert_eq!(enigma.format_dashed("ABCDEFGH"), "ABCD-EFGH");
    assert_eq!(enigma.format_dashed("ABCDEF"), "ABCD-EF");
    assert_eq!(enigma.format_dashed("ABC"), "ABC");
    assert_eq!(enigma.format_dashed("ABCDEFGHIJKL"), "ABCD-EFGH-IJKL");
}

#[test]
fn test_format_continuous() {
    let enigma = create_test_enigma();

    assert_eq!(enigma.format_continuous("ABCD-EFGH"), "ABCDEFGH");
    assert_eq!(enigma.format_continuous("AB-CD-EF"), "ABCDEF");
    assert_eq!(enigma.format_continuous("ABC"), "ABC");
}

#[test]
fn test_encrypt_message() {
    let mut enigma = create_test_enigma();

    // Test without dashes (should add formatting)
    let result = enigma.encrypt_message("HELLO").unwrap();
    assert_eq!(result.len(), 5 + 1); // 5 letters + 1 dash (if grouped in 4)

    // Test with dashes (should remove formatting)
    let result = enigma.encrypt_message("HELLO-WORLD").unwrap();
    assert!(result.chars().all(|c| c != '-'));
}

#[test]
fn test_step_rotors() {
    let mut enigma = create_test_enigma();

    // Controlled configuration
    enigma.rotors[0].notch = 'B'; // Notch at position 1
    enigma.rotors[0].position = 0; // 'A'
    enigma.rotors[1].position = 0; // 'A'

    // First step - only the first rotor advances
    enigma.step_rotors();
    assert_eq!(enigma.rotors[0].position, 1); // 'B'
    assert_eq!(enigma.rotors[1].position, 1); // Must stay put

    // Second step - the first rotor is about to pass 'B' (notch)
    enigma.step_rotors();
    assert_eq!(enigma.rotors[0].position, 2); // 'C'
    assert_eq!(enigma.rotors[1].position, 1); // Advanced because the first signalled
}

#[test]
fn test_generate_notches() {
    let notches = generate_notches(12345, 3, "20231001");
    assert_eq!(notches.len(), 3);
    assert!(notches.iter().all(|c| c.is_ascii_uppercase()));
    assert_eq!(
        notches.iter().collect::<std::collections::HashSet<_>>().len(),
        3
    ); // All unique
}

#[test]
fn test_create_components() {
    // Test rotor creation
    let rotors = create_rotors(3, 12345, "20231001").unwrap();
    assert_eq!(rotors.len(), 3);

    // Test plugboard creation
    let plugboard = create_plugboard(12345, "20231001", vec![('A', 'B'), ('C', 'D')]).unwrap();
    assert!(plugboard.swap('A').is_ok()); // Should work with any char

    // Test reflector creation
    let reflector = create_reflector(12345, "20231001").unwrap();
    assert!(reflector.reflect('A').is_ok());
}

#[test]
fn test_encrypt_roundtrip() {
    let mut enigma1 =
        EnigmaMachine::new_from_params(12345, 3, "20231001", vec![('A', 'B'), ('C', 'D')]).unwrap();

    let plaintext = "TESTMESSAGE";
    let encrypted = enigma1.encrypt_message(plaintext).unwrap();

    // Reset rotors to initial positions
    let mut enigma2 =
        EnigmaMachine::new_from_params(12345, 3, "20231001", vec![('A', 'B'), ('C', 'D')]).unwrap();

    let decrypted = enigma2.encrypt_message(&encrypted).unwrap();
    assert_eq!(decrypted, plaintext);
}

#[test]
fn test_set_position_before_notch() {
    let mut enigma = create_test_enigma();

    // Explicit configuration:
    // - First rotor: position 0 ('A'), notch at 'B' (position 1)
    // - Second rotor: position 0 ('A'), notch at 'C' (position 2)
    enigma.rotors[0].position = 0;
    enigma.rotors[0].notch = 'B';
    enigma.rotors[1].position = 0;
    enigma.rotors[1].notch = 'C';

    // First step_rotors:
    // - Rotor 0 advances from 'A'(0) to 'B'(1) and signals the notch
    // - Rotor 1 should advance because rotor 0 signalled
    enigma.step_rotors();

    assert_eq!(enigma.rotors[0].position, 1); // 'B'
    assert_eq!(enigma.rotors[1].position, 1); // 'B' (advanced because rotor 0 signalled)
}

#[test]
fn invalid_date_is_rejected_by_builders() {
    // A date that does not parse as YYYYMMDD fails machine building.
    assert!(EnigmaMachine::new_from_params(12345, 3, "not-a-date", vec![]).is_err());
    // Month 13 is not a calendar date.
    assert!(create_rotors(2, 7, "20231301").is_err());
    assert!(create_reflector(7, "").is_err());
    assert!(create_plugboard(7, "", vec![]).is_err());
}

#[test]
fn non_ascii_characters_are_skipped() {
    let mut enigma = create_test_enigma();
    // Only ASCII letters are encrypted; anything else but a dash is
    // dropped from the message.
    assert_eq!(enigma.encrypt_message("é"), Ok(String::new()));
    let mut enigma2 = create_test_enigma();
    let mut enigma3 = create_test_enigma();
    let with_noise = enigma2.encrypt_message("HE LLO!").unwrap();
    let plain = enigma3.encrypt_message("HELLO").unwrap();
    assert_eq!(with_noise, plain);
}

#[test]
fn lowercase_input_is_uppercased_by_the_message_loop() {
    let mut enigma1 = create_test_enigma();
    let mut enigma2 = create_test_enigma();
    let from_lower = enigma1.encrypt_message("hello").unwrap();
    let from_upper = enigma2.encrypt_message("HELLO").unwrap();
    assert_eq!(from_lower, from_upper);
}

#[test]
fn escape_letters_change_under_the_roundtrip() {
    // An 'X' followed by a letter from the digit range decodes as a
    // digit, so such plaintexts are not reproduced by a second pass.
    let mut e1 = create_test_enigma();
    let ct = e1.encrypt_message("XRAAA").unwrap();
    let mut e2 = create_test_enigma();
    let back = e2.encrypt_message(&ct).unwrap();
    assert_ne!(back, "XRAAA");
    assert_eq!(back, "8AAA");
}
