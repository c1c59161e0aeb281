use enigma::alphabet::{char_to_symbol, symbol_to_char};
use enigma::codec::{decode_ciphertext, encode_ciphertext, try_decode_ciphertext};
use enigma::error::EnigmaError;
use enigma::modes;
use enigma::numerals::{decimal_string, parse_decimal};
use enigma::setup::{build_machine, build_plugboard, build_state};
use enigma::{EnigmaMachine, EnigmaState, LinearStepping, Plugboard, Reflector, Rotor};

#[test]
fn transparent_pipeline_returns_input_unchanged() {
    // One identity rotor, identity reflector, identity plugboard,
    // modulus 256: the pipeline is fully transparent.
    let machine = build_machine(1, 256, None);
    let mut state = build_state(1, None);
    let out = machine.process_bytes(b"HELLO", &mut state).unwrap();
    assert_eq!(out, b"HELLO");
}

#[test]
fn seeded_machine_roundtrip_with_plugboard_swap() {
    // Three seed-derived rotors, paired reflector, one plugboard
    // swap: a fresh machine and state decrypt what the first pair
    // encrypted.
    let swap = Some("65:66".to_string());
    let encrypt_machine = modes::build_machine(
        3,
        256,
        swap.clone(),
        "seed".to_string(),
        "paired".to_string(),
        Some(12345),
    );
    let mut enc_state = build_state(3, Some(12345));
    let plaintext = b"HELLOENIGMA123";
    let ciphertext = encrypt_machine.process_bytes(plaintext, &mut enc_state).unwrap();
    assert_ne!(ciphertext.as_slice(), plaintext.as_slice());

    let decrypt_machine = modes::build_machine(
        3,
        256,
        swap,
        "seed".to_string(),
        "paired".to_string(),
        Some(12345),
    );
    let mut dec_state = build_state(3, Some(12345));
    let decrypted = decrypt_machine.process_bytes(&ciphertext, &mut dec_state).unwrap();
    assert_eq!(decrypted.as_slice(), plaintext.as_slice());
}

#[test]
fn seeded_roundtrip_through_text_encodings() {
    for encoding in ["hex", "base32", "base64"] {
        let machine = modes::build_machine(
            3,
            256,
            None,
            "seed".to_string(),
            "paired".to_string(),
            Some(12345),
        );
        let mut enc_state = build_state(3, Some(12345));
        let plaintext = b"HELLOENIGMA123";
        let cipher_bytes = machine.process_bytes(plaintext, &mut enc_state).unwrap();
        let rendered = encode_ciphertext(&cipher_bytes, encoding);

        let recovered_bytes = decode_ciphertext(&rendered, encoding);
        assert_eq!(recovered_bytes, cipher_bytes);

        let mut dec_state = build_state(3, Some(12345));
        let decrypted = machine.process_bytes(&recovered_bytes, &mut dec_state).unwrap();
        assert_eq!(decrypted.as_slice(), plaintext.as_slice());
    }
}

#[test]
fn step_counter_rises_once_per_symbol() {
    // With one rotor and modulus m, after k symbols the position is
    // k mod m and the counter is k.
    let machine = EnigmaMachine::new(
        Plugboard::identity(),
        vec![Rotor::identity(0)],
        Reflector::identity(),
        LinearStepping::new(7),
    )
    .unwrap();
    let mut state = EnigmaState::new(1);
    for k in 0..10u64 {
        assert_eq!(state.step_counter, k);
        assert_eq!(state.rotor_positions[0] as u64, k % 7);
        machine.process_byte(b'X', &mut state).unwrap();
    }
    assert_eq!(state.step_counter, 10);
    assert_eq!(state.rotor_positions[0], 3);
}

#[test]
fn carry_propagates_like_an_odometer() {
    // With 2 rotors and modulus 10: after 10 calls the positions are
    // [0, 1]; after 100 calls they are [0, 0] with counter 100.
    let machine = EnigmaMachine::new(
        Plugboard::identity(),
        vec![Rotor::identity(0), Rotor::identity(1)],
        Reflector::identity(),
        LinearStepping::new(10),
    )
    .unwrap();
    let mut state = EnigmaState::new(2);
    for _ in 0..10 {
        machine.process_byte(0, &mut state).unwrap();
    }
    assert_eq!(state.rotor_positions, vec![0, 1]);
    for _ in 10..100 {
        machine.process_byte(0, &mut state).unwrap();
    }
    assert_eq!(state.rotor_positions, vec![0, 0]);
    assert_eq!(state.step_counter, 100);
}

#[test]
fn shape_mismatch_reports_invalid_state() {
    let machine = build_machine(1, 256, None);
    let mut bad_state = EnigmaState::new(0);
    let result = machine.process_byte(b'A', &mut bad_state);
    assert!(matches!(result, Err(EnigmaError::InvalidState(_))));
    // The failed call never advances the state.
    assert_eq!(bad_state.step_counter, 0);
}

#[test]
fn identical_seeds_build_identical_machines() {
    let r1 = Rotor::from_seed(0, 99);
    let r2 = Rotor::from_seed(0, 99);
    assert_eq!(r1.forward, r2.forward);
    assert_eq!(r1.backward, r2.backward);
    // A different seed gives a different wiring.
    let r3 = Rotor::from_seed(0, 100);
    assert_ne!(r1.forward, r3.forward);
    // A seeded wiring is not the identity.
    assert_ne!(r1.forward, Rotor::identity(0).forward);

    // Identical machines produce identical output.
    let m1 = modes::build_machine(
        2,
        256,
        None,
        "seed".to_string(),
        "paired".to_string(),
        Some(4242),
    );
    let m2 = modes::build_machine(
        2,
        256,
        None,
        "seed".to_string(),
        "paired".to_string(),
        Some(4242),
    );
    let mut s1 = build_state(2, Some(7));
    let mut s2 = build_state(2, Some(7));
    let o1 = m1.process_bytes(b"SAME INPUT", &mut s1).unwrap();
    let o2 = m2.process_bytes(b"SAME INPUT", &mut s2).unwrap();
    assert_eq!(o1, o2);
}

#[test]
fn zero_modulus_is_rejected_lazily() {
    let machine = build_machine(1, 0, None);
    let mut state = EnigmaState::new(1);
    let result = machine.process_byte(b'A', &mut state);
    assert!(matches!(result, Err(EnigmaError::SteppingError(_))));
    assert_eq!(state.step_counter, 0);
}

#[test]
fn empty_rotor_bank_is_rejected() {
    let result = EnigmaMachine::new(
        Plugboard::identity(),
        Vec::new(),
        Reflector::identity(),
        LinearStepping::new(256),
    );
    assert!(matches!(result, Err(EnigmaError::InvalidConfiguration(_))));
}

#[test]
fn non_involutive_tables_fail_construction() {
    // A table that maps 0 -> 1 but 1 -> 1 is not an involution.
    let mut table = [0u8; 256];
    for (i, v) in table.iter_mut().enumerate() {
        *v = i as u8;
    }
    table[0] = 1;
    assert!(matches!(
        Plugboard::new(table),
        Err(EnigmaError::InvalidConfiguration(_))
    ));
    assert!(matches!(
        Reflector::new(table),
        Err(EnigmaError::InvalidConfiguration(_))
    ));

    // An involutive table passes and reads back symmetrically.
    let mut swapped = [0u8; 256];
    for (i, v) in swapped.iter_mut().enumerate() {
        *v = i as u8;
    }
    swapped[10] = 20;
    swapped[20] = 10;
    let p = Plugboard::new(swapped).unwrap();
    assert_eq!(p.mapping[10], 20);
    assert_eq!(p.mapping[20], 10);
}

#[test]
fn non_bijective_rotor_table_fails_construction() {
    let table = [7u8; 256];
    assert!(matches!(
        Rotor::new(table, 0),
        Err(EnigmaError::InvalidConfiguration(_))
    ));

    // A bijective table passes, and its inverse undoes it at any
    // position.
    let rotor = Rotor::from_seed(0, 5);
    let machine = EnigmaMachine::new(
        Plugboard::identity(),
        vec![rotor],
        Reflector::paired(),
        LinearStepping::new(256),
    )
    .unwrap();
    let mut enc_state = EnigmaState::new(1);
    let mut dec_state = EnigmaState::new(1);
    let cipher = machine.process_bytes(b"ROUNDTRIP", &mut enc_state).unwrap();
    let plain = machine.process_bytes(&cipher, &mut dec_state).unwrap();
    assert_eq!(plain, b"ROUNDTRIP");
}

#[test]
fn alphabet_maps_letters_and_digits() {
    assert_eq!(char_to_symbol(b'A'), Some(0));
    assert_eq!(char_to_symbol(b'a'), Some(0));
    assert_eq!(char_to_symbol(b'Z'), Some(25));
    assert_eq!(char_to_symbol(b'0'), Some(26));
    assert_eq!(char_to_symbol(b'9'), Some(35));
    assert_eq!(char_to_symbol(b'!'), None);

    assert_eq!(symbol_to_char(0), b'A');
    assert_eq!(symbol_to_char(25), b'Z');
    assert_eq!(symbol_to_char(26), b'0');
    assert_eq!(symbol_to_char(35), b'9');
    // Symbols wrap modulo the alphabet size.
    assert_eq!(symbol_to_char(36), b'A');
}

#[test]
fn hex_encoding_is_exact() {
    let bytes = [0x00u8, 0xFF, 0x4A];
    assert_eq!(encode_ciphertext(&bytes, "hex"), "00FF4A");
    assert_eq!(decode_ciphertext("00FF4A", "hex"), vec![0x00u8, 0xFF, 0x4A]);
    assert_eq!(try_decode_ciphertext("zz", "hex"), None);
    assert_eq!(
        try_decode_ciphertext("00FF4A", "hex"),
        Some(vec![0x00u8, 0xFF, 0x4A])
    );
}

#[test]
fn base_encodings_roundtrip() {
    let bytes = b"HELLO".to_vec();
    let b64 = encode_ciphertext(&bytes, "base64");
    assert_eq!(b64, "SEVMTE8");
    assert_eq!(decode_ciphertext(&b64, "base64"), bytes);
    let b32 = encode_ciphertext(&bytes, "base32");
    assert_ne!(b32.as_bytes(), bytes.as_slice());
    assert_eq!(decode_ciphertext(&b32, "base32"), bytes);
    assert_eq!(try_decode_ciphertext("~~~", "base32"), None);
    assert_eq!(try_decode_ciphertext("~~~", "base64"), None);
}

#[test]
fn swap_option_shapes_the_plugboard() {
    let p = build_plugboard(Some("65:66".to_string()));
    assert_eq!(p.mapping[65], 66);
    assert_eq!(p.mapping[66], 65);
    assert_eq!(p.mapping[0], 0);

    // No option, or a malformed one without a colon pair, leaves the
    // identity.
    let q = build_plugboard(None);
    assert_eq!(q.mapping[65], 65);
    let r = build_plugboard(Some("1:2:3".to_string()));
    assert_eq!(r.mapping[1], 1);
}

#[test]
fn seeded_state_reads_seed_bytes() {
    let state = build_state(3, Some(0x0304_0201));
    assert_eq!(state.rotor_positions, vec![0x01, 0x02, 0x04]);
    assert_eq!(state.step_counter, 0);

    let zeroed = build_state(2, None);
    assert_eq!(zeroed.rotor_positions, vec![0, 0]);
}

#[test]
fn state_reset_returns_to_zero() {
    let mut state = build_state(2, Some(0xABCD));
    assert_ne!(state.rotor_positions, vec![0, 0]);
    state.reset();
    assert_eq!(state.rotor_positions, vec![0, 0]);
    assert_eq!(state.step_counter, 0);
}

#[test]
fn decimal_numerals_roundtrip() {
    assert_eq!(decimal_string(0), "0");
    assert_eq!(decimal_string(12345), "12345");
    let chars: Vec<char> = "255".chars().collect();
    assert_eq!(parse_decimal(&chars, 255), Some(255));
    let over: Vec<char> = "256".chars().collect();
    assert_eq!(parse_decimal(&over, 255), None);
    let plus: Vec<char> = "+17".chars().collect();
    assert_eq!(parse_decimal(&plus, 255), Some(17));
    let junk: Vec<char> = "1x".chars().collect();
    assert_eq!(parse_decimal(&junk, 255), None);
}

#[test]
fn process_bytes_accepts_empty_input_always() {
    let machine = build_machine(1, 256, None);
    // Even a mismatched state succeeds on empty input.
    let mut bad_state = EnigmaState::new(0);
    let out = machine.process_bytes(b"", &mut bad_state).unwrap();
    assert!(out.is_empty());
}

#[test]
fn error_messages_name_their_kind() {
    let e = EnigmaError::InvalidState("state mismatch".to_string());
    assert_eq!(e.message(), "invalid state: state mismatch");
    let c = EnigmaError::InvalidConfiguration("bad table".to_string());
    assert_eq!(c.message(), "invalid configuration: bad table");
}

#[test]
fn shifted_rotor_tables_are_inverse() {
    let rotor = Rotor::shifted(0, 13);
    for i in 0..256usize {
        assert_eq!(rotor.forward[i], ((i + 13) % 256) as u8);
        assert_eq!(rotor.backward[rotor.forward[i] as usize], i as u8);
    }
}
