use enigma::letters::rotor::Rotor;

#[test]
fn test_rotate_basic() {
    let mut rotor = Rotor {
        mapping: ['A'; 26],
        reverse_mapping: ['A'; 26],
        notch: 'B',  // Notch at position 1
        position: 0, // 'A'
    };
    assert!(rotor.rotate()); // 'A' -> 'B' (should signal the notch)
    assert_eq!(rotor.position, 1);
}

#[test]
fn test_rotor_creation_with_wiring() {
    let wiring = "EKMFLGDQVZNTOWYHXUSPAIBRCJ";
    let rotor = Rotor::new(Some(wiring), 'Q', 'A', None).unwrap();

    // Check the wiring is correct
    assert_eq!(
        rotor.mapping,
        [
            'E', 'K', 'M', 'F', 'L', 'G', 'D', 'Q', 'V', 'Z', 'N', 'T', 'O', 'W', 'Y', 'H', 'X',
            'U', 'S', 'P', 'A', 'I', 'B', 'R', 'C', 'J'
        ]
    );

    // Check the reverse wiring is correct
    assert_eq!(
        rotor.reverse_mapping,
        [
            'U', 'W', 'Y', 'G', 'A', 'D', 'F', 'P', 'V', 'Z', 'B', 'E', 'C', 'K', 'M', 'T', 'H',
            'X', 'S', 'L', 'R', 'I', 'N', 'Q', 'O', 'J'
        ]
    );

    // Check the starting position
    assert_eq!(rotor.position, 0); // 'A' corresponds to 0
}

#[test]
fn test_rotor_creation_with_seed() {
    let seed = 12345;
    let rotor = Rotor::new(None, 'Q', 'A', Some(seed)).unwrap();

    // Check the wiring is a valid permutation of the alphabet
    let mut sorted_mapping = rotor.mapping.to_vec();
    sorted_mapping.sort();
    assert_eq!(
        sorted_mapping,
        [
            'A', 'B', 'C', 'D', 'E', 'F', 'G', 'H', 'I', 'J', 'K', 'L', 'M', 'N', 'O', 'P', 'Q',
            'R', 'S', 'T', 'U', 'V', 'W', 'X', 'Y', 'Z'
        ]
    );
}

#[test]
fn test_forward_encryption() {
    let wiring = "EKMFLGDQVZNTOWYHXUSPAIBRCJ";
    let rotor = Rotor::new(Some(wiring), 'Q', 'A', None).unwrap();

    // Check the forward transform
    assert_eq!(rotor.forward('A').unwrap(), 'E');
    assert_eq!(rotor.forward('B').unwrap(), 'K');
    assert_eq!(rotor.forward('C').unwrap(), 'M');
}

#[test]
fn test_reverse_encryption() {
    let wiring = "EKMFLGDQVZNTOWYHXUSPAIBRCJ";
    let rotor = Rotor::new(Some(wiring), 'Q', 'A', None).unwrap();

    // Check the reverse transform
    assert_eq!(rotor.reverse('E').unwrap(), 'A');
    assert_eq!(rotor.reverse('K').unwrap(), 'B');
    assert_eq!(rotor.reverse('M').unwrap(), 'C');
}

#[test]
fn test_rotor_rotation() {
    let wiring = "EKMFLGDQVZNTOWYHXUSPAIBRCJ";
    let reverse = Rotor::create_reverse_mapping(wiring);
    let mut rotor = Rotor {
        mapping: wiring.chars().collect::<Vec<_>>().try_into().unwrap(),
        reverse_mapping: reverse,
        notch: 'Q',  // Notch at position 16 ('Q')
        position: 0, // Starting position: 'A' (0)
    };

    // Rotate 15 times (from 'A' to 'P')
    for _ in 0..15 {
        assert!(!rotor.rotate(), "Should not signal the notch");
    }

    // 16th rotation (from 'P' to 'Q') - should signal the notch
    assert!(rotor.rotate(), "Should signal passing the notch");
    assert_eq!(rotor.position, 16); // 'Q'

    // Next rotation (from 'Q' to 'R') - should not signal
    assert!(!rotor.rotate(), "Should not signal the notch");
}

#[test]
fn test_get_current_letter() {
    let wiring = "EKMFLGDQVZNTOWYHXUSPAIBRCJ";
    let rotor = Rotor::new(Some(wiring), 'Q', 'A', None).unwrap();

    // Check the current letter
    assert_eq!(rotor.get_current_letter(), 'E'); // Starting position 'A' -> 'E'
}

#[test]
fn test_invalid_wiring_length() {
    let wiring = "EKMFLGDQVZNTOWYHXUSPAIBRC"; // 25 characters (invalid)
    let result = Rotor::new(Some(wiring), 'Q', 'A', None);

    assert!(result.is_err());
    assert_eq!(
        result.unwrap_err(),
        "The rotor wiring must have exactly 26 characters"
    );
}

#[test]
fn test_invalid_notch_or_position() {
    let wiring = "EKMFLGDQVZNTOWYHXUSPAIBRCJ";
    let result = Rotor::new(Some(wiring), 'q', 'A', None); // Invalid notch

    assert!(result.is_err());
    assert_eq!(
        result.unwrap_err(),
        "The notch and position must be valid ASCII uppercase letters ('A'-'Z')"
    );
}

#[test]
fn test_rotate_with_notch_at_a() {
    let wiring = "EKMFLGDQVZNTOWYHXUSPAIBRCJ";
    let reverse = Rotor::create_reverse_mapping(wiring);
    let mut rotor = Rotor {
        mapping: wiring.chars().collect::<Vec<_>>().try_into().unwrap(),
        reverse_mapping: reverse,
        notch: 'A',   // Notch at position 0
        position: 25, // Start at 'Z' (position 25)
    };

    // Rotation 1: 'Z' -> 'A' - must signal passing the notch
    assert!(rotor.rotate(), "Should signal passing notch 'A'");
    assert_eq!(rotor.position, 0);

    // Rotation 2: 'A' -> 'B' - no notch passage
    assert!(!rotor.rotate(), "Should not signal passing the notch");
    assert_eq!(rotor.position, 1);
}

#[test]
fn test_rotate_with_notch_at_b() {
    let mut rotor = Rotor {
        mapping: ['A'; 26],
        reverse_mapping: ['A'; 26],
        notch: 'B',  // Notch at position 1
        position: 0, // Starting at 'A'
    };

    // First rotation to 'B' - should trigger notch
    assert!(rotor.rotate());
    assert_eq!(rotor.position, 1);

    // Next rotation shouldn't trigger
    assert!(!rotor.rotate());
    assert_eq!(rotor.position, 2);
}

#[test]
fn test_full_rotation() {
    let mut rotor = Rotor {
        mapping: ['A'; 26],
        reverse_mapping: ['A'; 26],
        notch: 'A',
        position: 0,
    };

    // Rotate 25 times (shouldn't trigger notch)
    for _ in 0..25 {
        assert!(!rotor.rotate());
    }

    // 26th rotation (back to 'A') - should trigger
    assert!(rotor.rotate());
    assert_eq!(rotor.position, 0);
}

#[test]
fn test_notch_behavior_all_positions() {
    for notch_char in 'A'..='Z' {
        let notch_pos = (notch_char as u8 - b'A') as usize;
        let prev_pos = if notch_pos == 0 { 25 } else { notch_pos - 1 };

        let mut rotor = Rotor {
            mapping: ['A'; 26],
            reverse_mapping: ['A'; 26],
            notch: notch_char,
            position: prev_pos,
        };

        // The rotation should signal passing the notch
        assert!(rotor.rotate(), "Failed for notch at {}", notch_char);
        assert_eq!(rotor.position, notch_pos);
    }
}

#[test]
fn test_notch_at_a() {
    let mut rotor = Rotor {
        mapping: ['A'; 26],
        reverse_mapping: ['A'; 26],
        notch: 'A',
        position: 25, // 'Z'
    };

    // Rotation from 'Z' to 'A' - should signal
    assert!(rotor.rotate());
    assert_eq!(rotor.position, 0);
}

#[test]
fn test_multiple_rotations() {
    let mut rotor = Rotor {
        mapping: ['A'; 26],
        reverse_mapping: ['A'; 26],
        notch: 'C', // Position 2
        position: 0,
    };

    assert!(!rotor.rotate()); // A->B
    assert!(rotor.rotate()); // B->C (signals)
    assert!(!rotor.rotate()); // C->D
}
