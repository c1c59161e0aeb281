use enigma::letters::plugboard::Plugboard;

#[test]
fn test_new_with_valid_pairs() {
    let pairs = vec![('A', 'B'), ('C', 'D'), ('E', 'F')];
    let plugboard = Plugboard::new(Some(pairs), None).unwrap();

    // Verify the mapping is correct
    assert_eq!(plugboard.swap('A').unwrap(), 'B');
    assert_eq!(plugboard.swap('B').unwrap(), 'A');
    assert_eq!(plugboard.swap('C').unwrap(), 'D');
    assert_eq!(plugboard.swap('D').unwrap(), 'C');
    assert_eq!(plugboard.swap('E').unwrap(), 'F');
    assert_eq!(plugboard.swap('F').unwrap(), 'E');

    // Verify unmapped characters return themselves
    assert_eq!(plugboard.swap('G').unwrap(), 'G');
    assert_eq!(plugboard.swap('Z').unwrap(), 'Z');
}

#[test]
fn test_new_with_invalid_pairs() {
    // Test non-uppercase characters
    let result = Plugboard::new(Some(vec![('A', 'b')]), None);
    assert_eq!(
        result,
        Err("Invalid character in plugboard pairs: Must be ASCII uppercase letters")
    );

    // Test duplicate characters
    let result = Plugboard::new(Some(vec![('A', 'B'), ('B', 'C')]), None);
    assert_eq!(result, Err("Duplicate character in plugboard pairs"));

    // Test self-mapping (not allowed in Enigma)
    let result = Plugboard::new(Some(vec![('A', 'A')]), None);
    assert_eq!(result, Err("Self-mapping is not allowed in plugboard pairs"));
}

#[test]
fn test_new_with_no_pairs_or_seed() {
    let result = Plugboard::new(None, None);
    assert_eq!(result, Err("Either pairs or seed must be provided"));
}

#[test]
fn plugboard_test_new_with_seed() {
    // Test that the same seed produces the same pairs
    let plugboard1 = Plugboard::new(None, Some(42)).unwrap();
    let plugboard2 = Plugboard::new(None, Some(42)).unwrap();

    // Verify all mappings are the same
    for c in 'A'..='Z' {
        assert_eq!(plugboard1.swap(c).unwrap(), plugboard2.swap(c).unwrap());
    }

    // Test that different seeds produce different pairs
    let plugboard3 = Plugboard::new(None, Some(43)).unwrap();
    let mut different = false;
    for c in 'A'..='Z' {
        if plugboard1.swap(c).unwrap() != plugboard3.swap(c).unwrap() {
            different = true;
            break;
        }
    }
    assert!(
        different,
        "Different seeds should produce different mappings"
    );
}

#[test]
fn test_swap_valid_characters() {
    let pairs = vec![('A', 'B'), ('X', 'Y')];
    let plugboard = Plugboard::new(Some(pairs), None).unwrap();

    // Test mapped characters
    assert_eq!(plugboard.swap('A').unwrap(), 'B');
    assert_eq!(plugboard.swap('B').unwrap(), 'A');
    assert_eq!(plugboard.swap('X').unwrap(), 'Y');
    assert_eq!(plugboard.swap('Y').unwrap(), 'X');

    // Test unmapped characters
    assert_eq!(plugboard.swap('C').unwrap(), 'C');
    assert_eq!(plugboard.swap('Z').unwrap(), 'Z');
}

#[test]
fn test_swap_invalid_characters() {
    let pairs = vec![('A', 'B')];
    let plugboard = Plugboard::new(Some(pairs), None).unwrap();

    // Test non-uppercase ASCII
    assert_eq!(
        plugboard.swap('a'),
        Err("Invalid character: Must be an ASCII uppercase letter")
    );
    assert_eq!(
        plugboard.swap('1'),
        Err("Invalid character: Must be an ASCII uppercase letter")
    );
    assert_eq!(
        plugboard.swap(' '),
        Err("Invalid character: Must be an ASCII uppercase letter")
    );
    assert_eq!(
        plugboard.swap('Å'),
        Err("Invalid character: Must be an ASCII uppercase letter")
    );
}

#[test]
fn test_validate_plugboard_pairs() {
    // Test valid pairs
    assert!(Plugboard::validate_plugboard_pairs(&[('A', 'B'), ('C', 'D')]).is_ok());

    // Test invalid characters
    assert_eq!(
        Plugboard::validate_plugboard_pairs(&[('A', 'b')]),
        Err("Invalid character in plugboard pairs: Must be ASCII uppercase letters")
    );

    // Test duplicate characters
    assert_eq!(
        Plugboard::validate_plugboard_pairs(&[('A', 'B'), ('B', 'C')]),
        Err("Duplicate character in plugboard pairs")
    );

    // Test self-mapping
    assert_eq!(
        Plugboard::validate_plugboard_pairs(&[('A', 'A')]),
        Err("Self-mapping is not allowed in plugboard pairs")
    );
}

#[test]
fn test_random_plugboard_validity() {
    // Test that randomly generated plugboard follows proper rules
    let plugboard = Plugboard::new(None, Some(12345)).unwrap();

    let mut mapped_chars = std::collections::HashSet::new();
    let mut has_mapping = false;

    for c in 'A'..='Z' {
        let swapped = plugboard.swap(c).unwrap();

        // Verify reciprocal mapping
        if swapped != c {
            has_mapping = true;
            assert_eq!(plugboard.swap(swapped).unwrap(), c);

            // Verify no character is mapped to itself
            assert_ne!(swapped, c);

            // Track mapped characters
            mapped_chars.insert(c);
            mapped_chars.insert(swapped);
        }
    }

    // Verify at least some mappings were created
    assert!(has_mapping, "Random plugboard should have some mappings");

    // Verify all mappings are unique
    assert_eq!(mapped_chars.len(), mapped_chars.iter().count());
}
