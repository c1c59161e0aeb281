use enigma::config::Config;
use enigma::envelope::{decrypt_message, encrypt_message, open_envelope};

fn get_test_config() -> Config {
    Config {
        sstk: 12345,
        n_rt: 3,
        plugboard_pairs: vec![('A', 'B'), ('C', 'D')],
    }
}

#[test]
fn test_encrypt_decrypt_roundtrip() {
    let config = get_test_config();
    let input = "TESTMESSAGE";
    let test_key: &[u8] = b"0123456789abcdef0123456789abcdef";
    let test_iv: &[u8] = b"1234567890abcdef";

    let encrypted = encrypt_message(input, Some(&config), test_key, test_iv).unwrap();
    let (decrypted, new_config) = decrypt_message(&encrypted, test_key, test_iv).unwrap();

    assert_eq!(decrypted, input);
    assert!(new_config.is_some());
    assert_eq!(
        new_config.unwrap().plugboard_pairs,
        vec![('A', 'B'), ('C', 'D')]
    );
}

#[test]
fn encrypt_message_needs_a_config() {
    let test_key: &[u8] = b"0123456789abcdef0123456789abcdef";
    let test_iv: &[u8] = b"1234567890abcdef";
    let r = encrypt_message("HELLO", None, test_key, test_iv);
    assert_eq!(
        r,
        Err("Failed to load config: no configuration was supplied".to_string())
    );
}

#[test]
fn decrypt_message_rejects_bad_base64() {
    let test_key: &[u8] = b"0123456789abcdef0123456789abcdef";
    let test_iv: &[u8] = b"1234567890abcdef";
    let r = decrypt_message("!!!not-base64!!!", test_key, test_iv);
    assert!(r.is_err());
    assert!(r.unwrap_err().starts_with("Error decoding base64 message: "));
}

#[test]
fn decrypt_message_rejects_wrong_key() {
    let config = get_test_config();
    let test_key: &[u8] = b"0123456789abcdef0123456789abcdef";
    let other_key: &[u8] = b"ffffffffffffffffffffffffffffffff";
    let test_iv: &[u8] = b"1234567890abcdef";

    let encrypted = encrypt_message("HELLO", Some(&config), test_key, test_iv).unwrap();
    let r = decrypt_message(&encrypted, other_key, test_iv);
    assert!(r.is_err());
    assert!(r.unwrap_err().starts_with("Error decrypting with AES: "));
}

#[test]
fn open_envelope_reads_the_five_fields() {
    // A hand-written envelope: seed, rotor count, date, plugboard
    // letters and an empty payload.
    let plain = b"777|2|20231001|ABCD|";
    let (text, cfg) = open_envelope(plain).unwrap();
    assert_eq!(cfg.sstk, 777);
    assert_eq!(cfg.n_rt, 2);
    assert_eq!(cfg.plugboard_pairs, vec![('A', 'B'), ('C', 'D')]);
    assert_eq!(text, "");
}

#[test]
fn open_envelope_rejects_short_messages() {
    let plain = b"12345|3|20231001";
    let r = open_envelope(plain);
    assert_eq!(r, Err("Invalid message format - expected 5 parts".to_string()));
}

#[test]
fn open_envelope_falls_back_on_unreadable_numbers() {
    // Unparseable seed and rotor count fall back to the defaults.
    let plain = b"x|y|20231001|AB|";
    let (_, cfg) = open_envelope(plain).unwrap();
    assert_eq!(cfg.sstk, 12345);
    assert_eq!(cfg.n_rt, 3);
}
