use pmk_precompute::kdf;

fn is_lower_hex(s: &str) -> bool {
    s.chars().all(|c| c.is_ascii_digit() || ('a'..='f').contains(&c))
}

#[test]
fn derive_matches_published_vector() {
    // PBKDF2-HMAC-SHA256, password "password", salt "salt", 4096 rounds.
    assert_eq!(kdf::derive("password", "salt"), "c5e478d59288c841aa530db6845c4c8d");
}

#[test]
fn derive_is_deterministic() {
    let a = kdf::derive("hunter2", "CoffeeShop");
    let b = kdf::derive("hunter2", "CoffeeShop");
    assert_eq!(a, b);
}

#[test]
fn derive_is_thirty_two_lowercase_hex_digits() {
    for (p, n) in [("p", "net"), ("", ""), ("pässwörd", "Café-5G"), ("x", "a very long network name indeed")] {
        let k = kdf::derive(p, n);
        assert_eq!(k.len(), 32);
        assert!(is_lower_hex(&k), "{}", k);
    }
}

#[test]
fn derive_depends_on_network() {
    assert_ne!(kdf::derive("p", "net1"), kdf::derive("p", "net2"));
}

#[test]
fn derive_depends_on_password() {
    assert_ne!(kdf::derive("p1", "net"), kdf::derive("p2", "net"));
}

#[test]
fn derive_output_is_not_its_input() {
    let k = kdf::derive("00112233445566778899aabbccddeeff", "00112233445566778899aabbccddeeff");
    assert_ne!(k, "00112233445566778899aabbccddeeff");
}

#[test]
fn hex_prefix_encodes_high_nibble_first() {
    let bytes = [0x00u8, 0x0f, 0xa5, 0xff, 0x10];
    assert_eq!(pmk_precompute::hex::encode_hex_prefix(&bytes, 4), "000fa5ff");
    assert_eq!(pmk_precompute::hex::encode_hex_prefix(&bytes, 0), "");
}
