use farminfo::hashing::get_id;
use sha2::{Digest, Sha256};

fn hex(bytes: &[u8]) -> String {
    bytes.iter().map(|b| format!("{:02x}", b)).collect()
}

#[test]
fn get_id_is_sha256_of_the_text() {
    let id = get_id(&"abc".to_string());
    assert_eq!(
        hex(&id),
        "ba7816bf8f01cfea414140de5dae2223b00361a396177a9cb410ff61f20015ad"
    );
}

#[test]
fn get_id_of_empty_text() {
    let id = get_id(&String::new());
    assert_eq!(
        hex(&id),
        "e3b0c44298fc1c149afbf4c8996fb92427ae41e4649b934ca495991b7852b855"
    );
}

#[test]
fn get_id_hashes_utf8_bytes() {
    let text = "café ☕".to_string();
    let expected: [u8; 32] = Sha256::digest(text.as_bytes()).into();
    assert_eq!(get_id(&text), expected);
}
