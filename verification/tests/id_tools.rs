use farminfo::id_tools::{
    checksum, decode_id, geohash_from_id, get_identifier, hex_to_geohash, hex_to_string, IdError,
};
use sha2::{Digest, Sha256};

fn checksum_of(part: &str) -> String {
    let digest = Sha256::digest(part.as_bytes());
    format!("{:02x}", digest[0])
}

fn make_id(prefix: &str, filler_len: usize, geohex: &str) -> String {
    let mut id = String::from(prefix);
    id.push_str(&checksum_of(geohex));
    id.push_str(&"0".repeat(filler_len));
    id.push_str(geohex);
    id
}

#[test]
fn hex_to_string_decodes_text() {
    assert_eq!(hex_to_string("6869").unwrap(), "hi");
    assert_eq!(hex_to_string("4A6b").unwrap(), "Jk");
    assert_eq!(hex_to_string("").unwrap(), "");
}

#[test]
fn bad_hex_is_refused_in_identifiers() {
    assert_eq!(decode_id(&"zz00".to_string()), Err(IdError::InvalidHexString));
    assert_eq!(decode_id(&"6g00".to_string()), Err(IdError::InvalidHexString));
}

#[test]
fn hex_to_string_refuses_non_utf8() {
    assert_eq!(hex_to_string("ff").unwrap_err(), IdError::NotUtf8);
    assert_eq!(hex_to_string("80").unwrap_err(), IdError::NotUtf8);
    assert_eq!(hex_to_string("c3a9").unwrap(), "é");
}

#[test]
fn checksum_is_first_digest_byte_in_lower_hex() {
    assert_eq!(checksum(""), "e3");
    assert_eq!(checksum("abc"), "ba");
    assert_eq!(checksum("1a2b3c"), checksum_of("1a2b3c"));
}

#[test]
fn get_identifier_reads_prefix() {
    assert_eq!(get_identifier("63"), 'c');
    assert_eq!(get_identifier("43"), 'C');
    assert_eq!(get_identifier("57"), 'W');
    assert_eq!(get_identifier("c3a9"), 'é');
}

#[test]
fn identifier_refusals() {
    assert_eq!(decode_id(&"g100".to_string()), Err(IdError::InvalidHexString));
    assert_eq!(decode_id(&"8000".to_string()), Err(IdError::InvalidId));
}

#[test]
fn hex_to_geohash_reads_even_places() {
    assert_eq!(hex_to_geohash("1a2b3c4d"), "1234");
    assert_eq!(hex_to_geohash("a0F0"), "bg");
    assert_eq!(hex_to_geohash("x0e"), "f");
    assert_eq!(hex_to_geohash("9"), "9");
    assert_eq!(hex_to_geohash(""), "");
}

#[test]
fn geohash_from_id_with_lower_c_prefix() {
    let id = make_id("63", 26, "1a2b3c4d5e");
    assert_eq!(id.len(), 40);
    assert_eq!(geohash_from_id(&id), Ok("12345".to_string()));
    assert_eq!(decode_id(&id), Ok("12345".to_string()));
}

#[test]
fn geohash_from_id_with_upper_prefixes() {
    let id = make_id("43", 32, "d0e1f2");
    assert_eq!(geohash_from_id(&id), Ok("efg".to_string()));
    let id = make_id("57", 32, "b7c8");
    assert_eq!(geohash_from_id(&id), Ok("cd".to_string()));
}

#[test]
fn refused_identifiers() {
    assert_eq!(decode_id(&"6".to_string()), Err(IdError::MalformedId));
    assert_eq!(decode_id(&"zz00".to_string()), Err(IdError::InvalidHexString));
    assert_eq!(decode_id(&"ff00".to_string()), Err(IdError::InvalidId));
    assert_eq!(decode_id(&make_id("41", 26, "1a")), Err(IdError::InvalidPrefix));
    assert_eq!(decode_id(&"6300".to_string()), Err(IdError::MalformedId));
    let mut id = make_id("63", 26, "1a2b");
    let wrong = if &id[2..4] == "00" { "11" } else { "00" };
    id.replace_range(2..4, wrong);
    assert_eq!(decode_id(&id), Err(IdError::InvalidChecksum));
}

#[test]
fn decode_id_errors_by_kind() {
    assert_eq!(decode_id(&"é".to_string()), Err(IdError::InvalidHexString));
    assert_eq!(decode_id(&"a".to_string()), Err(IdError::MalformedId));
    assert_eq!(decode_id(&make_id("57", 26, "1a")), Err(IdError::MalformedId));
}

#[test]
fn error_messages() {
    assert_eq!(IdError::InvalidPrefix.message(), "Invalid prefix");
    assert_eq!(IdError::InvalidChecksum.message(), "Invalid checksum");
    assert_eq!(IdError::InvalidId.message(), "invalid ID");
    assert_eq!(IdError::InvalidHexString.message(), "invalid hex string");
}

#[test]
fn geohash_from_id_counts_bytes_not_characters() {
    let geohex = "1a2b";
    let mut id = String::from("63");
    id.push_str(&checksum_of(geohex));
    id.push_str(&"é".repeat(13));
    id.push_str(geohex);
    assert_eq!(id.len(), 34);
    assert_eq!(geohash_from_id(&id), Ok("12".to_string()));
}

#[test]
fn geohash_from_id_refuses_offset_inside_a_character() {
    let geohex = "1a2b";
    let mut id = String::from("63");
    id.push_str(&checksum_of(geohex));
    id.push_str(&"é".repeat(12));
    id.push('0');
    id.push('é');
    id.push_str(geohex);
    assert_eq!(decode_id(&id), Err(IdError::MalformedId));
}

#[test]
fn decoded_geohash_uses_the_alphabet() {
    let alphabet = "0123456789bcdefghjkmnpqrstuvwxyz";
    let text = "0a1B2c3D4e5F6g7H8i9JaKbLcMdNeOfP";
    let g = hex_to_geohash(text);
    assert!(g.chars().count() <= (text.chars().count() + 1) / 2);
    assert!(g.chars().all(|c| alphabet.contains(c)));
    assert_eq!(g, "0123456789bcdefg");
}
