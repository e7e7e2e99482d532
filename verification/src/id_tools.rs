//! Decoding the geohash that a farm-item identifier carries.
//!
//! An identifier is a hex text: its first byte pair decodes to a prefix
//! character that tells where the hex-coded geohash starts, the next pair is
//! a checksum (the first byte of the SHA-256 digest of that geohash part, in
//! lower-case hex), and each even-placed hex digit of the geohash part gives
//! one geohash character.

use vstd::prelude::*;
use vstd::string::{StrSliceExecFns, StringSliceAdditionalSpecFns};
use vstd::utf8::*;
use crate::hashing::{sha256, sha256_digest};
use crate::sorted_map::{compare_bytes, lemma_lex_irreflexive, KeyOrder};
use crate::laws::law_checksum_is_first_digest_byte;

verus! {

broadcast use {vstd::utf8::group_utf8_lib, vstd::string::group_string_axioms};

/// Why an identifier was refused.
#[derive(Clone, Copy, Debug, PartialEq, Eq)]
pub enum IdError {
    /// A byte offset that the layout needs is past the end of the
    /// identifier or inside a character.
    MalformedId,
    /// The text is not an even number of hex digits.
    InvalidHexString,
    /// The decoded bytes are not UTF-8.
    NotUtf8,
    /// The prefix pair does not decode to a character.
    InvalidId,
    /// The decoded text is empty.
    EmptyId,
    /// The prefix character is not one of `c`, `C`, `W`.
    InvalidPrefix,
    /// The checksum pair does not match the geohash part.
    InvalidChecksum,
}

pub open spec fn error_message(e: IdError) -> &'static str {
    match e {
        IdError::MalformedId => "byte index out of bounds or not at a char boundary",
        IdError::InvalidHexString => "invalid hex string",
        IdError::NotUtf8 => "invalid utf-8",
        IdError::InvalidId => "invalid ID",
        IdError::EmptyId => "empty identifier",
        IdError::InvalidPrefix => "Invalid prefix",
        IdError::InvalidChecksum => "Invalid checksum",
    }
}

impl IdError {
    /// The text that the service answers a refused identifier with.
    pub fn message(&self) -> (m: &'static str)
        ensures
            m == error_message(*self),
    {
        match self {
            IdError::MalformedId => "byte index out of bounds or not at a char boundary",
            IdError::InvalidHexString => "invalid hex string",
            IdError::NotUtf8 => "invalid utf-8",
            IdError::InvalidId => "invalid ID",
            IdError::EmptyId => "empty identifier",
            IdError::InvalidPrefix => "Invalid prefix",
            IdError::InvalidChecksum => "Invalid checksum",
        }
    }
}

/// The value of a hex digit byte (either case).
pub open spec fn hex_byte_value(b: u8) -> Option<int> {
    if 48 <= b <= 57 {
        Some(b - 48)
    } else if 97 <= b <= 102 {
        Some(b - 87)
    } else if 65 <= b <= 70 {
        Some(b - 55)
    } else {
        None
    }
}

/// An even number of hex digits.
pub open spec fn is_hex_text(s: Seq<u8>) -> bool {
    &&& s.len() % 2 == 0
    &&& forall|i: int| 0 <= i < s.len() ==> (#[trigger] hex_byte_value(s[i])) is Some
}

/// The bytes that a hex text stands for, two digits to a byte.
pub open spec fn hex_text_bytes(s: Seq<u8>) -> Seq<u8> {
    Seq::new(
        (s.len() / 2) as nat,
        |i: int| (hex_byte_value(s[2 * i]).unwrap() * 16 + hex_byte_value(s[2 * i + 1]).unwrap()) as u8,
    )
}

/// Calls `hex::decode`.
/// Trusted: it succeeds exactly on an even number of hex digits of either
/// case, and then gives one byte for each pair, high digit first.
#[verifier::external_body]
fn hex_decode(data: &[u8]) -> (r: Option<Vec<u8>>)
    ensures
        r is Some <==> is_hex_text(data@),
        r matches Some(v) ==> v@ == hex_text_bytes(data@),
{
    hex::decode(data).ok()
}

/// Calls `String::from_utf8`.
/// Trusted: it succeeds exactly on valid UTF-8, and then holds the
/// characters those bytes encode.
#[verifier::external_body]
fn string_from_utf8(bytes: Vec<u8>) -> (r: Option<String>)
    ensures
        r is Some <==> valid_utf8(bytes@),
        r matches Some(s) ==> s@ == decode_utf8(bytes@),
{
    String::from_utf8(bytes).ok()
}

/// Calls `String::push`.
/// Trusted: it appends the character to the end of the string.
#[verifier::external_body]
pub(crate) fn push_char(s: &mut String, c: char)
    ensures
        final(s)@ == old(s)@.push(c),
{
    s.push(c)
}

/// What `hex_to_string` gives for the bytes of a hex text.
pub open spec fn hex_text_string(s: Seq<u8>) -> Result<Seq<char>, IdError> {
    if !is_hex_text(s) {
        Err(IdError::InvalidHexString)
    } else if !valid_utf8(hex_text_bytes(s)) {
        Err(IdError::NotUtf8)
    } else {
        Ok(decode_utf8(hex_text_bytes(s)))
    }
}

fn read_hex_text(hex_str: &str) -> (r: Result<String, IdError>)
    ensures
        r matches Ok(s) ==> hex_text_string(hex_str.spec_bytes()) == Ok::<Seq<char>, IdError>(s@),
        r matches Err(e) ==> hex_text_string(hex_str.spec_bytes()) == Err::<Seq<char>, IdError>(e),
{
    match hex_decode(hex_str.as_bytes()) {
        None => Err(IdError::InvalidHexString),
        Some(bytes) => match string_from_utf8(bytes) {
            Some(s) => Ok(s),
            None => Err(IdError::NotUtf8),
        },
    }
}

/// Decodes a hex text and reads the bytes as UTF-8. A text that is not hex
/// is refused, and left out here; bytes that are not UTF-8 give `NotUtf8`.
pub fn hex_to_string(hex_str: &str) -> (r: Result<String, IdError>)
    requires
        is_hex_text(hex_str.spec_bytes()),
    ensures
        r matches Ok(s) ==> hex_text_string(hex_str.spec_bytes()) == Ok::<Seq<char>, IdError>(s@),
        r matches Err(e) ==> e == IdError::NotUtf8 && hex_text_string(hex_str.spec_bytes()) == Err::<
            Seq<char>,
            IdError,
        >(IdError::NotUtf8),
{
    read_hex_text(hex_str)
}

/// The sixteen lower-case hex digits, in order of value.
pub open spec fn hex_digit_table() -> Seq<char> {
    seq!['0', '1', '2', '3', '4', '5', '6', '7', '8', '9', 'a', 'b', 'c', 'd', 'e', 'f']
}

/// The sixteen upper-case hex digits, in order of value.
pub open spec fn upper_hex_digit_table() -> Seq<char> {
    seq!['0', '1', '2', '3', '4', '5', '6', '7', '8', '9', 'A', 'B', 'C', 'D', 'E', 'F']
}

/// The geohash alphabet, in order of value.
pub open spec fn geohash_alphabet() -> Seq<char> {
    seq![
        '0', '1', '2', '3', '4', '5', '6', '7', '8', '9', 'b', 'c', 'd', 'e', 'f', 'g',
        'h', 'j', 'k', 'm', 'n', 'p', 'q', 'r', 's', 't', 'u', 'v', 'w', 'x', 'y', 'z',
    ]
}

/// A lower-case hex digit.
pub open spec fn lower_hex_char(n: int) -> char {
    if n < 10 {
        (n + 48) as char
    } else {
        (n + 87) as char
    }
}

fn lower_hex_digit(n: u8) -> (c: char)
    requires
        n < 16,
    ensures
        c == lower_hex_char(n as int),
{
    if n < 10 {
        (n + 48) as char
    } else {
        (n + 87) as char
    }
}

/// The first byte of the SHA-256 digest of `data`, in lower-case hex.
pub open spec fn checksum_text(data: Seq<u8>) -> Seq<char> {
    let b = sha256_digest(data)[0];
    seq![lower_hex_char((b / 16) as int), lower_hex_char((b % 16) as int)]
}

/// The checksum of the geohash part of an identifier.
pub fn checksum(geohash_hex: &str) -> (r: String)
    ensures
        r@ == checksum_text(geohash_hex.spec_bytes()),
        r@ == seq![
            hex_digit_table()[(sha256_digest(geohash_hex.spec_bytes())[0] / 16) as int],
            hex_digit_table()[(sha256_digest(geohash_hex.spec_bytes())[0] % 16) as int],
        ],
{
    let digest = sha256(geohash_hex.as_bytes());
    let b = digest[0];
    let mut r = String::new();
    push_char(&mut r, lower_hex_digit(b / 16));
    push_char(&mut r, lower_hex_digit(b % 16));
    assert(r@ =~= checksum_text(geohash_hex.spec_bytes()));
    proof {
        law_checksum_is_first_digest_byte(geohash_hex.spec_bytes());
    }
    r
}

/// What `get_identifier` gives for the bytes of its argument.
pub open spec fn identifier_char(s: Seq<u8>) -> Result<char, IdError> {
    match hex_text_string(s) {
        Err(IdError::InvalidHexString) => Err(IdError::InvalidHexString),
        Err(_) => Err(IdError::InvalidId),
        Ok(t) => if t.len() == 0 {
            Err(IdError::EmptyId)
        } else {
            Ok(t[0])
        },
    }
}

fn identifier_of(id: &str) -> (r: Result<char, IdError>)
    ensures
        r == identifier_char(id.spec_bytes()),
{
    match read_hex_text(id) {
        Err(IdError::InvalidHexString) => Err(IdError::InvalidHexString),
        Err(_) => Err(IdError::InvalidId),
        Ok(prefix) => {
            let p = prefix.as_str();
            if p.is_empty() {
                Err(IdError::EmptyId)
            } else {
                Ok(p.get_char(0))
            }
        },
    }
}

/// The first character of the text that a hex text decodes to. Bad hex,
/// bytes that are not UTF-8, and an empty text are refused, and left out
/// here.
pub fn get_identifier(id: &str) -> (r: char)
    requires
        identifier_char(id.spec_bytes()) is Ok,
    ensures
        r == identifier_char(id.spec_bytes()).unwrap(),
{
    match identifier_of(id) {
        Ok(c) => c,
        Err(_) => ' ',
    }
}

/// The value of a hex digit character (either case).
pub open spec fn hex_char_value(c: char) -> Option<int> {
    if '0' <= c <= '9' {
        Some(c as int - 48)
    } else if 'a' <= c <= 'f' {
        Some(c as int - 87)
    } else if 'A' <= c <= 'F' {
        Some(c as int - 55)
    } else {
        None
    }
}

fn hex_digit_of(c: char) -> (r: Option<u8>)
    ensures
        r matches Some(v) ==> hex_char_value(c) == Some(v as int),
        r is None ==> hex_char_value(c) is None,
{
    if '0' <= c && c <= '9' {
        Some(((c as u32) - 48) as u8)
    } else if 'a' <= c && c <= 'f' {
        Some(((c as u32) - 87) as u8)
    } else if 'A' <= c && c <= 'F' {
        Some(((c as u32) - 55) as u8)
    } else {
        None
    }
}

/// The geohash alphabet `0123456789bcdefghjkmnpqrstuvwxyz`, by position.
pub open spec fn geohash_digit(v: int) -> char {
    if v < 10 {
        (v + 48) as char
    } else if v < 17 {
        (v + 88) as char
    } else if v < 19 {
        (v + 89) as char
    } else if v < 21 {
        (v + 90) as char
    } else {
        (v + 91) as char
    }
}

fn geohash_digit_of(v: u8) -> (c: char)
    requires
        v < 16,
    ensures
        c == geohash_digit(v as int),
{
    if v < 10 {
        (v + 48) as char
    } else {
        (v + 88) as char
    }
}

/// The geohash coded by a hex text: each hex digit at an even place gives
/// the geohash character at its value; other characters there are skipped.
pub open spec fn hex_geohash(s: Seq<char>) -> Seq<char>
    decreases s.len(),
{
    if s.len() == 0 {
        Seq::empty()
    } else {
        let head = match hex_char_value(s[0]) {
            Some(v) => seq![geohash_digit(v % 32)],
            None => Seq::empty(),
        };
        if s.len() < 2 {
            head
        } else {
            head + hex_geohash(s.skip(2))
        }
    }
}

/// Decodes the geohash part of an identifier.
pub fn hex_to_geohash(hex: &str) -> (r: String)
    ensures
        r@ == hex_geohash(hex@),
{
    let n = hex.unicode_len();
    let mut geohash = String::new();
    let mut i: usize = 0;
    assert(hex@.skip(0) =~= hex@);
    while i < n
        invariant
            n == hex@.len(),
            i <= n,
            geohash@ + hex_geohash(hex@.skip(i as int)) == hex_geohash(hex@),
        decreases n - i,
    {
        let c = hex.get_char(i);
        let ghost rest = hex@.skip(i as int);
        assert(rest[0] == c);
        match hex_digit_of(c) {
            Some(v) => {
                push_char(&mut geohash, geohash_digit_of(v % 32));
            },
            None => {},
        }
        if n - i <= 2 {
            proof {
                assert(hex@.skip(n as int) =~= Seq::<char>::empty());
                if rest.len() == 2 {
                    assert(rest.skip(2) =~= Seq::<char>::empty());
                }
            }
            i = n;
        } else {
            assert(rest.skip(2) =~= hex@.skip(i + 2));
            i = i + 2;
        }
        assert(geohash@ + hex_geohash(hex@.skip(i as int)) =~= hex_geohash(hex@));
    }
    assert(hex@.skip(n as int) =~= Seq::<char>::empty());
    assert(geohash@ =~= hex_geohash(hex@));
    geohash
}

/// Where the geohash part starts for a given prefix character.
pub open spec fn geohash_offset(prefix: char) -> Option<int> {
    if prefix == 'c' {
        Some(30)
    } else if prefix == 'C' || prefix == 'W' {
        Some(36)
    } else {
        None
    }
}

/// The geohash that an identifier with UTF-8 bytes `b` carries, or why it is
/// refused, checked in the order the layout is read.
pub open spec fn id_geohash(b: Seq<u8>) -> Result<Seq<char>, IdError> {
    if !is_char_boundary(b, 2) {
        Err(IdError::MalformedId)
    } else {
        match identifier_char(b.subrange(0, 2)) {
            Err(e) => Err(e),
            Ok(prefix) => match geohash_offset(prefix) {
                None => Err(IdError::InvalidPrefix),
                Some(offset) => {
                    let part = b.subrange(offset, b.len() as int);
                    if !is_char_boundary(b, offset) || !is_char_boundary(b, 4) {
                        Err(IdError::MalformedId)
                    } else if checksum_text(part) != decode_utf8(b.subrange(2, 4)) {
                        Err(IdError::InvalidChecksum)
                    } else {
                        Ok(hex_geohash(decode_utf8(part)))
                    }
                },
            },
        }
    }
}

/// Reads the geohash out of an identifier, or says why it is refused.
pub fn decode_id(id: &String) -> (r: Result<String, IdError>)
    ensures
        r matches Ok(g) ==> id_geohash(encode_utf8(id@)) == Ok::<Seq<char>, IdError>(g@),
        r matches Err(e) ==> id_geohash(encode_utf8(id@)) == Err::<Seq<char>, IdError>(e),
{
    let text = id.as_str();
    let ghost b = text.spec_bytes();
    proof {
        encode_utf8_valid_utf8(text@);
    }
    if !text.is_char_boundary(2) {
        return Err(IdError::MalformedId);
    }
    let (head, _) = text.split_at(2);
    let prefix = match identifier_of(head) {
        Ok(c) => c,
        Err(e) => return Err(e),
    };
    let offset: usize = if prefix == 'c' {
        30
    } else if prefix == 'C' || prefix == 'W' {
        36
    } else {
        return Err(IdError::InvalidPrefix);
    };
    if !text.is_char_boundary(offset) || !text.is_char_boundary(4) {
        return Err(IdError::MalformedId);
    }
    let (_, geohex) = text.split_at(offset);
    let chk = checksum(geohex);
    let (first_four, _) = text.split_at(4);
    proof {
        let f = first_four.spec_bytes();
        valid_utf8_split(b, 4);
        is_char_boundary_iff_not_is_continuation_byte(b, 2);
        is_char_boundary_iff_not_is_continuation_byte(f, 2);
        assert(f[2] == b[2]);
    }
    let (_, pair) = first_four.split_at(2);
    proof {
        assert(pair.spec_bytes() =~= b.subrange(2, 4));
        encode_utf8_decode_utf8(pair@);
        encode_utf8_decode_utf8(chk@);
        encode_utf8_decode_utf8(geohex@);
        lemma_lex_irreflexive(encode_utf8(chk@));
    }
    match compare_bytes(chk.as_str().as_bytes(), pair.as_bytes()) {
        KeyOrder::Same => {},
        _ => return Err(IdError::InvalidChecksum),
    }
    Ok(hex_to_geohash(geohex))
}

/// Reads the geohash out of an identifier. A refused identifier (a byte
/// offset past the end or inside a character, bad hex, a bad prefix, a
/// checksum that does not match) is left out here.
pub fn geohash_from_id(id: &String) -> (r: Result<String, &'static str>)
    requires
        id_geohash(encode_utf8(id@)) is Ok,
    ensures
        r matches Ok(s) && s@ == id_geohash(encode_utf8(id@)).unwrap(),
{
    match decode_id(id) {
        Ok(g) => Ok(g),
        Err(e) => Err(e.message()),
    }
}

} // verus!
