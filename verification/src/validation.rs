//! Recognising the supported game version by the SHA-1 of its `S4.exe`.

use vstd::prelude::*;
use vstd::string::StringExecFns;
use sha1::{Digest, Sha1};
use crate::resolution::known_gog_s4_exe_hashes_spec;

verus! {

/// The SHA-1 digest of `data` (20 bytes), as `sha1::Sha1::digest` computes it.
pub uninterp spec fn sha1_digest_of(data: Seq<u8>) -> Seq<u8>;

/// Trusted: `Sha1::digest` (through the `Digest` trait of the `sha1` crate) returns the digest
/// of its input; the output type is a 20-byte array (`U20`). Nothing else is claimed of it.
#[verifier::external_body]
fn sha1_digest(data: &[u8]) -> (r: Vec<u8>)
    ensures
        r@ == sha1_digest_of(data@),
        r@.len() == 20,
{
    Sha1::digest(data).to_vec()
}

/// Upper-case hexadecimal digit for `n` (0 to 15).
pub open spec fn hex_digit_upper(n: int) -> char {
    if n < 10 {
        ((n + 48) as u32) as char
    } else {
        ((n + 55) as u32) as char
    }
}

/// Two upper-case hexadecimal digits per byte, high nibble first.
pub open spec fn hex_upper_spec(bytes: Seq<u8>) -> Seq<char>
    decreases bytes.len(),
{
    if bytes.len() == 0 {
        Seq::empty()
    } else {
        hex_upper_spec(bytes.drop_last()) + seq![
            hex_digit_upper((bytes.last() / 16) as int),
            hex_digit_upper((bytes.last() % 16) as int),
        ]
    }
}

/// `0`-`9` or `A`-`F`.
pub open spec fn is_upper_hex_digit(c: char) -> bool {
    (48 <= (c as u32) <= 57) || (65 <= (c as u32) <= 70)
}

/// Forty upper-case hexadecimal digits: the form of a SHA-1 hash as the tool writes it.
pub open spec fn is_sha1_hex(s: Seq<char>) -> bool {
    s.len() == 40 && forall|i: int| 0 <= i < s.len() ==> is_upper_hex_digit(#[trigger] s[i])
}

/// The hexadecimal form has two digits per byte, each `0`-`9` or `A`-`F`.
pub proof fn lemma_hex_upper_shape(bytes: Seq<u8>)
    ensures
        hex_upper_spec(bytes).len() == 2 * bytes.len(),
        forall|i: int|
            0 <= i < hex_upper_spec(bytes).len() ==> is_upper_hex_digit(
                #[trigger] hex_upper_spec(bytes)[i],
            ),
    decreases bytes.len(),
{
    if bytes.len() > 0 {
        lemma_hex_upper_shape(bytes.drop_last());
        let prev = hex_upper_spec(bytes.drop_last());
        let hi = (bytes.last() / 16) as int;
        let lo = (bytes.last() % 16) as int;
        assert(is_upper_hex_digit(hex_digit_upper(hi)));
        assert(is_upper_hex_digit(hex_digit_upper(lo)));
        let h = hex_upper_spec(bytes);
        assert forall|i: int| 0 <= i < h.len() implies is_upper_hex_digit(#[trigger] h[i]) by {
            if i < prev.len() {
                assert(h[i] == prev[i]);
            }
        }
    }
}

/// Trusted: `hex::encode_upper` maps each byte to its high and then its low nibble, each written
/// with the digits `0123456789ABCDEF`.
#[verifier::external_body]
fn hex_encode_upper(data: &[u8]) -> (r: String)
    ensures
        r@ == hex_upper_spec(data@),
{
    hex::encode_upper(data)
}

/// The SHA-1 of `data` as 40 upper-case hexadecimal digits.
pub fn calculate_sha1(data: &[u8]) -> (r: String)
    ensures
        r@ == hex_upper_spec(sha1_digest_of(data@)),
        is_sha1_hex(r@),
{
    let digest = sha1_digest(data);
    proof {
        lemma_hex_upper_shape(digest@);
    }
    hex_encode_upper(digest.as_slice())
}

/// The verdict on an `S4.exe`.
#[derive(Debug)]
pub struct ValidationResult {
    pub is_valid: bool,
    pub hash: String,
    pub message: String,
}

pub open spec fn valid_message() -> Seq<char> {
    "Valid GOG Gold Edition v2.50.1508 detected"@
}

pub open spec fn invalid_message(hash: Seq<char>) -> Seq<char> {
    "Invalid S4.exe hash: "@ + hash + "\nThis is not a recognized GOG Gold Edition v2.50.1508 version.\nPatching is not allowed for safety reasons."@
}

/// The verdict for an executable whose SHA-1 is `hash`: valid exactly when `hash` is a known
/// GOG Gold Edition hash.
pub fn validation_for_hash(hash: String) -> (r: ValidationResult)
    ensures
        r.is_valid == known_gog_s4_exe_hashes_spec().contains(hash@),
        r.hash@ == hash@,
        r.message@ == if r.is_valid {
            valid_message()
        } else {
            invalid_message(hash@)
        },
{
    let known = String::from_str("F4C2B5D0C3B9C2BB250F69CFB18D8B98A9061981");
    let is_valid = hash == known;
    proof {
        let ks = known_gog_s4_exe_hashes_spec();
        if ks.contains(hash@) {
            let i = choose|i: int| 0 <= i < ks.len() && ks[i] == hash@;
            assert(i == 0);
        }
        if is_valid {
            assert(ks[0] == hash@);
        }
    }
    let message = if is_valid {
        String::from_str("Valid GOG Gold Edition v2.50.1508 detected")
    } else {
        let mut m = String::from_str("Invalid S4.exe hash: ");
        m.append(hash.as_str());
        m.append(
            "\nThis is not a recognized GOG Gold Edition v2.50.1508 version.\nPatching is not allowed for safety reasons.",
        );
        m
    };
    ValidationResult { is_valid, hash, message }
}

/// The verdict on the executable whose bytes are `exe_data`.
pub fn validate_gog_version(exe_data: &[u8]) -> (r: ValidationResult)
    ensures
        r.hash@ == hex_upper_spec(sha1_digest_of(exe_data@)),
        is_sha1_hex(r.hash@),
        r.is_valid == known_gog_s4_exe_hashes_spec().contains(r.hash@),
        r.message@ == if r.is_valid {
            valid_message()
        } else {
            invalid_message(r.hash@)
        },
{
    let hash = calculate_sha1(exe_data);
    validation_for_hash(hash)
}

} // verus!
