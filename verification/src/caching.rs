//! Names of the precompiled-module cache: the directory and suffixes it
//! uses, and the file name a path inside a runner archive is stored under.

use vstd::prelude::*;
use vstd::arithmetic::power2::pow2;
use vstd::string::*;

verus! {

/// The suffixes of the deterministic and non-deterministic compilations.
#[derive(Debug, Clone, Copy)]
pub struct DetNonDetSuffixes {
    pub det: &'static str,
    pub non_det: &'static str,
}

/// Directory of precompiled modules in the cache.
pub const PRECOMPILE_DIR_NAME: &'static str = "pc";

/// The suffixes of the two compilations of a module.
pub fn det_non_det_precompiled_suffix() -> (r: DetNonDetSuffixes)
    ensures
        r.det@ == "det"@,
        r.non_det@ == "non-det"@,
{
    DetNonDetSuffixes { det: "det", non_det: "non-det" }
}

/// The SHA3-224 digest of some bytes.
pub uninterp spec fn sha3_224(data: Seq<u8>) -> Seq<u8>;

/// `sha3::Sha3_224`: the 28-byte digest of `data`.
#[verifier::external_body]
fn sha3_224_digest(data: &[u8]) -> (r: Vec<u8>)
    ensures
        r@ == sha3_224(data@),
        r@.len() == 28,
{
    let mut hasher = <sha3::Sha3_224 as sha3::Digest>::new();
    sha3::Digest::update(&mut hasher, data);
    sha3::Digest::finalize(hasher).to_vec()
}

/// Bit `i` of a byte string, most significant bit of each byte first; zero
/// past the end.
pub open spec fn data_bit(b: Seq<u8>, i: int) -> int {
    if 0 <= i < 8 * b.len() {
        (b[i / 8] as int / pow2((7 - i % 8) as nat) as int) % 2
    } else {
        0
    }
}

/// The value of the `j`-th group of five bits.
pub open spec fn group_value(b: Seq<u8>, j: int) -> int {
    16 * data_bit(b, 5 * j) + 8 * data_bit(b, 5 * j + 1) + 4 * data_bit(b, 5 * j + 2) + 2 * data_bit(
        b,
        5 * j + 3,
    ) + data_bit(b, 5 * j + 4)
}

/// The RFC 4648 base32 digit of a value below 32: `A`-`Z`, then `2`-`7`.
pub open spec fn base32_digit(v: int) -> char {
    if v < 26 {
        (65 + v) as char
    } else {
        (24 + v) as char
    }
}

/// RFC 4648 base32 without padding: one digit per five bits, the last
/// group filled up with zero bits.
pub open spec fn base32_spec(b: Seq<u8>) -> Seq<char> {
    Seq::new(((8 * b.len() + 4) / 5) as nat, |j: int| base32_digit(group_value(b, j)))
}

/// `base32::encode` with the RFC 4648 alphabet and no padding.
#[verifier::external_body]
fn base32_encode(data: &[u8]) -> (r: String)
    ensures
        r@ == base32_spec(data@),
{
    base32::encode(base32::Alphabet::Rfc4648 { padding: false }, data)
}

/// The cache file name of a path inside a runner archive: the base32 of the
/// SHA3-224 digest of the path's UTF-8 bytes.
pub fn path_in_zip_to_hash(path: &str) -> (r: String)
    ensures
        r@ == base32_spec(sha3_224(path.spec_bytes())),
{
    let digest = sha3_224_digest(path.as_bytes());
    base32_encode(digest.as_slice())
}

} // verus!
