//! SHA-256 content identities rendered as lowercase hexadecimal.

use vstd::prelude::*;
use sha2::Digest;
use crate::fmt::{hex_fixed, hex_fixed_vec};
use crate::text::{extend_all, string_of};

verus! {

/// The SHA-256 digest of a byte sequence (FIPS 180-4), as its 32 bytes.
pub uninterp spec fn sha256(data: Seq<u8>) -> Seq<u8>;

/// `sha2::Sha256::digest`: the 32-byte SHA-256 digest of the input, a function
/// of the input bytes alone.
#[verifier::external_body]
fn sha256_digest(data: &[u8]) -> (r: Vec<u8>)
    ensures
        r@ == sha256(data@),
        r@.len() == 32,
{
    sha2::Sha256::digest(data).to_vec()
}

/// Each byte as two lowercase hexadecimal digits (`format!("{:x}", digest)`).
pub open spec fn hex_bytes(bytes: Seq<u8>) -> Seq<char>
    decreases bytes.len(),
{
    if bytes.len() == 0 {
        seq![]
    } else {
        hex_bytes(bytes.drop_last()) + hex_fixed(bytes.last() as nat, 2)
    }
}

/// The lowercase hexadecimal SHA-256 of a byte sequence.
pub open spec fn sha256_hex(data: Seq<u8>) -> Seq<char> {
    hex_bytes(sha256(data))
}

/// The hexadecimal SHA-256 of bytes whose digest is 32 bytes long has the
/// digest form: 64 lowercase hexadecimal digits.
proof fn lemma_sha256_hex_form(data: Seq<u8>)
    requires
        sha256(data).len() == 32,
    ensures
        crate::blind_review::sha256_hex_form(sha256_hex(data)),
{
    lemma_hex_bytes_lower(sha256(data));
}

/// Renders bytes as lowercase hexadecimal, two digits per byte.
pub fn hex_encode(bytes: &[u8]) -> (r: Vec<char>)
    ensures
        r@ == hex_bytes(bytes@),
        r@.len() == 2 * bytes@.len(),
{
    let mut out: Vec<char> = Vec::new();
    let mut i: usize = 0;
    while i < bytes.len()
        invariant
            i <= bytes.len(),
            out@ == hex_bytes(bytes@.take(i as int)),
            out@.len() == 2 * i,
        decreases bytes.len() - i,
    {
        assert(bytes@.take(i + 1).drop_last() =~= bytes@.take(i as int));
        let h = hex_fixed_vec(bytes[i] as u64, 2);
        extend_all(&mut out, &h);
        assert(hex_fixed(bytes@[i as int] as nat, 2).len() == 2) by {
            reveal_with_fuel(hex_fixed, 3);
        }
        i += 1;
    }
    assert(bytes@.take(bytes@.len() as int) =~= bytes@);
    out
}

/// Every character of a fixed-width rendering is a lowercase hexadecimal
/// digit.
pub proof fn lemma_hex_fixed_lower(n: nat, width: nat)
    ensures
        forall|k: int| 0 <= k < hex_fixed(n, width).len() ==> crate::blind_review::is_lower_hex(
            #[trigger] hex_fixed(n, width)[k],
        ),
        hex_fixed(n, width).len() == width,
    decreases width,
{
    if width > 0 {
        lemma_hex_fixed_lower(n / 16, (width - 1) as nat);
        let d = (n % 16) as int;
        let c = crate::fmt::digit_char(d);
        if d < 10 {
            assert(48 <= (48 + d) as u8 <= 57);
            assert('0' <= c && c <= '9');
        } else {
            assert(97 <= (87 + d) as u8 <= 102);
            assert('a' <= c && c <= 'f');
        }
        let h = hex_fixed(n, width);
        assert(h == hex_fixed(n / 16, (width - 1) as nat).push(c));
        assert forall|k: int| 0 <= k < h.len() implies crate::blind_review::is_lower_hex(#[trigger] h[k]) by {
            if k < h.len() - 1 {
                assert(h[k] == hex_fixed(n / 16, (width - 1) as nat)[k]);
            }
        }
    }
}

/// The hexadecimal rendering of bytes is two lowercase hexadecimal digits per
/// byte.
pub proof fn lemma_hex_bytes_lower(bytes: Seq<u8>)
    ensures
        hex_bytes(bytes).len() == 2 * bytes.len(),
        forall|k: int| 0 <= k < hex_bytes(bytes).len() ==> crate::blind_review::is_lower_hex(
            #[trigger] hex_bytes(bytes)[k],
        ),
    decreases bytes.len(),
{
    if bytes.len() > 0 {
        lemma_hex_bytes_lower(bytes.drop_last());
        lemma_hex_fixed_lower(bytes.last() as nat, 2);
        let a = hex_bytes(bytes.drop_last());
        let b = hex_fixed(bytes.last() as nat, 2);
        assert(hex_bytes(bytes) == a + b);
        assert forall|k: int| 0 <= k < (a + b).len() implies crate::blind_review::is_lower_hex(#[trigger] (a + b)[k]) by {
            if k < a.len() {
                assert((a + b)[k] == a[k]);
            } else {
                assert((a + b)[k] == b[k - a.len()]);
            }
        }
    }
}

/// The lowercase hexadecimal SHA-256 digest of the bytes: a content identity
/// that depends only on the bytes.
pub fn stable_hash(bytes: &[u8]) -> (r: String)
    ensures
        r@ == sha256_hex(bytes@),
        r@.len() == 64,
        crate::blind_review::sha256_hex_form(r@),
{
    let d = sha256_digest(bytes);
    proof {
        lemma_sha256_hex_form(bytes@);
    }
    let h = hex_encode(d.as_slice());
    string_of(&h)
}

} // verus!
