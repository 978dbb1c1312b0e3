//! Content hashes in the `sha256:<lowercase hex>` form used for input
//! snapshots and handler manifests.

use vstd::prelude::*;
use sha2::Digest;
use crate::text::push_char;

verus! {

/// The SHA-256 digest of `data`, as computed by the `sha2` crate.
pub uninterp spec fn sha256(data: Seq<u8>) -> Seq<u8>;

/// Calls `sha2::Sha256::digest`. Its contract names the result `sha256(data)`
/// and states the 32-byte output length that the crate documents; the
/// algorithm itself is not stated.
#[verifier::external_body]
fn sha256_digest(data: &[u8]) -> (d: Vec<u8>)
    ensures
        d@ == sha256(data@),
        d@.len() == 32,
{
    sha2::Sha256::digest(data).to_vec()
}

/// A lowercase hexadecimal digit.
pub open spec fn hex_digit(n: nat) -> char {
    if n < 10 {
        crate::text::digit_char(n)
    } else if n == 10 { 'a' }
    else if n == 11 { 'b' }
    else if n == 12 { 'c' }
    else if n == 13 { 'd' }
    else if n == 14 { 'e' }
    else { 'f' }
}

/// Each byte as two lowercase hex digits, high nibble first.
pub open spec fn lower_hex(b: Seq<u8>) -> Seq<char>
    decreases b.len(),
{
    if b.len() == 0 {
        Seq::empty()
    } else {
        lower_hex(b.drop_last()) + seq![hex_digit((b.last() / 16) as nat), hex_digit((b.last() % 16) as nat)]
    }
}

/// The tagged hash text of `data`: `sha256:` and the digest in lowercase hex.
pub open spec fn sha256_tag(data: Seq<u8>) -> Seq<char> {
    "sha256:"@ + lower_hex(sha256(data))
}

fn hex_char(n: u8) -> (c: char)
    requires
        n < 16,
    ensures
        c == hex_digit(n as nat),
{
    if n == 0 { '0' }
    else if n == 1 { '1' }
    else if n == 2 { '2' }
    else if n == 3 { '3' }
    else if n == 4 { '4' }
    else if n == 5 { '5' }
    else if n == 6 { '6' }
    else if n == 7 { '7' }
    else if n == 8 { '8' }
    else if n == 9 { '9' }
    else if n == 10 { 'a' }
    else if n == 11 { 'b' }
    else if n == 12 { 'c' }
    else if n == 13 { 'd' }
    else if n == 14 { 'e' }
    else { 'f' }
}

/// Appends `bytes` in lowercase hex.
pub fn push_lower_hex(s: &mut String, bytes: &Vec<u8>)
    ensures
        final(s)@ == old(s)@ + lower_hex(bytes@),
{
    let mut i: usize = 0;
    while i < bytes.len()
        invariant
            i <= bytes@.len(),
            s@ == old(s)@ + lower_hex(bytes@.take(i as int)),
        decreases bytes@.len() - i,
    {
        let b = bytes[i];
        push_char(s, hex_char(b / 16));
        push_char(s, hex_char(b % 16));
        proof {
            let t = bytes@.take(i + 1);
            assert(t.drop_last() =~= bytes@.take(i as int));
            assert(t.last() == b);
            assert(s@ =~= old(s)@ + lower_hex(t));
        }
        i = i + 1;
    }
    proof { assert(bytes@.take(bytes@.len() as int) =~= bytes@); }
}

/// `sha256:` followed by the lowercase hex SHA-256 digest of `data`.
pub fn sha256_tagged(data: &[u8]) -> (h: String)
    ensures
        h@ == sha256_tag(data@),
{
    let d = sha256_digest(data);
    let mut h = "sha256:".to_string();
    push_lower_hex(&mut h, &d);
    h
}

/// The content hash of a handler manifest's YAML bytes, as recorded on
/// handler instances and in run metadata.
pub fn manifest_hash(manifest_yaml_bytes: &[u8]) -> (h: String)
    ensures
        h@ == sha256_tag(manifest_yaml_bytes@),
{
    sha256_tagged(manifest_yaml_bytes)
}

} // verus!
