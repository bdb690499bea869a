//! The fingerprint of a file's content: its SHA-256 digest, written in
//! lowercase hexadecimal digits.

use sha2::Digest;
use vstd::prelude::*;
use crate::text::is_space;
use crate::text::trim;
use crate::text::trim_end;
use crate::text::trim_start;

verus! {

/// The SHA-256 digest of `data`.
pub uninterp spec fn sha256(data: Seq<u8>) -> Seq<u8>;

/// Computes the digest of `data` with `Sha256::digest` of sha2. The result
/// is what `sha256` names, and it has 32 bytes. That it is the SHA-256 digest
/// is sha2's word, not proved here.
#[verifier::external_body]
pub(crate) fn digest(data: &[u8]) -> (r: Vec<u8>)
    ensures
        r@ == sha256(data@),
        r@.len() == 32,
{
    sha2::Sha256::digest(data).to_vec()
}

/// The lowercase hexadecimal digit of a number below sixteen.
pub open spec fn hex_digit(n: u8) -> char {
    if n < 10 {
        (('0' as u8 + n) as u8) as char
    } else {
        (('a' as u8 + n - 10) as u8) as char
    }
}

/// A lowercase hexadecimal digit.
pub open spec fn is_hex_digit(c: char) -> bool {
    ('0' <= c && c <= '9') || ('a' <= c && c <= 'f')
}

/// The bytes of `bytes` in lowercase hexadecimal digits, two for each byte,
/// the high half first.
pub open spec fn hex_text(bytes: Seq<u8>) -> Seq<char>
    decreases bytes.len(),
{
    if bytes.len() == 0 {
        Seq::empty()
    } else {
        hex_text(bytes.drop_last()).push(hex_digit(bytes.last() / 16)).push(
            hex_digit(bytes.last() % 16),
        )
    }
}

/// The SHA-256 digest of `data`, written as lowercase hexadecimal digits.
pub open spec fn sha256_hex(data: Seq<u8>) -> Seq<char> {
    hex_text(sha256(data))
}

/// A hexadecimal text has two digits for each byte, and nothing but
/// lowercase hexadecimal digits.
pub proof fn lemma_hex_text(bytes: Seq<u8>)
    ensures
        hex_text(bytes).len() == 2 * bytes.len(),
        forall|i: int| 0 <= i < hex_text(bytes).len() ==> is_hex_digit(#[trigger] hex_text(bytes)[i]),
    decreases bytes.len(),
{
    if bytes.len() > 0 {
        lemma_hex_text(bytes.drop_last());
        let b = bytes.last();
        assert(is_hex_digit(hex_digit(b / 16)));
        assert(is_hex_digit(hex_digit(b % 16)));
    }
}

/// Trimming a text that neither begins nor ends with white space changes
/// nothing.
pub proof fn lemma_trim_nothing(s: Seq<char>)
    requires
        s.len() > 0 ==> !is_space(s[0]) && !is_space(s.last()),
    ensures
        trim(s) == s,
{
    assert(trim_start(s) == s);
    assert(trim_end(s) == s);
}

/// A digest in hexadecimal digits has no white space around it: trimming
/// it changes nothing.
pub proof fn lemma_digest_is_trimmed(data: Seq<u8>)
    ensures
        trim(sha256_hex(data)) == sha256_hex(data),
{
    let h = sha256_hex(data);
    lemma_hex_text(sha256(data));
    if h.len() > 0 {
        assert(is_hex_digit(h[0]));
        assert(is_hex_digit(h[h.len() - 1]));
    }
    lemma_trim_nothing(h);
}

/// Writes `bytes` in lowercase hexadecimal digits.
pub fn to_hex(bytes: &Vec<u8>) -> (r: String)
    ensures
        r@ == hex_text(bytes@),
{
    let mut r = String::new();
    let mut i: usize = 0;
    assert(bytes@.take(0) =~= Seq::empty());
    while i < bytes.len()
        invariant
            i <= bytes.len(),
            r@ == hex_text(bytes@.take(i as int)),
        decreases bytes.len() - i,
    {
        let b = bytes[i];
        assert(bytes@.take(i + 1).drop_last() =~= bytes@.take(i as int));
        assert(bytes@.take(i + 1).last() == b);
        r.push(hex_char(b / 16));
        r.push(hex_char(b % 16));
        i += 1;
    }
    assert(bytes@.take(i as int) =~= bytes@);
    r
}

/// The lowercase hexadecimal digit of a number below sixteen.
fn hex_char(n: u8) -> (c: char)
    requires
        n < 16,
    ensures
        c == hex_digit(n),
{
    if n < 10 {
        (48u8 + n) as char
    } else {
        (87u8 + n) as char
    }
}

/// Calculates the SHA-256 digest of `data` and writes it in lowercase
/// hexadecimal digits.
pub fn calculate_hash(data: &[u8]) -> (r: String)
    ensures
        r@ == sha256_hex(data@),
        r@.len() == 64,
{
    let bytes = digest(data);
    proof {
        lemma_hex_text(bytes@);
    }
    to_hex(&bytes)
}

} // verus!
