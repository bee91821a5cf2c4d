//! Content hashes: BLAKE3 and SHA-256 through their crates, and their
//! lowercase hexadecimal text.

use sha2::Digest as _;
use vstd::prelude::*;

verus! {

/// The BLAKE3 hash of `data`, 32 bytes.
pub uninterp spec fn blake3_of(data: Seq<u8>) -> Seq<u8>;

/// The SHA-256 hash of `data`, 32 bytes.
pub uninterp spec fn sha256_of(data: Seq<u8>) -> Seq<u8>;

/// The input a BLAKE3 hasher has taken so far.
pub uninterp spec fn blake3_hasher_input(hasher: Blake3State) -> Seq<u8>;

/// The input a SHA-256 hasher has taken so far.
pub uninterp spec fn sha256_hasher_input(hasher: Sha256State) -> Seq<u8>;

/// A plain (unkeyed) BLAKE3 hasher. Its field is private to this module and
/// only `blake3_hasher_new` builds one, so it never holds a keyed or
/// derive-key hasher, nor one with an input offset set.
#[verifier::external_body]
pub struct Blake3State {
    hasher: blake3::Hasher,
}

/// A SHA-256 hasher. (`sha2::Sha256` is an alias of a deep stack of generic
/// wrappers that Verus cannot take as a declared type, so the hasher is held
/// here and only the wrappers below touch it.)
#[verifier::external_body]
pub struct Sha256State {
    hasher: sha2::Sha256,
}

/// The character of a hexadecimal digit `n < 16`, lowercase.
pub open spec fn hex_digit(n: u8) -> char {
    if n < 10 {
        (('0' as u8) + n) as char
    } else {
        (('a' as u8) + n - 10) as char
    }
}

/// The lowercase hexadecimal text of `bytes`: two digits per byte, high
/// nibble first.
pub open spec fn lower_hex(bytes: Seq<u8>) -> Seq<char>
    decreases bytes.len(),
{
    if bytes.len() == 0 {
        Seq::empty()
    } else {
        lower_hex(bytes.drop_last()) + seq![
            hex_digit(bytes.last() / 16),
            hex_digit(bytes.last() % 16),
        ]
    }
}

/// The hexadecimal text of `bytes` is twice as long, and every character is
/// an ASCII digit or lowercase letter `a` to `f`.
pub proof fn lemma_lower_hex_shape(bytes: Seq<u8>)
    ensures
        lower_hex(bytes).len() == 2 * bytes.len(),
        forall|i: int|
            0 <= i < lower_hex(bytes).len() ==> {
                let c = #[trigger] lower_hex(bytes)[i];
                ('0' <= c <= '9') || ('a' <= c <= 'f')
            },
    decreases bytes.len(),
{
    if bytes.len() > 0 {
        lemma_lower_hex_shape(bytes.drop_last());
        let b = bytes.last();
        assert(b / 16 < 16);
        assert(b % 16 < 16);
    }
}

/// The hexadecimal text of a 32-byte hash is a valid digest hash: 64
/// lowercase hexadecimal bytes.
pub proof fn lemma_lower_hex_identity(bytes: Seq<u8>)
    requires
        bytes.len() == 32,
    ensures
        crate::model::is_hex_identity(crate::text::utf8(lower_hex(bytes))),
{
    let text = lower_hex(bytes);
    lemma_lower_hex_shape(bytes);
    assert(vstd::utf8::is_ascii_chars(text));
    vstd::utf8::is_ascii_chars_encode_utf8(text);
    let enc = crate::text::utf8(text);
    assert forall|i: int| 0 <= i < enc.len() implies crate::model::is_lower_hex_byte(#[trigger] enc[i]) by {
        assert(text[i] as u8 == enc[i]);
        let c = text[i];
        assert(('0' <= c <= '9') || ('a' <= c <= 'f'));
    }
}

/// `blake3::hash`: the BLAKE3 hash of `data`.
#[verifier::external_body]
pub(crate) fn blake3_digest(data: &[u8]) -> (r: [u8; 32])
    ensures
        r@ == blake3_of(data@),
{
    *blake3::hash(data).as_bytes()
}

/// `blake3::Hash::to_hex`: the hash as 64 lowercase hexadecimal digits.
#[verifier::external_body]
pub(crate) fn blake3_hex(hash: [u8; 32]) -> (r: String)
    ensures
        r@ == lower_hex(hash@),
{
    blake3::Hash::from_bytes(hash).to_hex().to_string()
}

/// `hex::encode`: the bytes as lowercase hexadecimal digits.
#[verifier::external_body]
pub(crate) fn hex_encode(bytes: [u8; 32]) -> (r: String)
    ensures
        r@ == lower_hex(bytes@),
{
    hex::encode(bytes)
}

/// `blake3::Hasher::new`: a plain hasher that has taken no input.
#[verifier::external_body]
pub(crate) fn blake3_hasher_new() -> (r: Blake3State)
    ensures
        blake3_hasher_input(r) == Seq::<u8>::empty(),
{
    Blake3State { hasher: blake3::Hasher::new() }
}

/// `blake3::Hasher::update`: the hasher takes `chunk` after its input. (The
/// hasher is a plain one from `blake3_hasher_new` with no input offset, so
/// `update`'s subtree assertion cannot fire.)
#[verifier::external_body]
pub(crate) fn blake3_hasher_update(hasher: &mut Blake3State, chunk: &[u8])
    ensures
        blake3_hasher_input(*final(hasher)) == blake3_hasher_input(*old(hasher)) + chunk@,
{
    hasher.hasher.update(chunk);
}

/// `blake3::Hasher::finalize`: the plain BLAKE3 hash of all the input taken.
/// (The hasher comes from `blake3_hasher_new`: it is unkeyed and has no
/// input offset; `finalize` panics only when an input offset is set.)
#[verifier::external_body]
pub(crate) fn blake3_hasher_finalize(hasher: &Blake3State) -> (r: [u8; 32])
    ensures
        r@ == blake3_of(blake3_hasher_input(*hasher)),
{
    *hasher.hasher.finalize().as_bytes()
}

/// `sha2::Sha256::new`: a hasher that has taken no input.
#[verifier::external_body]
pub(crate) fn sha256_hasher_new() -> (r: Sha256State)
    ensures
        sha256_hasher_input(r) == Seq::<u8>::empty(),
{
    Sha256State { hasher: sha2::Sha256::new() }
}

/// `sha2::Sha256::update`: the hasher takes `chunk` after its input.
#[verifier::external_body]
pub(crate) fn sha256_hasher_update(hasher: &mut Sha256State, chunk: &[u8])
    ensures
        sha256_hasher_input(*final(hasher)) == sha256_hasher_input(*old(hasher)) + chunk@,
{
    hasher.hasher.update(chunk);
}

/// `sha2::Sha256::finalize`: the SHA-256 hash of all the input taken.
#[verifier::external_body]
pub(crate) fn sha256_hasher_finalize(hasher: Sha256State) -> (r: [u8; 32])
    ensures
        r@ == sha256_of(sha256_hasher_input(hasher)),
{
    hasher.hasher.finalize().into()
}

} // verus!
