//! Stable byte keys for accounts and ordered account pairs.
//!
//! An account's key is the SHA-256 digest of its UTF-8 bytes. An ordered
//! pair's key is the SHA-256 digest of the pair's canonical byte form: each
//! account's UTF-8 bytes prefixed with their length as four little-endian
//! bytes. The canonical form is proved injective, so two distinct ordered
//! pairs never share a canonical form; in particular reversing a pair of two
//! distinct accounts changes it.

use vstd::prelude::*;
use vstd::bytes::{lemma_auto_spec_u32_to_from_le_bytes, spec_u32_to_le_bytes, u32_to_le_bytes};
use vstd::string::StrSliceExecFns;
use vstd::utf8::{encode_utf8, encode_utf8_decode_utf8};

verus! {

/// The UTF-8 byte form of a string value.
pub open spec fn utf8_of(s: Seq<char>) -> Seq<u8> {
    encode_utf8(s)
}

/// Whether a string's UTF-8 form is short enough for its four-byte length
/// prefix; every account a host hands over satisfies this.
pub open spec fn fits_len_prefix(s: Seq<char>) -> bool {
    utf8_of(s).len() <= u32::MAX
}

/// Canonical byte form of the ordered pair `(from, to)`: the length-prefixed
/// UTF-8 bytes of `from`, then those of `to`.
pub open spec fn encode_pair(from: Seq<char>, to: Seq<char>) -> Seq<u8> {
    spec_u32_to_le_bytes(utf8_of(from).len() as u32) + utf8_of(from)
        + spec_u32_to_le_bytes(utf8_of(to).len() as u32) + utf8_of(to)
}

/// What SHA-256 returns on the given bytes; a function of the bytes alone.
pub uninterp spec fn sha256_of(bytes: Seq<u8>) -> Seq<u8>;

/// The stable byte key of one account.
pub open spec fn account_hash_of(account: Seq<char>) -> Seq<u8> {
    sha256_of(utf8_of(account))
}

/// The stable byte key of the ordered pair `(from, to)`.
pub open spec fn pair_hash_of(from: Seq<char>, to: Seq<char>) -> Seq<u8> {
    sha256_of(encode_pair(from, to))
}

/// Relies on `sha2::Sha256::digest`: the SHA-256 digest of the input bytes,
/// 32 bytes long and a function of the input alone.
#[verifier::external_body]
fn sha256_digest(bytes: &[u8]) -> (r: Vec<u8>)
    ensures
        r@ == sha256_of(bytes@),
        r@.len() == 32,
{
    <sha2::Sha256 as sha2::Digest>::digest(bytes).to_vec()
}

/// The byte key under which an account's encryption key is stored.
pub fn hash_account(account_id: &str) -> (r: Vec<u8>)
    ensures
        r@ == account_hash_of(account_id@),
        r@.len() == 32,
{
    sha256_digest(account_id.as_bytes())
}

/// Builds the canonical byte form of the ordered pair `(from, to)`.
pub fn encode_account_pair(from: &str, to: &str) -> (r: Vec<u8>)
    requires
        fits_len_prefix(from@),
        fits_len_prefix(to@),
    ensures
        r@ == encode_pair(from@, to@),
{
    let mut out: Vec<u8> = u32_to_le_bytes(from.len() as u32);
    let mut from_bytes: Vec<u8> = from.as_bytes_vec();
    out.append(&mut from_bytes);
    let mut to_prefix: Vec<u8> = u32_to_le_bytes(to.len() as u32);
    out.append(&mut to_prefix);
    let mut to_bytes: Vec<u8> = to.as_bytes_vec();
    out.append(&mut to_bytes);
    out
}

/// An ordered pair of accounts: the directed edge `from -> to`.
pub struct AccountPair {
    pub from_account_id: String,
    pub to_account_id: String,
}

impl AccountPair {
    /// The opposite directed edge.
    pub fn reverse(&self) -> (r: Self)
        ensures
            r.from_account_id@ == self.to_account_id@,
            r.to_account_id@ == self.from_account_id@,
    {
        Self {
            from_account_id: self.to_account_id.clone(),
            to_account_id: self.from_account_id.clone(),
        }
    }

    /// The stable byte key of this directed edge.
    pub fn hash(&self) -> (r: Vec<u8>)
        requires
            fits_len_prefix(self.from_account_id@),
            fits_len_prefix(self.to_account_id@),
        ensures
            r@ == pair_hash_of(self.from_account_id@, self.to_account_id@),
            r@.len() == 32,
    {
        let encoded = encode_account_pair(self.from_account_id.as_str(), self.to_account_id.as_str());
        sha256_digest(encoded.as_slice())
    }
}

/// The canonical pair encoding is injective: equal byte forms come only from
/// equal ordered pairs.
pub proof fn lemma_encode_pair_injective(f1: Seq<char>, t1: Seq<char>, f2: Seq<char>, t2: Seq<char>)
    requires
        fits_len_prefix(f1),
        fits_len_prefix(t1),
        fits_len_prefix(f2),
        fits_len_prefix(t2),
        encode_pair(f1, t1) == encode_pair(f2, t2),
    ensures
        f1 == f2,
        t1 == t2,
{
    lemma_auto_spec_u32_to_from_le_bytes();
    encode_utf8_decode_utf8(f1);
    encode_utf8_decode_utf8(f2);
    encode_utf8_decode_utf8(t1);
    encode_utf8_decode_utf8(t2);
    let a1 = utf8_of(f1);
    let a2 = utf8_of(f2);
    let b1 = utf8_of(t1);
    let b2 = utf8_of(t2);
    let e = encode_pair(f1, t1);
    assert(spec_u32_to_le_bytes(a1.len() as u32) =~= e.subrange(0, 4));
    assert(spec_u32_to_le_bytes(a2.len() as u32) =~= e.subrange(0, 4));
    assert(a1.len() == a2.len());
    let alen = a1.len() as int;
    assert(a1 =~= e.subrange(4, 4 + alen));
    assert(a2 =~= e.subrange(4, 4 + alen));
    assert(f1 == f2);
    assert(spec_u32_to_le_bytes(b1.len() as u32) =~= e.subrange(4 + alen, 8 + alen));
    assert(spec_u32_to_le_bytes(b2.len() as u32) =~= e.subrange(4 + alen, 8 + alen));
    assert(b1.len() == b2.len());
    let blen = b1.len() as int;
    assert(b1 =~= e.subrange(8 + alen, 8 + alen + blen));
    assert(b2 =~= e.subrange(8 + alen, 8 + alen + blen));
    assert(t1 == t2);
}

/// Reversing a pair of two distinct accounts changes its canonical byte form,
/// so the mailbox's two directions cannot share a stored key unless the
/// digest itself collides.
pub proof fn lemma_encode_pair_directional(a: Seq<char>, b: Seq<char>)
    requires
        fits_len_prefix(a),
        fits_len_prefix(b),
        a != b,
    ensures
        encode_pair(a, b) != encode_pair(b, a),
{
    if encode_pair(a, b) == encode_pair(b, a) {
        lemma_encode_pair_injective(a, b, b, a);
    }
}

} // verus!
