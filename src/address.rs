//! Seed-based address derivation and the text predicates that the pool
//! relies on.

use vstd::prelude::*;
use vstd::std_specs::iter::IteratorSpec;
use vstd::string::StringSliceAdditionalSpecFns;
use solana_sdk::pubkey::{Pubkey, PubkeyError};

verus! {

/// Number of characters in every seed this library draws or accepts.
pub const SEED_LEN: usize = 32;

/// Longest seed, in bytes, that seed-based derivation accepts.
pub const MAX_SEED_BYTES: usize = 32;

/// A public key as its 32 raw bytes.
#[derive(Clone, Copy, PartialEq, Eq, Debug)]
pub struct PublicKey {
    pub bytes: [u8; 32],
}

/// Why a derivation attempt was refused.
#[derive(Clone, Copy, PartialEq, Eq, Debug, Structural)]
pub enum DerivationError {
    /// The seed is not made of exactly `SEED_LEN` ASCII letters and digits.
    InvalidSeed,
    /// The namespace key ends with the marker reserved for program-derived
    /// addresses.
    IllegalOwner,
}

/// An ASCII letter or digit.
pub open spec fn is_alphanumeric(c: char) -> bool {
    ('a' <= c && c <= 'z') || ('A' <= c && c <= 'Z') || ('0' <= c && c <= '9')
}

/// A seed of the derivation scheme: `SEED_LEN` ASCII letters and digits.
pub open spec fn valid_seed(s: Seq<char>) -> bool {
    &&& s.len() == SEED_LEN
    &&& forall|i: int| 0 <= i < s.len() ==> is_alphanumeric(#[trigger] s[i])
}

/// `s` ends with `t`.
pub open spec fn ends_with(s: Seq<char>, t: Seq<char>) -> bool {
    t.len() <= s.len() && s.subrange(s.len() - t.len(), s.len() as int) == t
}

/// The bytes of "ProgramDerivedAddress".
pub open spec fn pda_marker() -> Seq<u8> {
    seq![80u8, 114, 111, 103, 114, 97, 109, 68, 101, 114, 105, 118, 101, 100, 65, 100, 100, 114, 101, 115, 115]
}

/// A namespace key that seed-based derivation refuses as owner.
pub open spec fn illegal_owner(owner: Seq<u8>) -> bool {
    owner.len() >= pda_marker().len()
        && owner.subrange(owner.len() - pda_marker().len(), owner.len() as int) == pda_marker()
}

/// The bytes of the token program's key,
/// TokenkegQfeZyiNwAJbNbGKPFXCWuBvf9Ss623VQ5DA.
pub open spec fn token_program_bytes() -> Seq<u8> {
    seq![6u8, 221, 246, 225, 215, 101, 161, 147, 217, 203, 225, 70, 206, 235, 121, 172,
        28, 180, 133, 237, 95, 91, 55, 145, 58, 140, 245, 133, 126, 255, 0, 169]
}

/// The key derived from a base key, a seed and an owner key (a SHA-256
/// digest of the three).
pub uninterp spec fn seed_address(base: Seq<u8>, seed: Seq<char>, owner: Seq<u8>) -> Seq<u8>;

/// The base58 text of a key's bytes.
pub uninterp spec fn base58_text(bytes: Seq<u8>) -> Seq<char>;

/// What `derive_address` returns, as byte sequences.
pub open spec fn derive_result(base: Seq<u8>, seed: Seq<char>, owner: Seq<u8>) -> Result<Seq<u8>, DerivationError> {
    if !valid_seed(seed) {
        Err(DerivationError::InvalidSeed)
    } else if illegal_owner(owner) {
        Err(DerivationError::IllegalOwner)
    } else {
        Ok(seed_address(base, seed, owner))
    }
}

/// The text of the address derived from `base`, `seed` and `owner`, when
/// derivation succeeds.
pub open spec fn derived_text(base: Seq<u8>, seed: Seq<char>, owner: Seq<u8>) -> Result<Seq<char>, DerivationError> {
    match derive_result(base, seed, owner) {
        Ok(k) => Ok(base58_text(k)),
        Err(e) => Err(e),
    }
}

/// What seed-based derivation gives for a seed of `seed_bytes` bytes.
pub open spec fn seeded_key(base: Seq<u8>, seed_bytes: nat, seed: Seq<char>, owner: Seq<u8>) -> Result<Seq<u8>, DerivationError> {
    if seed_bytes > MAX_SEED_BYTES {
        Err(DerivationError::InvalidSeed)
    } else if illegal_owner(owner) {
        Err(DerivationError::IllegalOwner)
    } else {
        Ok(seed_address(base, seed, owner))
    }
}

/// A found pair: `address` is the text derived from `seed`, and it ends
/// with `suffix`.
pub open spec fn is_vanity(authority: Seq<u8>, namespace: Seq<u8>, suffix: Seq<char>, seed: Seq<char>, address: Seq<char>) -> bool {
    derived_text(authority, seed, namespace) == Ok::<Seq<char>, DerivationError>(address) && ends_with(address, suffix)
}

/// A derived key, or its error, as byte sequences.
pub open spec fn key_outcome(r: Result<PublicKey, DerivationError>) -> Result<Seq<u8>, DerivationError> {
    match r {
        Ok(k) => Ok(k.bytes@),
        Err(e) => Err(e),
    }
}

/// A derived address text, or its error, as character sequences.
pub open spec fn text_outcome(r: Result<String, DerivationError>) -> Result<Seq<char>, DerivationError> {
    match r {
        Ok(t) => Ok(t@),
        Err(e) => Err(e),
    }
}

/// Relies on `Pubkey::create_with_seed` (solana-pubkey): a seed of more than
/// 32 bytes is refused, then an owner that ends with "ProgramDerivedAddress";
/// otherwise the key is the SHA-256 digest of base, seed and owner.
#[verifier::external_body]
fn create_with_seed(base: &PublicKey, seed: &str, owner: &PublicKey) -> (r: Result<PublicKey, DerivationError>)
    ensures
        key_outcome(r) == seeded_key(base.bytes@, seed.spec_bytes().len(), seed@, owner.bytes@),
        r is Ok ==> r->Ok_0.bytes@ == seed_address(base.bytes@, seed@, owner.bytes@),
{
    let b = Pubkey::new_from_array(base.bytes);
    let o = Pubkey::new_from_array(owner.bytes);
    match Pubkey::create_with_seed(&b, seed, &o) {
        Ok(k) => Ok(PublicKey { bytes: k.to_bytes() }),
        Err(PubkeyError::IllegalOwner) => Err(DerivationError::IllegalOwner),
        Err(_) => Err(DerivationError::InvalidSeed),
    }
}

/// Relies on the `Display` of solana-pubkey's `Pubkey`: the base58 text of
/// its bytes.
#[verifier::external_body]
fn base58_of(key: &PublicKey) -> (r: String)
    ensures
        r@ == base58_text(key.bytes@),
{
    Pubkey::new_from_array(key.bytes).to_string()
}

/// Relies on `spl_token::id()`: the token program's key,
/// TokenkegQfeZyiNwAJbNbGKPFXCWuBvf9Ss623VQ5DA.
#[verifier::external_body]
pub(crate) fn token_program_id() -> (r: PublicKey)
    ensures
        r.bytes@ == token_program_bytes(),
{
    PublicKey { bytes: spl_token::id().to_bytes() }
}

/// The characters of `s`, in order.
pub fn chars_of(s: &str) -> (r: Vec<char>)
    ensures
        r@ == s@,
{
    broadcast use vstd::string::axiom_spec_iter;

    let mut r: Vec<char> = Vec::new();
    for c in it: s.chars()
        invariant
            it.seq() == s@,
            r@ == it.seq().take(it.index() as int),
    {
        r.push(c);
    }
    r
}

/// Whether `c` is an ASCII letter or digit.
pub fn is_alphanumeric_char(c: char) -> (r: bool)
    ensures
        r == is_alphanumeric(c),
{
    ('a' <= c && c <= 'z') || ('A' <= c && c <= 'Z') || ('0' <= c && c <= '9')
}

/// Whether `s` is a seed of the derivation scheme.
pub fn is_valid_seed(s: &str) -> (r: bool)
    ensures
        r == valid_seed(s@),
{
    let cs = chars_of(s);
    if cs.len() != SEED_LEN {
        return false;
    }
    let mut i: usize = 0;
    while i < cs.len()
        invariant
            cs@ == s@,
            i <= cs.len(),
            forall|j: int| 0 <= j < i ==> is_alphanumeric(#[trigger] cs@[j]),
        decreases cs.len() - i,
    {
        if !is_alphanumeric_char(cs[i]) {
            return false;
        }
        i += 1;
    }
    true
}

/// Whether the text `s` ends with the text `t`.
pub fn text_ends_with(s: &str, t: &str) -> (r: bool)
    ensures
        r == ends_with(s@, t@),
{
    let a = chars_of(s);
    let b = chars_of(t);
    if b.len() > a.len() {
        return false;
    }
    let off: usize = a.len() - b.len();
    let mut i: usize = 0;
    while i < b.len()
        invariant
            a@ == s@,
            b@ == t@,
            off + b.len() == a.len(),
            i <= b.len(),
            forall|j: int| 0 <= j < i ==> a@[off + j] == b@[j],
        decreases b.len() - i,
    {
        if a[off + i] != b[i] {
            assert(a@.subrange(off as int, a@.len() as int)[i as int] != b@[i as int]);
            return false;
        }
        i += 1;
    }
    assert(a@.subrange(off as int, a@.len() as int) =~= b@);
    true
}

/// Derives the address of `seed` under `authority` within `namespace`.
///
/// The seed must be `SEED_LEN` ASCII letters and digits; the namespace must
/// not be a key that seed-based derivation refuses as owner. The result
/// depends on the three arguments alone.
pub fn derive_address(authority: &PublicKey, seed: &str, namespace: &PublicKey) -> (r: Result<PublicKey, DerivationError>)
    ensures
        key_outcome(r) == derive_result(authority.bytes@, seed@, namespace.bytes@),
{
    if !is_valid_seed(seed) {
        return Err(DerivationError::InvalidSeed);
    }
    proof {
        broadcast use vstd::string::is_ascii_spec_bytes;
        assert(vstd::string::is_ascii(seed));
        assert(seed.spec_bytes().len() == seed@.len());
    }
    create_with_seed(authority, seed, namespace)
}

/// The base58 text of the address that `derive_address` gives, or its error.
pub fn derive_text(authority: &PublicKey, seed: &str, namespace: &PublicKey) -> (r: Result<String, DerivationError>)
    ensures
        text_outcome(r) == derived_text(authority.bytes@, seed@, namespace.bytes@),
{
    match derive_address(authority, seed, namespace) {
        Ok(k) => Ok(base58_of(&k)),
        Err(e) => Err(e),
    }
}

/// The base58 text of a key.
pub fn key_text(key: &PublicKey) -> (r: String)
    ensures
        r@ == base58_text(key.bytes@),
{
    base58_of(key)
}

/// Deriving twice from the same authority, seed and namespace gives the same
/// outcome: the same key, or the same error.
pub proof fn lemma_derive_deterministic(
    authority: PublicKey,
    seed: Seq<char>,
    namespace: PublicKey,
    first: Result<PublicKey, DerivationError>,
    second: Result<PublicKey, DerivationError>,
)
    requires
        key_outcome(first) == derive_result(authority.bytes@, seed, namespace.bytes@),
        key_outcome(second) == derive_result(authority.bytes@, seed, namespace.bytes@),
    ensures
        key_outcome(first) == key_outcome(second),
        first is Ok <==> second is Ok,
        first is Ok ==> first->Ok_0.bytes@ == second->Ok_0.bytes@,
{
}

/// The token program is a namespace that seed-based derivation accepts.
pub proof fn lemma_token_program_legal(key: PublicKey)
    requires
        key.bytes@ == token_program_bytes(),
    ensures
        !illegal_owner(key.bytes@),
{
    let tail = key.bytes@.subrange(11, 32);
    assert(tail[20] != pda_marker()[20]);
}

}
