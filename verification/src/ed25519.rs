//! Ed25519 keys and signatures as byte strings: which encodings are well
//! formed, and the checks of the curve arithmetic behind them.

use ed25519_dalek::{Signature, Signer, SigningKey, VerifyingKey};
use vstd::prelude::*;

verus! {

/// The length of an encoded public key.
pub const PUBLIC_KEY_LENGTH: usize = 32;

/// The length of a private key.
pub const PRIVATE_KEY_LENGTH: usize = 32;

/// The length of an encoded signature: a curve point, then a scalar.
pub const SIGNATURE_LENGTH: usize = 64;

/// The length of an encoded scalar.
pub const SCALAR_LENGTH: usize = 32;

/// The order of the prime-order subgroup, least significant byte first.
pub const GROUP_ORDER: [u8; 32] = [
    0xed, 0xd3, 0xf5, 0x5c, 0x1a, 0x63, 0x12, 0x58, 0xd6, 0x9c, 0xf7, 0xa2, 0xde, 0xf9, 0xde, 0x14,
    0x00, 0x00, 0x00, 0x00, 0x00, 0x00, 0x00, 0x00, 0x00, 0x00, 0x00, 0x00, 0x00, 0x00, 0x00, 0x10,
];

/// Whether `bytes` are the compressed form of a point of the curve.
pub uninterp spec fn point_decodes(bytes: Seq<u8>) -> bool;

/// Whether `bytes` are the compressed form of a point of small order.
pub uninterp spec fn point_has_small_order(bytes: Seq<u8>) -> bool;

/// Whether `signature` is accepted as a signature over `message` under the
/// public key `public_key`, by the strict verification rule.
pub uninterp spec fn strictly_verifies(
    message: Seq<u8>,
    public_key: Seq<u8>,
    signature: Seq<u8>,
) -> bool;

/// The signature over `message` made with the private key `private_key`.
pub uninterp spec fn signature_of(private_key: Seq<u8>, message: Seq<u8>) -> Seq<u8>;

/// The number that `bytes` stand for, least significant byte first.
pub open spec fn little_endian(bytes: Seq<u8>) -> nat
    decreases bytes.len(),
{
    if bytes.len() == 0 {
        0
    } else {
        bytes[0] as nat + 256 * little_endian(bytes.skip(1))
    }
}

/// A scalar is canonical when it is fully reduced: 32 bytes that stand for a
/// number below the group order.
pub open spec fn scalar_is_canonical(scalar: Seq<u8>) -> bool {
    scalar.len() == SCALAR_LENGTH && little_endian(scalar) < little_endian(GROUP_ORDER@)
}

/// A signature is well formed when it has the right length and its scalar
/// half is canonical.
pub open spec fn signature_is_well_formed(signature: Seq<u8>) -> bool {
    signature.len() == SIGNATURE_LENGTH && scalar_is_canonical(
        signature.subrange(SCALAR_LENGTH as int, SIGNATURE_LENGTH as int),
    )
}

/// A public key is valid when it decodes to a point of the curve that does
/// not lie in the small subgroup.
pub open spec fn public_key_is_valid(public_key: Seq<u8>) -> bool {
    point_decodes(public_key) && !point_has_small_order(public_key)
}

/// Of two byte strings of one length that agree above some position, the one
/// with the smaller byte at that position stands for the smaller number.
pub proof fn lemma_little_endian_order(a: Seq<u8>, b: Seq<u8>, at: int)
    requires
        a.len() == b.len(),
        0 <= at < a.len(),
        a[at] < b[at],
        a.skip(at + 1) == b.skip(at + 1),
    ensures
        little_endian(a) < little_endian(b),
    decreases at,
{
    if at == 0 {
    } else {
        assert(a.skip(1).skip(at) =~= a.skip(at + 1));
        assert(b.skip(1).skip(at) =~= b.skip(at + 1));
        lemma_little_endian_order(a.skip(1), b.skip(1), at - 1);
    }
}

/// Calls `ed25519_dalek::VerifyingKey::try_from` on the byte string and says
/// whether it gave a key. That outcome is what `point_decodes` names.
#[verifier::external_body]
fn decode_point(bytes: &[u8]) -> (decodes: bool)
    ensures
        decodes == point_decodes(bytes@),
{
    VerifyingKey::try_from(bytes).is_ok()
}

/// Calls `ed25519_dalek::VerifyingKey::is_weak` on the key that the byte
/// string decodes to. That outcome is what `point_has_small_order` names;
/// bytes that decode to no key count as not of small order.
#[verifier::external_body]
fn decoded_point_is_weak(bytes: &[u8]) -> (weak: bool)
    ensures
        weak == point_has_small_order(bytes@),
{
    match VerifyingKey::try_from(bytes) {
        Ok(key) => key.is_weak(),
        Err(_) => false,
    }
}

/// Calls `ed25519_dalek::VerifyingKey::verify_strict` with the key and the
/// signature that the byte strings decode to. Whether it accepts is what
/// `strictly_verifies` names; bytes that decode to no key or no signature are
/// not accepted.
#[verifier::external_body]
fn verify_strict(message: &[u8], public_key: &[u8], signature: &[u8]) -> (accepted: bool)
    ensures
        accepted == strictly_verifies(message@, public_key@, signature@),
{
    match (VerifyingKey::try_from(public_key), Signature::from_slice(signature)) {
        (Ok(key), Ok(signature)) => key.verify_strict(message, &signature).is_ok(),
        _ => false,
    }
}

/// Calls `ed25519_dalek::SigningKey::from_bytes` on the private key and
/// `sign` on the key it gives. The signature depends on the key and the
/// message alone; it is what `signature_of` names, and has 64 bytes.
#[verifier::external_body]
fn sign_message(private_key: &[u8; 32], message: &[u8]) -> (signature: Vec<u8>)
    ensures
        signature@ == signature_of(private_key@, message@),
        signature@.len() == SIGNATURE_LENGTH,
{
    SigningKey::from_bytes(private_key).sign(message).to_bytes().to_vec()
}

/// A private key. It can sign; its bytes cannot be read back, printed or
/// copied.
pub struct PrivateKey {
    bytes: [u8; 32],
}

impl View for PrivateKey {
    type V = Seq<u8>;

    closed spec fn view(&self) -> Seq<u8> {
        self.bytes@
    }
}

impl PrivateKey {
    /// The private key of the given bytes.
    pub fn new(bytes: [u8; 32]) -> (key: PrivateKey)
        ensures
            key@ == bytes@,
    {
        PrivateKey { bytes }
    }

    /// The signature over `message` made with this key.
    pub fn sign(&self, message: &[u8]) -> (signature: Vec<u8>)
        ensures
            signature@ == signature_of(self@, message@),
            signature@.len() == SIGNATURE_LENGTH,
    {
        sign_message(&self.bytes, message)
    }
}

/// Whether the 32 bytes of `signature` from position 32 on are a canonical
/// scalar.
fn scalar_half_is_canonical(signature: &[u8]) -> (canonical: bool)
    requires
        signature@.len() == SIGNATURE_LENGTH,
    ensures
        canonical == scalar_is_canonical(
            signature@.subrange(SCALAR_LENGTH as int, SIGNATURE_LENGTH as int),
        ),
{
    let ghost scalar = signature@.subrange(SCALAR_LENGTH as int, SIGNATURE_LENGTH as int);
    let ghost order = GROUP_ORDER@;
    let mut i: usize = SCALAR_LENGTH;
    while i > 0
        invariant
            i <= SCALAR_LENGTH,
            signature@.len() == SIGNATURE_LENGTH,
            scalar == signature@.subrange(SCALAR_LENGTH as int, SIGNATURE_LENGTH as int),
            order == GROUP_ORDER@,
            order.len() == SCALAR_LENGTH,
            scalar.skip(i as int) =~= order.skip(i as int),
        decreases i,
    {
        i -= 1;
        let ours: u8 = signature[SCALAR_LENGTH + i];
        let theirs: u8 = GROUP_ORDER[i];
        assert(scalar[i as int] == ours);
        assert(order[i as int] == theirs);
        if ours < theirs {
            proof {
                lemma_little_endian_order(scalar, order, i as int);
            }
            return true;
        }
        if ours > theirs {
            proof {
                lemma_little_endian_order(order, scalar, i as int);
            }
            return false;
        }
        assert(scalar.skip(i as int) =~= order.skip(i as int)) by {
            assert(scalar.skip(i as int) =~= seq![scalar[i as int]] + scalar.skip(i + 1));
            assert(order.skip(i as int) =~= seq![order[i as int]] + order.skip(i + 1));
        }
    }
    assert(scalar =~= order) by {
        assert(scalar.skip(0) =~= scalar);
        assert(order.skip(0) =~= order);
    }
    false
}

/// Whether `signature` is a well-formed signature encoding.
pub fn check_signature_encoding(signature: &[u8]) -> (well_formed: bool)
    ensures
        well_formed == signature_is_well_formed(signature@),
{
    if signature.len() != SIGNATURE_LENGTH {
        return false;
    }
    scalar_half_is_canonical(signature)
}

/// Whether `public_key` encodes a valid public key.
pub fn validate_public_key(public_key: &[u8]) -> (valid: bool)
    ensures
        valid == public_key_is_valid(public_key@),
{
    decode_point(public_key) && !decoded_point_is_weak(public_key)
}

/// What a verification decides once the three checks are made: `None` for a
/// malformed signature or an invalid key, else whether the signature was
/// accepted.
pub open spec fn verification_outcome(
    signature_well_formed: bool,
    key_valid: bool,
    accepted: bool,
) -> Option<bool> {
    if signature_well_formed && key_valid {
        Some(accepted)
    } else {
        None
    }
}

/// Verifies `signature` over `message` under `public_key`. Gives `None` when
/// the signature or the key is malformed, and else whether the signature is
/// accepted.
pub fn verify_signature(signature: &[u8], public_key: &[u8], message: &[u8]) -> (outcome: Option<
    bool,
>)
    ensures
        outcome == verification_outcome(
            signature_is_well_formed(signature@),
            public_key_is_valid(public_key@),
            strictly_verifies(message@, public_key@, signature@),
        ),
{
    if !check_signature_encoding(signature) {
        return None;
    }
    if !validate_public_key(public_key) {
        return None;
    }
    Some(verify_strict(message, public_key, signature))
}

} // verus!
