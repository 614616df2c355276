//! secp256k1 public keys and recoverable-signature key recovery, relied on
//! from the `k256` and `sha3` crates.
//!
//! A public key is carried as its 33-byte compressed SEC1 encoding; whether
//! a byte sequence is a valid SEC1 encoding of a curve point, and which key
//! a recoverable signature recovers to over a message, are named by
//! uninterpreted spec functions that the wrappers here tie to the outside
//! calls.

use vstd::prelude::*;

verus! {

/// `b` is a SEC1 encoding of a secp256k1 curve point.
pub uninterp spec fn valid_pubkey(b: Seq<u8>) -> bool;

/// Relies on `k256::ecdsa::VerifyingKey::from_sec1_bytes`: it accepts
/// exactly the valid SEC1 encodings of curve points, and its outcome
/// depends on the bytes alone.
#[verifier::external_body]
pub(crate) fn check_pubkey(b: &[u8]) -> (r: bool)
    ensures
        r == valid_pubkey(b@),
{
    k256::ecdsa::VerifyingKey::from_sec1_bytes(b).is_ok()
}

/// The compressed SEC1 encoding of the public key recovered from a 65-byte
/// recoverable signature (64 bytes `r ‖ s`, then a recovery id) over the
/// keccak256 hash of a message, or `None` when recovery fails; a function
/// of the message and signature alone.
pub uninterp spec fn recovered_key(msg: Seq<char>, sig: Seq<u8>) -> Option<Seq<u8>>;

/// Relies on `sha3::Keccak256` and
/// `k256::ecdsa::VerifyingKey::recover_from_prehash`: both are functions of
/// their inputs alone, and a recovered key serialises to 33 bytes in
/// compressed SEC1 form (`VerifyingKey::to_sec1_point`).
#[verifier::external_body]
pub(crate) fn recover_signer(msg: &str, sig: &[u8]) -> (r: Option<Vec<u8>>)
    requires
        sig@.len() == 65,
    ensures
        match r {
            Some(k) => recovered_key(msg@, sig@) == Some(k@) && k@.len() == 33,
            None => recovered_key(msg@, sig@) is None,
        },
{
    let signature = match k256::ecdsa::Signature::from_slice(&sig[..64]) {
        Ok(s) => s,
        Err(_) => return None,
    };
    let recovery_id = match k256::ecdsa::RecoveryId::from_byte(sig[64]) {
        Some(id) => id,
        None => return None,
    };
    let digest = <sha3::Keccak256 as sha3::Digest>::digest(msg.as_bytes());
    match k256::ecdsa::VerifyingKey::recover_from_prehash(&digest, &signature, recovery_id) {
        Ok(vk) => Some(vk.to_sec1_point(true).as_bytes().to_vec()),
        Err(_) => None,
    }
}

/// Compares two byte sequences.
pub fn bytes_eq(a: &[u8], b: &[u8]) -> (r: bool)
    ensures
        r == (a@ == b@),
{
    if a.len() != b.len() {
        return false;
    }
    let n = a.len();
    let mut i: usize = 0;
    while i < n
        invariant
            n == a@.len() == b@.len(),
            i <= n,
            forall|k: int| 0 <= k < i ==> a@[k] == b@[k],
        decreases n - i,
    {
        if a[i] != b[i] {
            return false;
        }
        i = i + 1;
    }
    proof {
        assert(a@ =~= b@);
    }
    true
}

/// Copies a byte vector.
pub fn clone_bytes(v: &Vec<u8>) -> (r: Vec<u8>)
    ensures
        r@ == v@,
{
    let mut r: Vec<u8> = Vec::new();
    let n = v.len();
    let mut i: usize = 0;
    while i < n
        invariant
            n == v@.len(),
            i <= n,
            r@ =~= v@.take(i as int),
        decreases n - i,
    {
        r.push(v[i]);
        proof {
            assert(r@ =~= v@.take(i as int + 1));
        }
        i = i + 1;
    }
    proof {
        assert(v@.take(n as int) =~= v@);
    }
    r
}

/// A secp256k1 public key, carried as its 33-byte compressed SEC1 encoding.
#[derive(Debug)]
pub struct PublicKey {
    pub bytes: Vec<u8>,
}

impl View for PublicKey {
    type V = Seq<u8>;

    open spec fn view(&self) -> Seq<u8> {
        self.bytes@
    }
}

impl PublicKey {
    /// The key is a 33-byte compressed SEC1 encoding of a curve point.
    pub open spec fn wf(&self) -> bool {
        self@.len() == 33 && valid_pubkey(self@)
    }

    /// Accepts exactly the 33-byte compressed SEC1 encodings of curve
    /// points.
    pub fn from_compressed_bytes(bytes: Vec<u8>) -> (r: Option<PublicKey>)
        ensures
            match r {
                Some(k) => k@ == bytes@ && k.wf(),
                None => !(bytes@.len() == 33 && valid_pubkey(bytes@)),
            },
    {
        if bytes.len() == 33 && check_pubkey(bytes.as_slice()) {
            Some(PublicKey { bytes })
        } else {
            None
        }
    }

    /// Compares two keys by their encodings.
    pub fn key_eq(&self, other: &PublicKey) -> (r: bool)
        ensures
            r == (self@ == other@),
    {
        bytes_eq(self.bytes.as_slice(), other.bytes.as_slice())
    }
}

impl Clone for PublicKey {
    fn clone(&self) -> (r: Self)
        ensures
            r@ == self@,
    {
        PublicKey { bytes: clone_bytes(&self.bytes) }
    }
}

} // verus!
