//! Root-record signature verification.

use dnsdisc::{DnsRecord, PublicKey};
use k256::ecdsa::SigningKey;
use sha3::{Digest, Keccak256};

const ROOT_TEXT: &str = "enrtree-root:v1 e=JWXYDBPXYWG6FX3GMDIBFA6CJ4 l=C7HRFPF3BLGF3YR4DY5KX3SMBE seq=1 sig=o908WmNp7LibOfPsr4btQwatZJ5URBr2ZAuxvK4UWHlsB9sUOTJQaGAlLPVAhM__XJesCHxLISo94z5Z2a463gA";

/// The signer of the example tree, as an uncompressed SEC1 key.
const SIGNER_HEX: &str = "049f88229042fef9200246f49f94d9b77c4e954721442714e85850cb6d9e5daf2d880ea0e53cb3ac1a75f9923c2726a4f941f7d326781baa6380754a360de5c2b6";

fn example_signer() -> PublicKey {
    let uncompressed = data_encoding::HEXLOWER
        .decode(SIGNER_HEX.as_bytes())
        .unwrap();
    let vk = k256::ecdsa::VerifyingKey::from_sec1_bytes(&uncompressed).unwrap();
    let compressed = vk.to_sec1_point(true).as_bytes().to_vec();
    PublicKey::from_compressed_bytes(compressed).unwrap()
}

fn parse_root(text: &str) -> dnsdisc::RootRecord {
    match DnsRecord::parse(text).unwrap() {
        DnsRecord::Root(root) => root,
        _ => panic!("expected a root record"),
    }
}

#[test]
fn example_root_verifies() {
    let root = parse_root(ROOT_TEXT);
    assert_eq!(root.verify(&example_signer()), Some(true));
}

#[test]
fn wrong_key_is_rejected() {
    let root = parse_root(ROOT_TEXT);
    let other_sk = SigningKey::from_slice(&[0x17u8; 32]).unwrap();
    let other_pk = PublicKey::from_compressed_bytes(
        other_sk
            .verifying_key()
            .to_sec1_point(true)
            .as_bytes()
            .to_vec(),
    )
    .unwrap();
    assert_eq!(root.verify(&other_pk), Some(false));
}

fn sign_root_text(sk: &SigningKey, enr_root: &str, link_root: &str, seq: u64) -> String {
    let msg = format!("enrtree-root:v1 e={} l={} seq={}", enr_root, link_root, seq);
    let digest = Keccak256::digest(msg.as_bytes());
    let (sig, recid) = sk.sign_prehash_recoverable(&digest);
    let mut sig65 = sig.to_bytes().to_vec();
    sig65.push(recid.to_byte());
    format!("{} sig={}", msg, data_encoding::BASE64URL_NOPAD.encode(&sig65))
}

fn key_of(sk: &SigningKey) -> PublicKey {
    PublicKey::from_compressed_bytes(sk.verifying_key().to_sec1_point(true).as_bytes().to_vec())
        .unwrap()
}

#[test]
fn fresh_signature_verifies() {
    let sk = SigningKey::from_slice(&[0x2au8; 32]).unwrap();
    let text = sign_root_text(
        &sk,
        "AAAAAAAAAAAAAAAAAAAAAAAAAA",
        "BBBBBBBBBBBBBBBBBBBBBBBBBB",
        7,
    );
    let root = parse_root(&text);
    assert_eq!(root.verify(&key_of(&sk)), Some(true));
}

#[test]
fn tampering_breaks_verification() {
    let sk = SigningKey::from_slice(&[0x2au8; 32]).unwrap();
    let pk = key_of(&sk);
    let text = sign_root_text(
        &sk,
        "AAAAAAAAAAAAAAAAAAAAAAAAAA",
        "BBBBBBBBBBBBBBBBBBBBBBBBBB",
        7,
    );

    // A changed ENR subtree root.
    let tampered = text.replace(
        "e=AAAAAAAAAAAAAAAAAAAAAAAAAA",
        "e=CAAAAAAAAAAAAAAAAAAAAAAAAA",
    );
    assert_ne!(parse_root(&tampered).verify(&pk), Some(true));

    // A changed link subtree root.
    let tampered = text.replace(
        "l=BBBBBBBBBBBBBBBBBBBBBBBBBB",
        "l=CBBBBBBBBBBBBBBBBBBBBBBBBB",
    );
    assert_ne!(parse_root(&tampered).verify(&pk), Some(true));

    // A changed sequence number.
    let tampered = text.replace("seq=7", "seq=8");
    assert_ne!(parse_root(&tampered).verify(&pk), Some(true));
}

#[test]
fn corrupt_signature_bytes_fail() {
    let sk = SigningKey::from_slice(&[0x2au8; 32]).unwrap();
    let pk = key_of(&sk);
    let msg = "enrtree-root:v1 e=AAAAAAAAAAAAAAAAAAAAAAAAAA l=BBBBBBBBBBBBBBBBBBBBBBBBBB seq=7";
    let digest = Keccak256::digest(msg.as_bytes());
    let (sig, recid) = sk.sign_prehash_recoverable(&digest);
    let mut sig65 = sig.to_bytes().to_vec();
    sig65.push(recid.to_byte());
    sig65[10] ^= 0x01;
    let text = format!(
        "{} sig={}",
        msg,
        data_encoding::BASE64URL_NOPAD.encode(&sig65)
    );
    assert_ne!(parse_root(&text).verify(&pk), Some(true));
}

#[test]
fn unrecoverable_signature_is_reported() {
    // All-zero r and s admit no key recovery at all.
    let zeros = data_encoding::BASE64URL_NOPAD.encode(&[0u8; 65]);
    let text = format!(
        "enrtree-root:v1 e=AAAAAAAAAAAAAAAAAAAAAAAAAA l=BBBBBBBBBBBBBBBBBBBBBBBBBB seq=7 sig={}",
        zeros
    );
    let root = parse_root(&text);
    let sk = SigningKey::from_slice(&[0x2au8; 32]).unwrap();
    assert_eq!(root.verify(&key_of(&sk)), None);
}
