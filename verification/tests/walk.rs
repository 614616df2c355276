//! Walking whole trees through the in-memory backend.

use std::collections::HashSet;
use std::sync::Arc;

use dnsdisc::{
    DnsRecord, MemoryBackend, Output, PublicKey, Query, Resolver, WalkError, Whitelist,
};
use k256::ecdsa::SigningKey;
use sha3::{Digest, Keccak256};

const DOMAIN: &str = "mynodes.org";
const TEST_RECORDS: &[(Option<&str>, &str)] = &[
    (
        None,
        "enrtree-root:v1 e=JWXYDBPXYWG6FX3GMDIBFA6CJ4 l=C7HRFPF3BLGF3YR4DY5KX3SMBE seq=1 sig=o908WmNp7LibOfPsr4btQwatZJ5URBr2ZAuxvK4UWHlsB9sUOTJQaGAlLPVAhM__XJesCHxLISo94z5Z2a463gA"
    ), (
        Some("C7HRFPF3BLGF3YR4DY5KX3SMBE"),
        "enrtree://AM5FCQLWIZX2QFPNJAP7VUERCCRNGRHWZG3YYHIUV7BVDQ5FDPRT2@morenodes.example.org"
    ), (
        Some("JWXYDBPXYWG6FX3GMDIBFA6CJ4"),
        "enrtree-branch:2XS2367YHAXJFGLZHVAWLQD4ZY,H4FHT4B454P6UXFD7JCYQ5PWDY,MHTDO6TMUBRIA2XWG5LUDACK24",
    ), (
        Some("2XS2367YHAXJFGLZHVAWLQD4ZY"),
        "enr:-HW4QOFzoVLaFJnNhbgMoDXPnOvcdVuj7pDpqRvh6BRDO68aVi5ZcjB3vzQRZH2IcLBGHzo8uUN3snqmgTiE56CH3AMBgmlkgnY0iXNlY3AyNTZrMaECC2_24YYkYHEgdzxlSNKQEnHhuNAbNlMlWJxrJxbAFvA"
    ), (
        Some("H4FHT4B454P6UXFD7JCYQ5PWDY"),
        "enr:-HW4QAggRauloj2SDLtIHN1XBkvhFZ1vtf1raYQp9TBW2RD5EEawDzbtSmlXUfnaHcvwOizhVYLtr7e6vw7NAf6mTuoCgmlkgnY0iXNlY3AyNTZrMaECjrXI8TLNXU0f8cthpAMxEshUyQlK-AM0PW2wfrnacNI"
    ), (
        Some("MHTDO6TMUBRIA2XWG5LUDACK24"),
        "enr:-HW4QLAYqmrwllBEnzWWs7I5Ev2IAs7x_dZlbYdRdMUx5EyKHDXp7AV5CkuPGUPdvbv1_Ms1CPfhcGCvSElSosZmyoqAgmlkgnY0iXNlY3AyNTZrMaECriawHKWdDRk2xeZkrOXBQ0dfMFLHY4eENZwdufn1S1o"
    )
];

fn example_backend() -> MemoryBackend {
    let mut backend = MemoryBackend::new();
    for (sub, entry) in TEST_RECORDS {
        let fqdn = match sub {
            Some(s) => format!("{}.{}", s, DOMAIN.to_string()),
            None => DOMAIN.to_string(),
        };
        backend.insert(fqdn, entry.to_string());
    }
    backend
}

fn example_whitelist() -> Whitelist {
    let uncompressed = data_encoding::HEXLOWER
        .decode("049f88229042fef9200246f49f94d9b77c4e954721442714e85850cb6d9e5daf2d880ea0e53cb3ac1a75f9923c2726a4f941f7d326781baa6380754a360de5c2b6".as_bytes())
        .unwrap();
    let vk = k256::ecdsa::VerifyingKey::from_sec1_bytes(&uncompressed).unwrap();
    let key =
        PublicKey::from_compressed_bytes(vk.to_sec1_point(true).as_bytes().to_vec()).unwrap();
    let mut whitelist = Whitelist::new();
    whitelist.insert("morenodes.example.org".to_string(), key);
    whitelist
}

/// Drives a query to its end, splitting what it streamed into node-record
/// texts and failures.
fn drain<B: dnsdisc::Backend>(mut q: Query<B>) -> (Vec<String>, Vec<WalkError>) {
    let mut records = Vec::new();
    let mut failures = Vec::new();
    while !q.is_done() {
        for output in q.advance() {
            match output {
                Output::Enr(record) => records.push(record.to_base64()),
                Output::Failure(e) => failures.push(e),
            }
        }
    }
    (records, failures)
}

#[test]
fn eip_example() {
    let resolver =
        Resolver::new(Arc::new(example_backend())).with_remote_whitelist(example_whitelist());
    let query = resolver.query(DOMAIN, None);
    let (records, failures) = drain(query);
    assert!(failures.is_empty());
    let mut out = HashSet::new();
    for record in records {
        assert!(out.insert(record));
    }
    let expected: HashSet<String> = [
        "enr:-HW4QOFzoVLaFJnNhbgMoDXPnOvcdVuj7pDpqRvh6BRDO68aVi5ZcjB3vzQRZH2IcLBGHzo8uUN3snqmgTiE56CH3AMBgmlkgnY0iXNlY3AyNTZrMaECC2_24YYkYHEgdzxlSNKQEnHhuNAbNlMlWJxrJxbAFvA",
        "enr:-HW4QAggRauloj2SDLtIHN1XBkvhFZ1vtf1raYQp9TBW2RD5EEawDzbtSmlXUfnaHcvwOizhVYLtr7e6vw7NAf6mTuoCgmlkgnY0iXNlY3AyNTZrMaECjrXI8TLNXU0f8cthpAMxEshUyQlK-AM0PW2wfrnacNI",
        "enr:-HW4QLAYqmrwllBEnzWWs7I5Ev2IAs7x_dZlbYdRdMUx5EyKHDXp7AV5CkuPGUPdvbv1_Ms1CPfhcGCvSElSosZmyoqAgmlkgnY0iXNlY3AyNTZrMaECriawHKWdDRk2xeZkrOXBQ0dfMFLHY4eENZwdufn1S1o",
    ]
    .iter()
    .map(|s| s.to_string())
    .collect();
    assert_eq!(out, expected);
}

#[test]
fn stale_sequence_yields_nothing() {
    let resolver = Resolver::new(Arc::new(example_backend()))
        .with_remote_whitelist(example_whitelist())
        .with_seen_sequence(1);
    let (records, failures) = drain(resolver.query(DOMAIN, None));
    assert!(records.is_empty());
    assert!(failures.is_empty());
}

#[test]
fn newer_sequence_still_yields() {
    let resolver = Resolver::new(Arc::new(example_backend())).with_seen_sequence(0);
    let (records, failures) = drain(resolver.query(DOMAIN, None));
    assert_eq!(records.len(), 3);
    assert!(failures.is_empty());
}

#[test]
fn wrong_expected_key_fails_the_stream() {
    let other_sk = SigningKey::from_slice(&[0x17u8; 32]).unwrap();
    let other_pk = PublicKey::from_compressed_bytes(
        other_sk
            .verifying_key()
            .to_sec1_point(true)
            .as_bytes()
            .to_vec(),
    )
    .unwrap();
    let resolver = Resolver::new(Arc::new(example_backend()));
    let (records, failures) = drain(resolver.query(DOMAIN, Some(other_pk)));
    assert!(records.is_empty());
    assert_eq!(failures.len(), 1);
    assert!(matches!(failures[0], WalkError::KeyMismatch));
}

#[test]
fn right_expected_key_passes() {
    let uncompressed = data_encoding::HEXLOWER
        .decode("049f88229042fef9200246f49f94d9b77c4e954721442714e85850cb6d9e5daf2d880ea0e53cb3ac1a75f9923c2726a4f941f7d326781baa6380754a360de5c2b6".as_bytes())
        .unwrap();
    let vk = k256::ecdsa::VerifyingKey::from_sec1_bytes(&uncompressed).unwrap();
    let pk = PublicKey::from_compressed_bytes(vk.to_sec1_point(true).as_bytes().to_vec()).unwrap();
    let resolver = Resolver::new(Arc::new(example_backend()));
    let (records, failures) = drain(resolver.query(DOMAIN, Some(pk)));
    assert_eq!(records.len(), 3);
    assert!(failures.is_empty());
}

#[test]
fn corrupt_root_signature_fails_the_stream() {
    let mut backend = MemoryBackend::new();
    // The root's e= label is altered, so the signature no longer matches.
    backend.insert(
        DOMAIN.to_string(),
        "enrtree-root:v1 e=KWXYDBPXYWG6FX3GMDIBFA6CJ4 l=C7HRFPF3BLGF3YR4DY5KX3SMBE seq=1 sig=o908WmNp7LibOfPsr4btQwatZJ5URBr2ZAuxvK4UWHlsB9sUOTJQaGAlLPVAhM__XJesCHxLISo94z5Z2a463gA".to_string(),
    );
    let uncompressed = data_encoding::HEXLOWER
        .decode("049f88229042fef9200246f49f94d9b77c4e954721442714e85850cb6d9e5daf2d880ea0e53cb3ac1a75f9923c2726a4f941f7d326781baa6380754a360de5c2b6".as_bytes())
        .unwrap();
    let vk = k256::ecdsa::VerifyingKey::from_sec1_bytes(&uncompressed).unwrap();
    let pk = PublicKey::from_compressed_bytes(vk.to_sec1_point(true).as_bytes().to_vec()).unwrap();
    let resolver = Resolver::new(Arc::new(backend));
    let (records, failures) = drain(resolver.query(DOMAIN, Some(pk)));
    assert!(records.is_empty());
    assert_eq!(failures.len(), 1);
    assert!(matches!(
        failures[0],
        WalkError::KeyMismatch | WalkError::RecoveryFailed
    ));
}

#[test]
fn missing_root_completes_empty() {
    let backend = MemoryBackend::new();
    let resolver = Resolver::new(Arc::new(backend));
    let (records, failures) = drain(resolver.query(DOMAIN, None));
    assert!(records.is_empty());
    assert!(failures.is_empty());
}

#[test]
fn non_root_at_host_fails_the_stream() {
    let mut backend = MemoryBackend::new();
    backend.insert(
        DOMAIN.to_string(),
        "enrtree-branch:2XS2367YHAXJFGLZHVAWLQD4ZY".to_string(),
    );
    let resolver = Resolver::new(Arc::new(backend));
    let (records, failures) = drain(resolver.query(DOMAIN, None));
    assert!(records.is_empty());
    assert_eq!(failures.len(), 1);
    assert!(matches!(failures[0], WalkError::NotRoot));
}

#[test]
fn enr_under_link_subtree_is_a_protocol_error() {
    let mut backend = example_backend();
    // The link subtree's leaf becomes a node record.
    backend.insert(
        format!("C7HRFPF3BLGF3YR4DY5KX3SMBE.{}", DOMAIN),
        "enr:-HW4QOFzoVLaFJnNhbgMoDXPnOvcdVuj7pDpqRvh6BRDO68aVi5ZcjB3vzQRZH2IcLBGHzo8uUN3snqmgTiE56CH3AMBgmlkgnY0iXNlY3AyNTZrMaECC2_24YYkYHEgdzxlSNKQEnHhuNAbNlMlWJxrJxbAFvA".to_string(),
    );
    let resolver = Resolver::new(Arc::new(backend));
    let (records, failures) = drain(resolver.query(DOMAIN, None));
    // The ENR subtree still yields its three records.
    assert_eq!(records.len(), 3);
    assert_eq!(failures.len(), 1);
    assert!(matches!(failures[0], WalkError::UnexpectedEnr));
}

#[test]
fn link_under_enr_subtree_is_a_protocol_error() {
    let mut backend = example_backend();
    // One ENR leaf becomes a link record.
    backend.insert(
        format!("2XS2367YHAXJFGLZHVAWLQD4ZY.{}", DOMAIN),
        "enrtree://AM5FCQLWIZX2QFPNJAP7VUERCCRNGRHWZG3YYHIUV7BVDQ5FDPRT2@morenodes.example.org"
            .to_string(),
    );
    let resolver = Resolver::new(Arc::new(backend));
    let (records, failures) = drain(resolver.query(DOMAIN, None));
    assert_eq!(records.len(), 2);
    assert_eq!(failures.len(), 1);
    assert!(matches!(failures[0], WalkError::UnexpectedLink));
}

#[test]
fn root_below_top_is_a_protocol_error() {
    let mut backend = example_backend();
    backend.insert(
        format!("2XS2367YHAXJFGLZHVAWLQD4ZY.{}", DOMAIN),
        TEST_RECORDS[0].1.to_string(),
    );
    let resolver = Resolver::new(Arc::new(backend));
    let (records, failures) = drain(resolver.query(DOMAIN, None));
    assert_eq!(records.len(), 2);
    assert_eq!(failures.len(), 1);
    assert!(matches!(failures[0], WalkError::UnexpectedRoot));
}

#[test]
fn unparseable_child_is_a_backend_failure() {
    let mut backend = example_backend();
    backend.insert(
        format!("2XS2367YHAXJFGLZHVAWLQD4ZY.{}", DOMAIN),
        "garbage".to_string(),
    );
    let resolver = Resolver::new(Arc::new(backend));
    let (records, failures) = drain(resolver.query(DOMAIN, None));
    assert_eq!(records.len(), 2);
    assert_eq!(failures.len(), 1);
    assert!(matches!(failures[0], WalkError::Backend(_)));
}

const LABEL_A: &str = "AAAAAAAAAAAAAAAAAAAAAAAAAA";
const LABEL_B: &str = "BBBBBBBBBBBBBBBBBBBBBBBBBB";
const REMOTE_HOST: &str = "othernodes.example";

fn sign_root_text(sk: &SigningKey, enr_root: &str, link_root: &str, seq: u64) -> String {
    let msg = format!("enrtree-root:v1 e={} l={} seq={}", enr_root, link_root, seq);
    let digest = Keccak256::digest(msg.as_bytes());
    let (sig, recid) = sk.sign_prehash_recoverable(&digest);
    let mut sig65 = sig.to_bytes().to_vec();
    sig65.push(recid.to_byte());
    format!("{} sig={}", msg, data_encoding::BASE64URL_NOPAD.encode(&sig65))
}

fn compressed_key(sk: &SigningKey) -> Vec<u8> {
    sk.verifying_key().to_sec1_point(true).as_bytes().to_vec()
}

/// A pair of trees: `main.example` holds one node record and a link to
/// `othernodes.example`, which holds another node record.
fn linked_backend() -> (MemoryBackend, PublicKey) {
    let sk_main = SigningKey::from_slice(&[0x51u8; 32]).unwrap();
    let sk_remote = SigningKey::from_slice(&[0x52u8; 32]).unwrap();
    let remote_key_b32 = data_encoding::BASE32_NOPAD.encode(&compressed_key(&sk_remote));

    let mut backend = MemoryBackend::new();
    backend.insert(
        "main.example".to_string(),
        sign_root_text(&sk_main, LABEL_A, LABEL_B, 1),
    );
    backend.insert(
        format!("{}.main.example", LABEL_A),
        TEST_RECORDS[3].1.to_string(),
    );
    backend.insert(
        format!("{}.main.example", LABEL_B),
        format!("enrtree://{}@{}", remote_key_b32, REMOTE_HOST),
    );
    backend.insert(
        REMOTE_HOST.to_string(),
        sign_root_text(&sk_remote, LABEL_A, LABEL_B, 1),
    );
    backend.insert(
        format!("{}.{}", LABEL_A, REMOTE_HOST),
        TEST_RECORDS[4].1.to_string(),
    );
    // The remote link subtree's child is left absent: an empty child is
    // skipped with no failure.
    let remote_key =
        PublicKey::from_compressed_bytes(compressed_key(&sk_remote)).unwrap();
    (backend, remote_key)
}

#[test]
fn whitelisted_link_contributes_the_linked_tree() {
    let (backend, remote_key) = linked_backend();
    let mut whitelist = Whitelist::new();
    whitelist.insert(REMOTE_HOST.to_string(), remote_key);
    let resolver = Resolver::new(Arc::new(backend)).with_remote_whitelist(whitelist);
    let (records, failures) = drain(resolver.query("main.example", None));
    assert!(failures.is_empty());
    let out: HashSet<String> = records.into_iter().collect();
    let expected: HashSet<String> = [TEST_RECORDS[3].1, TEST_RECORDS[4].1]
        .iter()
        .map(|s| s.to_string())
        .collect();
    assert_eq!(out, expected);
}

#[test]
fn link_with_wrong_whitelisted_key_is_skipped_silently() {
    let (backend, _remote_key) = linked_backend();
    let other_sk = SigningKey::from_slice(&[0x53u8; 32]).unwrap();
    let other_key = PublicKey::from_compressed_bytes(compressed_key(&other_sk)).unwrap();
    let mut whitelist = Whitelist::new();
    whitelist.insert(REMOTE_HOST.to_string(), other_key);
    let resolver = Resolver::new(Arc::new(backend)).with_remote_whitelist(whitelist);
    let (records, failures) = drain(resolver.query("main.example", None));
    // The subtree beneath the link contributes nothing, and nothing fails.
    assert!(failures.is_empty());
    assert_eq!(records, vec![TEST_RECORDS[3].1.to_string()]);
}

#[test]
fn unlisted_link_domain_is_skipped_silently() {
    let (backend, _remote_key) = linked_backend();
    // Present but empty: a closed deployment permits no links at all.
    let resolver = Resolver::new(Arc::new(backend)).with_remote_whitelist(Whitelist::new());
    let (records, failures) = drain(resolver.query("main.example", None));
    assert!(failures.is_empty());
    assert_eq!(records, vec![TEST_RECORDS[3].1.to_string()]);
}

#[test]
fn absent_whitelist_permits_all_links() {
    let (backend, _remote_key) = linked_backend();
    let resolver = Resolver::new(Arc::new(backend));
    let (records, failures) = drain(resolver.query("main.example", None));
    assert!(failures.is_empty());
    assert_eq!(records.len(), 2);
}

#[test]
fn unrecoverable_root_signature_fails_the_stream() {
    // All-zero r and s admit no key recovery at all.
    let zeros = data_encoding::BASE64URL_NOPAD.encode(&[0u8; 65]);
    let mut backend = MemoryBackend::new();
    backend.insert(
        DOMAIN.to_string(),
        format!("enrtree-root:v1 e={} l={} seq=1 sig={}", LABEL_A, LABEL_B, zeros),
    );
    let sk = SigningKey::from_slice(&[0x17u8; 32]).unwrap();
    let pk = PublicKey::from_compressed_bytes(compressed_key(&sk)).unwrap();
    let resolver = Resolver::new(Arc::new(backend));
    let (records, failures) = drain(resolver.query(DOMAIN, Some(pk)));
    assert!(records.is_empty());
    assert_eq!(failures.len(), 1);
    assert!(matches!(failures[0], WalkError::RecoveryFailed));
}

#[test]
fn failed_fetch_surfaces_as_one_item() {
    // A driver serving fetches itself hands each outcome to `step`; a
    // transport failure becomes one failure item and spawns nothing.
    let fetch = dnsdisc::Fetch {
        fqdn: format!("{}.{}", LABEL_A, DOMAIN),
        host: DOMAIN.to_string(),
        kind: dnsdisc::FetchKind::Child {
            kind: dnsdisc::BranchKind::Enr,
        },
    };
    let outcome = dnsdisc::FetchOutcome::Failed(dnsdisc::BackendError::Dns(
        "connection timed out".to_string(),
    ));
    let result = dnsdisc::step(&None, None, &fetch, outcome);
    assert!(result.fetches.is_empty());
    assert!(!result.terminate);
    assert_eq!(result.outputs.len(), 1);
    assert!(matches!(
        result.outputs[0],
        Output::Failure(WalkError::Backend(dnsdisc::BackendError::Dns(_)))
    ));
}

#[test]
fn branch_children_become_pending_at_once() {
    let backend = example_backend();
    // Present but empty, so the link leaf is skipped and the pending count
    // isolates the branch fan-out.
    let resolver = Resolver::new(Arc::new(backend)).with_remote_whitelist(Whitelist::new());
    let mut q = resolver.query(DOMAIN, None);
    assert_eq!(q.pending_count(), 1);
    // The root spawns the link-subtree fetch and the ENR-subtree fetch.
    let outputs = q.advance();
    assert!(outputs.is_empty());
    assert_eq!(q.pending_count(), 2);
    // The link leaf is skipped: no whitelist entry permits it.
    let outputs = q.advance();
    assert!(outputs.is_empty());
    assert_eq!(q.pending_count(), 1);
    // The branch fans out into all three children in one step.
    let outputs = q.advance();
    assert!(outputs.is_empty());
    assert_eq!(q.pending_count(), 3);
}
