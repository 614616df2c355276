//! Parsing and formatting of the four record kinds.

use dnsdisc::{CodecError, DnsRecord};

const ROOT_TEXT: &str = "enrtree-root:v1 e=JWXYDBPXYWG6FX3GMDIBFA6CJ4 l=C7HRFPF3BLGF3YR4DY5KX3SMBE seq=1 sig=o908WmNp7LibOfPsr4btQwatZJ5URBr2ZAuxvK4UWHlsB9sUOTJQaGAlLPVAhM__XJesCHxLISo94z5Z2a463gA";
const LINK_TEXT: &str =
    "enrtree://AM5FCQLWIZX2QFPNJAP7VUERCCRNGRHWZG3YYHIUV7BVDQ5FDPRT2@morenodes.example.org";
const BRANCH_TEXT: &str = "enrtree-branch:2XS2367YHAXJFGLZHVAWLQD4ZY,H4FHT4B454P6UXFD7JCYQ5PWDY,MHTDO6TMUBRIA2XWG5LUDACK24";
const ENR_TEXT: &str = "enr:-HW4QOFzoVLaFJnNhbgMoDXPnOvcdVuj7pDpqRvh6BRDO68aVi5ZcjB3vzQRZH2IcLBGHzo8uUN3snqmgTiE56CH3AMBgmlkgnY0iXNlY3AyNTZrMaECC2_24YYkYHEgdzxlSNKQEnHhuNAbNlMlWJxrJxbAFvA";

#[test]
fn parse_root_fields() {
    let rec = DnsRecord::parse(ROOT_TEXT).unwrap();
    match rec {
        DnsRecord::Root(root) => {
            assert_eq!(root.base.enr_root.label, "JWXYDBPXYWG6FX3GMDIBFA6CJ4");
            assert_eq!(root.base.link_root.label, "C7HRFPF3BLGF3YR4DY5KX3SMBE");
            assert_eq!(root.base.sequence, 1);
            assert_eq!(root.signature.bytes.len(), 65);
        }
        _ => panic!("expected a root record"),
    }
}

#[test]
fn root_round_trip() {
    let rec = DnsRecord::parse(ROOT_TEXT).unwrap();
    assert_eq!(rec.to_text(), ROOT_TEXT);
}

#[test]
fn root_field_order_is_free_and_last_occurrence_wins() {
    let shuffled = "enrtree-root:v1 sig=o908WmNp7LibOfPsr4btQwatZJ5URBr2ZAuxvK4UWHlsB9sUOTJQaGAlLPVAhM__XJesCHxLISo94z5Z2a463gA seq=2 l=C7HRFPF3BLGF3YR4DY5KX3SMBE e=JWXYDBPXYWG6FX3GMDIBFA6CJ4 seq=1";
    let rec = DnsRecord::parse(shuffled).unwrap();
    assert_eq!(rec.to_text(), ROOT_TEXT);
}

#[test]
fn parse_link_fields() {
    let rec = DnsRecord::parse(LINK_TEXT).unwrap();
    match rec {
        DnsRecord::Link {
            ref public_key,
            ref domain,
        } => {
            assert_eq!(domain.as_str(), "morenodes.example.org");
            let expected = data_encoding::BASE32_NOPAD
                .decode(b"AM5FCQLWIZX2QFPNJAP7VUERCCRNGRHWZG3YYHIUV7BVDQ5FDPRT2")
                .unwrap();
            assert_eq!(public_key.bytes, expected);
            assert_eq!(public_key.bytes.len(), 33);
        }
        _ => panic!("expected a link record"),
    }
    assert_eq!(rec.to_text(), LINK_TEXT);
}

#[test]
fn parse_branch_children() {
    let rec = DnsRecord::parse(BRANCH_TEXT).unwrap();
    match rec {
        DnsRecord::Branch { ref children } => {
            assert_eq!(children.len(), 3);
            assert_eq!(children[0].label, "2XS2367YHAXJFGLZHVAWLQD4ZY");
            assert_eq!(children[1].label, "H4FHT4B454P6UXFD7JCYQ5PWDY");
            assert_eq!(children[2].label, "MHTDO6TMUBRIA2XWG5LUDACK24");
        }
        _ => panic!("expected a branch record"),
    }
    assert_eq!(rec.to_text(), BRANCH_TEXT);
}

#[test]
fn branch_empty_tokens_are_dropped() {
    let with_empties = "enrtree-branch:,2XS2367YHAXJFGLZHVAWLQD4ZY,,H4FHT4B454P6UXFD7JCYQ5PWDY,";
    let rec = DnsRecord::parse(with_empties).unwrap();
    match rec {
        DnsRecord::Branch { ref children } => {
            assert_eq!(children.len(), 2);
            assert_eq!(children[0].label, "2XS2367YHAXJFGLZHVAWLQD4ZY");
            assert_eq!(children[1].label, "H4FHT4B454P6UXFD7JCYQ5PWDY");
        }
        _ => panic!("expected a branch record"),
    }
}

#[test]
fn branch_duplicate_children_are_collapsed() {
    let dups = "enrtree-branch:2XS2367YHAXJFGLZHVAWLQD4ZY,2XS2367YHAXJFGLZHVAWLQD4ZY";
    let rec = DnsRecord::parse(dups).unwrap();
    match rec {
        DnsRecord::Branch { ref children } => assert_eq!(children.len(), 1),
        _ => panic!("expected a branch record"),
    }
    assert_eq!(rec.to_text(), "enrtree-branch:2XS2367YHAXJFGLZHVAWLQD4ZY");
}

#[test]
fn empty_branch_round_trips() {
    let rec = DnsRecord::parse("enrtree-branch:").unwrap();
    match rec {
        DnsRecord::Branch { ref children } => assert_eq!(children.len(), 0),
        _ => panic!("expected a branch record"),
    }
    assert_eq!(rec.to_text(), "enrtree-branch:");
}

#[test]
fn parse_enr_round_trips() {
    let rec = DnsRecord::parse(ENR_TEXT).unwrap();
    match rec {
        DnsRecord::Enr { ref record } => assert_eq!(record.to_base64(), ENR_TEXT),
        _ => panic!("expected a node record"),
    }
    assert_eq!(rec.to_text(), ENR_TEXT);
}

#[test]
fn unknown_prefix_is_rejected() {
    assert_eq!(
        DnsRecord::parse("hello world").unwrap_err(),
        CodecError::InvalidRecord
    );
    assert_eq!(
        DnsRecord::parse("").unwrap_err(),
        CodecError::InvalidRecord
    );
}

#[test]
fn root_error_variants() {
    assert_eq!(
        DnsRecord::parse("enrtree-root:v1 x=1").unwrap_err(),
        CodecError::UnknownRootField
    );
    assert_eq!(
        DnsRecord::parse("enrtree-root:v1").unwrap_err(),
        CodecError::MissingEnrRoot
    );
    assert_eq!(
        DnsRecord::parse("enrtree-root:v1 e=JWXYDBPXYWG6FX3GMDIBFA6CJ4").unwrap_err(),
        CodecError::MissingLinkRoot
    );
    assert_eq!(
        DnsRecord::parse(
            "enrtree-root:v1 e=JWXYDBPXYWG6FX3GMDIBFA6CJ4 l=C7HRFPF3BLGF3YR4DY5KX3SMBE"
        )
        .unwrap_err(),
        CodecError::MissingSequence
    );
    assert_eq!(
        DnsRecord::parse(
            "enrtree-root:v1 e=JWXYDBPXYWG6FX3GMDIBFA6CJ4 l=C7HRFPF3BLGF3YR4DY5KX3SMBE seq=1"
        )
        .unwrap_err(),
        CodecError::MissingSignature
    );
    // A label must be 26 characters of upper-case base32.
    assert_eq!(
        DnsRecord::parse("enrtree-root:v1 e=short").unwrap_err(),
        CodecError::BadHash
    );
    assert_eq!(
        DnsRecord::parse("enrtree-root:v1 e=1WXYDBPXYWG6FX3GMDIBFA6CJ4").unwrap_err(),
        CodecError::BadHash
    );
    // A sequence number must be a decimal u64.
    assert_eq!(
        DnsRecord::parse("enrtree-root:v1 e=JWXYDBPXYWG6FX3GMDIBFA6CJ4 seq=abc").unwrap_err(),
        CodecError::BadSequence
    );
    assert_eq!(
        DnsRecord::parse("enrtree-root:v1 seq=18446744073709551616").unwrap_err(),
        CodecError::BadSequence
    );
    // A signature must be base64url for exactly 65 bytes.
    assert_eq!(
        DnsRecord::parse("enrtree-root:v1 sig=???").unwrap_err(),
        CodecError::BadSignature
    );
    assert_eq!(
        DnsRecord::parse("enrtree-root:v1 sig=AAAA").unwrap_err(),
        CodecError::BadSignature
    );
}

#[test]
fn sequence_bounds() {
    let max = "enrtree-root:v1 e=JWXYDBPXYWG6FX3GMDIBFA6CJ4 l=C7HRFPF3BLGF3YR4DY5KX3SMBE seq=18446744073709551615 sig=o908WmNp7LibOfPsr4btQwatZJ5URBr2ZAuxvK4UWHlsB9sUOTJQaGAlLPVAhM__XJesCHxLISo94z5Z2a463gA";
    let rec = DnsRecord::parse(max).unwrap();
    match rec {
        DnsRecord::Root(ref root) => assert_eq!(root.base.sequence, u64::MAX),
        _ => panic!("expected a root record"),
    }
    assert_eq!(rec.to_text(), max);
}

#[test]
fn link_error_variants() {
    // No separator, and an empty domain.
    assert_eq!(
        DnsRecord::parse("enrtree://AM5FCQLWIZX2QFPNJAP7VUERCCRNGRHWZG3YYHIUV7BVDQ5FDPRT2")
            .unwrap_err(),
        CodecError::MissingDomain
    );
    assert_eq!(
        DnsRecord::parse("enrtree://AM5FCQLWIZX2QFPNJAP7VUERCCRNGRHWZG3YYHIUV7BVDQ5FDPRT2@")
            .unwrap_err(),
        CodecError::MissingDomain
    );
    // Not base32 at all.
    assert_eq!(
        DnsRecord::parse("enrtree://notbase32!@nodes.example.org").unwrap_err(),
        CodecError::BadPublicKey
    );
    // Valid base32, but not 33 bytes.
    assert_eq!(
        DnsRecord::parse("enrtree://MFRGG@nodes.example.org").unwrap_err(),
        CodecError::BadPublicKey
    );
    // 33 bytes whose x-coordinate is not on the curve.
    let junk = data_encoding::BASE32_NOPAD.encode(&[0xffu8; 33]);
    let text = format!("enrtree://{}@nodes.example.org", junk);
    assert_eq!(
        DnsRecord::parse(&text).unwrap_err(),
        CodecError::BadPublicKey
    );
}

#[test]
fn bad_enr_is_rejected() {
    assert_eq!(
        DnsRecord::parse("enr:AAAA").unwrap_err(),
        CodecError::BadEnr
    );
}

#[test]
fn branch_bad_hash_is_rejected() {
    assert_eq!(
        DnsRecord::parse("enrtree-branch:notahash").unwrap_err(),
        CodecError::BadHash
    );
}
