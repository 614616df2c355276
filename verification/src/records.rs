//! The four record kinds of a DNS-embedded node-record tree, with their
//! well-formedness invariants and their mathematical models.
//!
//! A tree is published as TXT records: a signed root naming the sub-roots
//! of an ENR subtree and a link subtree, branches naming child records by
//! base32 subdomain labels, links crossing to other trees, and leaves
//! carrying node records in their `enr:` text form.

use vstd::prelude::*;

use crate::encoding::is_base32_char;
use crate::keys::{valid_pubkey, PublicKey};

verus! {

/// A subdomain label referencing a child record: 26 characters of the
/// RFC 4648 upper-case base32 alphabet.
pub open spec fn is_base32_label(s: Seq<char>) -> bool {
    s.len() == 26 && forall|k: int| 0 <= k < s.len() ==> is_base32_char(s[k])
}

/// Runtime test for [`is_base32_label`].
pub fn check_base32_label(s: &str) -> (r: bool)
    ensures
        r == is_base32_label(s@),
{
    let n = s.unicode_len();
    if n != 26 {
        return false;
    }
    let mut i: usize = 0;
    while i < n
        invariant
            n == s@.len(),
            i <= n,
            forall|k: int| 0 <= k < i ==> is_base32_char(s@[k]),
        decreases n - i,
    {
        if !crate::encoding::base32_char(s.get_char(i)) {
            return false;
        }
        i = i + 1;
    }
    true
}

/// A 26-character base32 subdomain label pointing at a child record.
#[derive(Debug)]
pub struct Base32Hash {
    pub label: String,
}

impl View for Base32Hash {
    type V = Seq<char>;

    open spec fn view(&self) -> Seq<char> {
        self.label@
    }
}

impl Base32Hash {
    pub open spec fn wf(&self) -> bool {
        is_base32_label(self@)
    }

    /// Accepts exactly the 26-character upper-case base32 labels.
    pub fn from_string(label: String) -> (r: Option<Base32Hash>)
        ensures
            match r {
                Some(h) => h@ == label@ && h.wf(),
                None => !is_base32_label(label@),
            },
    {
        if check_base32_label(label.as_str()) {
            Some(Base32Hash { label })
        } else {
            None
        }
    }

    /// The label as a string slice.
    pub fn as_str(&self) -> (r: &str)
        ensures
            r@ == self@,
    {
        self.label.as_str()
    }
}

impl Clone for Base32Hash {
    fn clone(&self) -> (r: Self)
        ensures
            r@ == self@,
    {
        Base32Hash { label: self.label.clone() }
    }
}

/// A 65-byte secp256k1 recoverable signature: 64 bytes `r ‖ s` followed by
/// a recovery id in `0..=3`.
#[derive(Debug)]
pub struct RecoverableSignature {
    pub bytes: Vec<u8>,
}

impl View for RecoverableSignature {
    type V = Seq<u8>;

    open spec fn view(&self) -> Seq<u8> {
        self.bytes@
    }
}

impl RecoverableSignature {
    pub open spec fn wf(&self) -> bool {
        self@.len() == 65 && self@[64] <= 3
    }

    /// Accepts exactly 65 bytes whose last byte is a recovery id in `0..=3`.
    pub fn from_bytes(bytes: Vec<u8>) -> (r: Option<RecoverableSignature>)
        ensures
            match r {
                Some(sig) => sig@ == bytes@ && sig.wf(),
                None => !(bytes@.len() == 65 && bytes@[64] <= 3),
            },
    {
        if bytes.len() == 65 && bytes[64] <= 3 {
            Some(RecoverableSignature { bytes })
        } else {
            None
        }
    }
}

impl Clone for RecoverableSignature {
    fn clone(&self) -> (r: Self)
        ensures
            r@ == self@,
    {
        RecoverableSignature { bytes: crate::keys::clone_bytes(&self.bytes) }
    }
}

/// The model of an unsigned root: the two sub-root labels and the version
/// sequence number.
pub struct UnsignedRootModel {
    pub enr_root: Seq<char>,
    pub link_root: Seq<char>,
    pub sequence: u64,
}

/// The signed part of a root record: the subdomain labels of the ENR
/// subtree and the link subtree, and a monotonically increasing sequence
/// number.
#[derive(Debug)]
pub struct UnsignedRoot {
    pub enr_root: Base32Hash,
    pub link_root: Base32Hash,
    pub sequence: u64,
}

impl View for UnsignedRoot {
    type V = UnsignedRootModel;

    open spec fn view(&self) -> UnsignedRootModel {
        UnsignedRootModel {
            enr_root: self.enr_root@,
            link_root: self.link_root@,
            sequence: self.sequence,
        }
    }
}

impl UnsignedRoot {
    pub open spec fn wf(&self) -> bool {
        self.enr_root.wf() && self.link_root.wf()
    }
}

impl Clone for UnsignedRoot {
    fn clone(&self) -> (r: Self)
        ensures
            r@ == self@,
    {
        UnsignedRoot {
            enr_root: self.enr_root.clone(),
            link_root: self.link_root.clone(),
            sequence: self.sequence,
        }
    }
}

/// The model of a root record: the unsigned part and the signature bytes.
pub struct RootRecordModel {
    pub base: UnsignedRootModel,
    pub signature: Seq<u8>,
}

/// A root record: an [`UnsignedRoot`] together with the recoverable
/// signature over its canonical text.
#[derive(Debug)]
pub struct RootRecord {
    pub base: UnsignedRoot,
    pub signature: RecoverableSignature,
}

impl View for RootRecord {
    type V = RootRecordModel;

    open spec fn view(&self) -> RootRecordModel {
        RootRecordModel { base: self.base@, signature: self.signature@ }
    }
}

impl RootRecord {
    pub open spec fn wf(&self) -> bool {
        self.base.wf() && self.signature.wf()
    }
}

impl Clone for RootRecord {
    fn clone(&self) -> (r: Self)
        ensures
            r@ == self@,
    {
        RootRecord { base: self.base.clone(), signature: self.signature.clone() }
    }
}

/// `s` is a text that the ENR codec accepts as a node record.
pub uninterp spec fn valid_enr(s: Seq<char>) -> bool;

/// Relies on `enr::Enr::<k256::ecdsa::SigningKey>::from_str`: parsing is a
/// function of the text alone, and this call decides whether the text is a
/// well-formed node record.
#[verifier::external_body]
pub(crate) fn check_enr(s: &str) -> (r: bool)
    ensures
        r == valid_enr(s@),
{
    s.parse::<enr::Enr<k256::ecdsa::SigningKey>>().is_ok()
}

/// An Ethereum node record, carried in its `enr:` base64url text form.
///
/// The record is opaque to this library: it is validated on construction
/// by the ENR codec and passed through unchanged.
#[derive(Debug)]
pub struct Enr {
    text: String,
}

impl View for Enr {
    type V = Seq<char>;

    closed spec fn view(&self) -> Seq<char> {
        self.text@
    }
}

impl Enr {
    /// The text begins with `enr:` and the ENR codec accepts it.
    pub open spec fn wf(&self) -> bool {
        crate::codec::has_enr_prefix(self@) && valid_enr(self@)
    }

    /// Accepts exactly the `enr:`-prefixed texts that the ENR codec
    /// accepts.
    pub fn from_text(text: String) -> (r: Option<Enr>)
        ensures
            match r {
                Some(record) => record@ == text@ && record.wf(),
                None => !(crate::codec::has_enr_prefix(text@) && valid_enr(text@)),
            },
    {
        proof {
            reveal_strlit("enr:");
        }
        let has_prefix = match crate::text::strip_prefix_str(text.as_str(), "enr:") {
            Some(_) => true,
            None => false,
        };
        if has_prefix && check_enr(text.as_str()) {
            Some(Enr { text })
        } else {
            None
        }
    }

    /// The `enr:` base64url text form of the record.
    pub fn to_base64(&self) -> (r: String)
        ensures
            r@ == self@,
    {
        self.text.clone()
    }
}

impl Clone for Enr {
    fn clone(&self) -> (r: Self)
        ensures
            r@ == self@,
    {
        Enr { text: self.text.clone() }
    }
}

/// The model of a record: each kind over plain sequences.
pub enum RecordModel {
    Root(RootRecordModel),
    Link { public_key: Seq<u8>, domain: Seq<char> },
    Branch { children: Seq<Seq<char>> },
    Enr { text: Seq<char> },
}

/// The labels of the children of a branch, in on-wire order.
pub open spec fn children_view(children: Seq<Base32Hash>) -> Seq<Seq<char>> {
    children.map_values(|h: Base32Hash| h@)
}

/// A record of a node-record tree: the signed root, a cross-tree link, a
/// branch naming child records, or a leaf node record.
#[derive(Debug)]
pub enum DnsRecord {
    Root(RootRecord),
    Link { public_key: PublicKey, domain: String },
    Branch { children: Vec<Base32Hash> },
    Enr { record: Enr },
}

impl View for DnsRecord {
    type V = RecordModel;

    open spec fn view(&self) -> RecordModel {
        match self {
            DnsRecord::Root(root) => RecordModel::Root(root@),
            DnsRecord::Link { public_key, domain } => RecordModel::Link {
                public_key: public_key@,
                domain: domain@,
            },
            DnsRecord::Branch { children } => RecordModel::Branch {
                children: children_view(children@),
            },
            DnsRecord::Enr { record } => RecordModel::Enr { text: record@ },
        }
    }
}

impl DnsRecord {
    /// Every part is well formed; branch children are distinct labels, and
    /// a link names a non-empty domain.
    pub open spec fn wf(&self) -> bool {
        match self {
            DnsRecord::Root(root) => root.wf(),
            DnsRecord::Link { public_key, domain } => public_key.wf() && domain@.len() > 0,
            DnsRecord::Branch { children } => {
                &&& forall|i: int| 0 <= i < children@.len() ==> (#[trigger] children@[i]).wf()
                &&& forall|i: int, j: int|
                    0 <= i < j < children@.len() ==> children@[i]@ != children@[j]@
            },
            DnsRecord::Enr { record } => record.wf(),
        }
    }
}

impl Clone for DnsRecord {
    fn clone(&self) -> (r: Self)
        ensures
            r@ == self@,
    {
        match self {
            DnsRecord::Root(root) => DnsRecord::Root(root.clone()),
            DnsRecord::Link { public_key, domain } => DnsRecord::Link {
                public_key: public_key.clone(),
                domain: domain.clone(),
            },
            DnsRecord::Branch { children } => {
                let mut copy: Vec<Base32Hash> = Vec::new();
                let n = children.len();
                let mut i: usize = 0;
                while i < n
                    invariant
                        n == children@.len(),
                        i <= n,
                        copy@.len() == i,
                        forall|k: int| 0 <= k < i ==> copy@[k]@ == children@[k]@,
                    decreases n - i,
                {
                    copy.push(children[i].clone());
                    i = i + 1;
                }
                proof {
                    assert(children_view(copy@) =~= children_view(children@));
                }
                DnsRecord::Branch { children: copy }
            },
            DnsRecord::Enr { record } => DnsRecord::Enr { record: record.clone() },
        }
    }
}

} // verus!
