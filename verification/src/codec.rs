//! The textual codec for tree records: parsing the four record kinds from
//! TXT payloads and writing their canonical text.
//!
//! The parser is specified exactly by [`parse_spec`], a total spec-level
//! parser over character sequences, and the formatter by [`format_spec`];
//! formatting a well-formed record and parsing the result returns the
//! record, which is stated as a postcondition of [`DnsRecord::to_text`].

use vstd::prelude::*;

use crate::encoding::{
    base32_decode, base32_decoded, base32_encode, base32_of, base64url_decode, base64url_decoded,
    base64url_encode, base64url_of, is_base32_char, is_base64url_char,
};
use crate::keys::{valid_pubkey, PublicKey};
use crate::records::{
    check_base32_label, is_base32_label, valid_enr, Base32Hash, DnsRecord, Enr, RecordModel,
    RecoverableSignature, RootRecord, RootRecordModel, UnsignedRoot, UnsignedRootModel,
};
use crate::text::{
    digits_of, has_prefix, is_ws, spec_find_sep, spec_parse_u64, spec_split_sep, spec_split_ws,
    spec_trim,
};

verus! {

/// The prefix of a root record's text.
pub open spec fn root_prefix() -> Seq<char> {
    "enrtree-root:v1"@
}

/// The prefix of a link record's text.
pub open spec fn link_prefix() -> Seq<char> {
    "enrtree://"@
}

/// The prefix of a branch record's text.
pub open spec fn branch_prefix() -> Seq<char> {
    "enrtree-branch:"@
}

/// The prefix of a node record's text.
pub open spec fn enr_prefix() -> Seq<char> {
    "enr:"@
}

/// `s` begins with `enr:`.
pub open spec fn has_enr_prefix(s: Seq<char>) -> bool {
    has_prefix(s, enr_prefix())
}

/// Why a TXT payload was rejected.
#[derive(Clone, Copy, Debug, PartialEq, Eq, Structural)]
pub enum CodecError {
    /// A field of a root record is none of `e=`, `l=`, `seq=`, `sig=`.
    UnknownRootField,
    /// A root record lacks its `e=` field.
    MissingEnrRoot,
    /// A root record lacks its `l=` field.
    MissingLinkRoot,
    /// A root record lacks its `seq=` field.
    MissingSequence,
    /// A root record lacks its `sig=` field.
    MissingSignature,
    /// A subdomain label is not 26 characters of upper-case base32.
    BadHash,
    /// A sequence number is not a decimal `u64`.
    BadSequence,
    /// A signature is not base64url for 65 bytes with a recovery id in
    /// `0..=3`.
    BadSignature,
    /// A link's key is not base32 for a 33-byte compressed curve point.
    BadPublicKey,
    /// A link has no `@` or an empty domain after it.
    MissingDomain,
    /// The ENR codec rejected a node record.
    BadEnr,
    /// The text begins with none of the four record prefixes.
    InvalidRecord,
}

/// The fields of a root record gathered while reading its tokens.
pub struct RootFields {
    pub enr_root: Option<Seq<char>>,
    pub link_root: Option<Seq<char>>,
    pub sequence: Option<u64>,
    pub signature: Option<Seq<u8>>,
}

/// How one whitespace-separated token of a root record updates the fields
/// gathered so far; a repeated field keeps the last occurrence.
pub open spec fn root_token_spec(t: Seq<char>, st: RootFields) -> Result<RootFields, CodecError> {
    if has_prefix(t, "e="@) {
        let v = t.skip(2);
        if is_base32_label(v) {
            Ok(RootFields { enr_root: Some(v), ..st })
        } else {
            Err(CodecError::BadHash)
        }
    } else if has_prefix(t, "l="@) {
        let v = t.skip(2);
        if is_base32_label(v) {
            Ok(RootFields { link_root: Some(v), ..st })
        } else {
            Err(CodecError::BadHash)
        }
    } else if has_prefix(t, "seq="@) {
        match spec_parse_u64(t.skip(4)) {
            Some(n) => Ok(RootFields { sequence: Some(n), ..st }),
            None => Err(CodecError::BadSequence),
        }
    } else if has_prefix(t, "sig="@) {
        match base64url_decoded(t.skip(4)) {
            Some(b) => {
                if b.len() == 65 && b[64] <= 3 {
                    Ok(RootFields { signature: Some(b), ..st })
                } else {
                    Err(CodecError::BadSignature)
                }
            },
            None => Err(CodecError::BadSignature),
        }
    } else {
        Err(CodecError::UnknownRootField)
    }
}

/// Reads a root record's tokens left to right.
pub open spec fn root_fold_spec(tokens: Seq<Seq<char>>, st: RootFields) -> Result<
    RootFields,
    CodecError,
>
    decreases tokens.len(),
{
    if tokens.len() == 0 {
        Ok(st)
    } else {
        match root_token_spec(tokens[0], st) {
            Ok(st2) => root_fold_spec(tokens.drop_first(), st2),
            Err(e) => Err(e),
        }
    }
}

pub open spec fn root_fields_empty() -> RootFields {
    RootFields { enr_root: None, link_root: None, sequence: None, signature: None }
}

/// The root record denoted by the text after the root prefix: its
/// whitespace-separated tokens must each be a known field, and all four
/// fields must be present.
pub open spec fn parse_root_spec(rest: Seq<char>) -> Result<RecordModel, CodecError> {
    match root_fold_spec(spec_split_ws(rest), root_fields_empty()) {
        Err(e) => Err(e),
        Ok(st) => {
            if st.enr_root is None {
                Err(CodecError::MissingEnrRoot)
            } else if st.link_root is None {
                Err(CodecError::MissingLinkRoot)
            } else if st.sequence is None {
                Err(CodecError::MissingSequence)
            } else if st.signature is None {
                Err(CodecError::MissingSignature)
            } else {
                Ok(
                    RecordModel::Root(
                        RootRecordModel {
                            base: UnsignedRootModel {
                                enr_root: st.enr_root->0,
                                link_root: st.link_root->0,
                                sequence: st.sequence->0,
                            },
                            signature: st.signature->0,
                        },
                    ),
                )
            }
        },
    }
}

/// The link record denoted by the text after the link prefix: a base32
/// compressed public key, `@`, and a non-empty domain.
pub open spec fn parse_link_spec(rest: Seq<char>) -> Result<RecordModel, CodecError> {
    match spec_find_sep(rest, '@') {
        None => Err(CodecError::MissingDomain),
        Some(i) => {
            let domain = rest.skip(i + 1);
            if domain.len() == 0 {
                Err(CodecError::MissingDomain)
            } else {
                match base32_decoded(rest.take(i)) {
                    Some(b) => {
                        if b.len() == 33 && valid_pubkey(b) {
                            Ok(RecordModel::Link { public_key: b, domain })
                        } else {
                            Err(CodecError::BadPublicKey)
                        }
                    },
                    None => Err(CodecError::BadPublicKey),
                }
            }
        },
    }
}

/// Reads a branch's comma-separated tokens left to right: empty tokens are
/// dropped, duplicates are collapsed, and anything that is not a subdomain
/// label is an error.
pub open spec fn branch_fold_spec(tokens: Seq<Seq<char>>, acc: Seq<Seq<char>>) -> Result<
    Seq<Seq<char>>,
    CodecError,
>
    decreases tokens.len(),
{
    if tokens.len() == 0 {
        Ok(acc)
    } else {
        let t = tokens[0];
        if t.len() == 0 {
            branch_fold_spec(tokens.drop_first(), acc)
        } else if is_base32_label(t) {
            if acc.contains(t) {
                branch_fold_spec(tokens.drop_first(), acc)
            } else {
                branch_fold_spec(tokens.drop_first(), acc.push(t))
            }
        } else {
            Err(CodecError::BadHash)
        }
    }
}

/// The branch record denoted by the text after the branch prefix.
pub open spec fn parse_branch_spec(rest: Seq<char>) -> Result<RecordModel, CodecError> {
    match branch_fold_spec(spec_split_sep(spec_trim(rest), ','), Seq::empty()) {
        Ok(children) => Ok(RecordModel::Branch { children }),
        Err(e) => Err(e),
    }
}

/// The record denoted by a TXT payload, or the error with which it is
/// rejected: the total specification of [`DnsRecord::parse`].
pub open spec fn parse_spec(s: Seq<char>) -> Result<RecordModel, CodecError> {
    if has_prefix(s, root_prefix()) {
        parse_root_spec(s.skip(root_prefix().len() as int))
    } else if has_prefix(s, link_prefix()) {
        parse_link_spec(s.skip(link_prefix().len() as int))
    } else if has_prefix(s, branch_prefix()) {
        parse_branch_spec(s.skip(branch_prefix().len() as int))
    } else if has_prefix(s, enr_prefix()) {
        if valid_enr(s) {
            Ok(RecordModel::Enr { text: s })
        } else {
            Err(CodecError::BadEnr)
        }
    } else {
        Err(CodecError::InvalidRecord)
    }
}

/// The canonical text of an unsigned root: the byte-exact message that its
/// signature signs.
pub open spec fn signed_message_spec(base: UnsignedRootModel) -> Seq<char> {
    root_prefix() + " e="@ + base.enr_root + " l="@ + base.link_root + " seq="@ + digits_of(
        base.sequence as nat,
    )
}

/// The comma-joined child labels of a branch.
pub open spec fn join_commas(children: Seq<Seq<char>>) -> Seq<char>
    decreases children.len(),
{
    if children.len() == 0 {
        Seq::empty()
    } else if children.len() == 1 {
        children[0]
    } else {
        children[0] + seq![','] + join_commas(children.drop_first())
    }
}

/// The canonical text of a record: the specification of
/// [`DnsRecord::to_text`].
pub open spec fn format_spec(m: RecordModel) -> Seq<char> {
    match m {
        RecordModel::Root(root) => signed_message_spec(root.base) + " sig="@ + base64url_of(
            root.signature,
        ),
        RecordModel::Link { public_key, domain } => link_prefix() + base32_of(public_key)
            + seq!['@'] + domain,
        RecordModel::Branch { children } => branch_prefix() + join_commas(children),
        RecordModel::Enr { text } => text,
    }
}

/// A space, a whitespace-free token and a remainder split as the token
/// followed by the split of the remainder.
proof fn lemma_split_ws_space_token(t: Seq<char>, rest: Seq<char>)
    requires
        t.len() > 0,
        forall|k: int| 0 <= k < t.len() ==> !is_ws(t[k]),
        rest.len() == 0 || is_ws(rest[0]),
    ensures
        spec_split_ws(seq![' '] + t + rest) == seq![t] + spec_split_ws(rest),
{
    let s = seq![' '] + t + rest;
    assert(s[0] == ' ');
    assert(s.drop_first() =~= t + rest);
    crate::text::lemma_split_ws_concat(t, rest);
}

/// Folding distinct valid labels appends them all.
proof fn lemma_branch_fold_distinct(tokens: Seq<Seq<char>>, acc: Seq<Seq<char>>)
    requires
        forall|i: int| 0 <= i < tokens.len() ==> is_base32_label(#[trigger] tokens[i]),
        forall|i: int, j: int|
            0 <= i < tokens.len() && 0 <= j < acc.len() ==> #[trigger] tokens[i] != #[trigger] acc[j],
        forall|i: int, j: int| 0 <= i < j < tokens.len() ==> tokens[i] != tokens[j],
    ensures
        branch_fold_spec(tokens, acc) == Ok::<_, CodecError>(acc + tokens),
    decreases tokens.len(),
{
    if tokens.len() == 0 {
        assert(acc + tokens =~= acc);
    } else {
        let t = tokens[0];
        assert(t.len() == 26);
        assert(!acc.contains(t)) by {
            if acc.contains(t) {
                let j = choose|j: int| 0 <= j < acc.len() && acc[j] == t;
                assert(tokens[0] != acc[j]);
            }
        }
        lemma_branch_fold_distinct(tokens.drop_first(), acc.push(t));
        assert(acc.push(t) + tokens.drop_first() =~= acc + tokens);
    }
}

/// Splitting the comma-joined form of comma-free non-empty labels returns
/// the labels (or one empty token when there are none).
proof fn lemma_split_join(children: Seq<Seq<char>>)
    requires
        forall|i: int| 0 <= i < children.len() ==> (#[trigger] children[i]).len() > 0,
        forall|i: int, k: int|
            0 <= i < children.len() && 0 <= k < children[i].len() ==> #[trigger] children[i][k]
                != ',',
    ensures
        children.len() == 0 ==> spec_split_sep(join_commas(children), ',') == seq![
            Seq::<char>::empty(),
        ],
        children.len() > 0 ==> spec_split_sep(join_commas(children), ',') == children,
    decreases children.len(),
{
    if children.len() == 0 {
        crate::text::lemma_split_sep_whole(Seq::empty(), ',');
    } else if children.len() == 1 {
        crate::text::lemma_split_sep_whole(children[0], ',');
        assert(seq![children[0]] =~= children);
    } else {
        let head = children[0];
        let rest = seq![','] + join_commas(children.drop_first());
        assert(join_commas(children) == head + rest);
        assert(rest[0] == ',');
        crate::text::lemma_split_sep_concat(head, rest, ',');
        assert(rest.drop_first() =~= join_commas(children.drop_first()));
        lemma_split_join(children.drop_first());
        assert(seq![head] + children.drop_first() =~= children);
    }
}

impl UnsignedRoot {
    /// Writes the canonical text of the unsigned root: the byte-exact
    /// message that the root's signature signs.
    pub fn to_text(&self) -> (r: String)
        ensures
            r@ == signed_message_spec(self@),
    {
        proof {
            reveal_strlit("enrtree-root:v1");
            reveal_strlit(" e=");
            reveal_strlit(" l=");
            reveal_strlit(" seq=");
        }
        let mut s = String::new();
        s.append("enrtree-root:v1");
        s.append(" e=");
        s.append(self.enr_root.as_str());
        s.append(" l=");
        s.append(self.link_root.as_str());
        s.append(" seq=");
        let d = crate::text::u64_to_dec(self.sequence);
        s.append(d.as_str());
        proof {
            assert(s@ =~= signed_message_spec(self@));
        }
        s
    }
}

impl RootRecord {
    /// Writes the canonical text of the root record; parsing it returns
    /// the record.
    pub fn to_text(&self) -> (r: String)
        requires
            self.wf(),
        ensures
            r@ == format_spec(RecordModel::Root(self@)),
            parse_spec(r@) == Ok::<_, CodecError>(RecordModel::Root(self@)),
    {
        proof {
            reveal_strlit(" sig=");
        }
        let mut s = self.base.to_text();
        s.append(" sig=");
        let sig64 = base64url_encode(self.signature.bytes.as_slice());
        s.append(sig64.as_str());
        proof {
            assert(s@ =~= format_spec(RecordModel::Root(self@)));
            lemma_parse_root_text(self@, sig64@);
        }
        s
    }
}

/// Parsing the canonical text of a well-formed root record returns the
/// record.
proof fn lemma_parse_root_text(root: RootRecordModel, sig64: Seq<char>)
    requires
        is_base32_label(root.base.enr_root),
        is_base32_label(root.base.link_root),
        root.signature.len() == 65,
        root.signature[64] <= 3,
        sig64 == base64url_of(root.signature),
        base64url_decoded(sig64) == Some(root.signature),
        forall|k: int| 0 <= k < sig64.len() ==> is_base64url_char(#[trigger] sig64[k]),
    ensures
        parse_spec(signed_message_spec(root.base) + " sig="@ + sig64) == Ok::<_, CodecError>(
            RecordModel::Root(root),
        ),
{
    reveal_strlit("enrtree-root:v1");
    reveal_strlit(" e=");
    reveal_strlit(" l=");
    reveal_strlit(" seq=");
    reveal_strlit(" sig=");
    reveal_strlit("e=");
    reveal_strlit("l=");
    reveal_strlit("seq=");
    reveal_strlit("sig=");
    let e = root.base.enr_root;
    let l = root.base.link_root;
    let d = digits_of(root.base.sequence as nat);
    let s = signed_message_spec(root.base) + " sig="@ + sig64;
    crate::text::lemma_parse_digits_of(root.base.sequence);

    // The text begins with the root prefix, and the rest is the four
    // fields, each preceded by one space.
    assert(has_prefix(s, root_prefix())) by {
        assert(s.take(15) =~= root_prefix());
    }
    let t1 = "e="@ + e;
    let t2 = "l="@ + l;
    let t3 = "seq="@ + d;
    let t4 = "sig="@ + sig64;
    let r4 = seq![' '] + t4;
    let r3 = seq![' '] + t3 + r4;
    let r2 = seq![' '] + t2 + r3;
    let r1 = seq![' '] + t1 + r2;
    assert(s.skip(15) =~= r1);

    // Tokenisation: each field is whitespace-free.
    assert(forall|k: int| 0 <= k < t1.len() ==> !is_ws(#[trigger] t1[k]));
    assert(forall|k: int| 0 <= k < t2.len() ==> !is_ws(#[trigger] t2[k]));
    assert(forall|k: int| 0 <= k < t3.len() ==> !is_ws(#[trigger] t3[k])) by {
        assert(forall|k: int| 0 <= k < d.len() ==> crate::text::is_digit(#[trigger] d[k]));
    }
    assert(forall|k: int| 0 <= k < t4.len() ==> !is_ws(#[trigger] t4[k]));
    lemma_split_ws_space_token(t4, Seq::empty());
    lemma_split_ws_space_token(t3, r4);
    lemma_split_ws_space_token(t2, r3);
    lemma_split_ws_space_token(t1, r2);
    assert(r2 =~= seq![' '] + t2 + r3);
    let tokens = spec_split_ws(r1);
    assert(tokens =~= seq![t1, t2, t3, t4]);

    // Reading the tokens gathers the four fields.
    let st0 = root_fields_empty();
    assert(has_prefix(t1, "e="@)) by {
        assert(t1.take(2) =~= "e="@);
    }
    assert(t1.skip(2) =~= e);
    let st1 = RootFields { enr_root: Some(e), ..st0 };
    assert(root_token_spec(t1, st0) == Ok::<_, CodecError>(st1));

    assert(!has_prefix(t2, "e="@)) by {
        if has_prefix(t2, "e="@) {
            assert(t2.take(2)[0] == t2[0]);
        }
    }
    assert(has_prefix(t2, "l="@)) by {
        assert(t2.take(2) =~= "l="@);
    }
    assert(t2.skip(2) =~= l);
    let st2 = RootFields { link_root: Some(l), ..st1 };
    assert(root_token_spec(t2, st1) == Ok::<_, CodecError>(st2));

    assert(!has_prefix(t3, "e="@)) by {
        if has_prefix(t3, "e="@) {
            assert(t3.take(2)[0] == t3[0]);
        }
    }
    assert(!has_prefix(t3, "l="@)) by {
        if has_prefix(t3, "l="@) {
            assert(t3.take(2)[0] == t3[0]);
        }
    }
    assert(has_prefix(t3, "seq="@)) by {
        assert(t3.take(4) =~= "seq="@);
    }
    assert(t3.skip(4) =~= d);
    let st3 = RootFields { sequence: Some(root.base.sequence), ..st2 };
    assert(root_token_spec(t3, st2) == Ok::<_, CodecError>(st3));

    assert(!has_prefix(t4, "e="@)) by {
        if has_prefix(t4, "e="@) {
            assert(t4.take(2)[0] == t4[0]);
        }
    }
    assert(!has_prefix(t4, "l="@)) by {
        if has_prefix(t4, "l="@) {
            assert(t4.take(2)[0] == t4[0]);
        }
    }
    assert(!has_prefix(t4, "seq="@)) by {
        if has_prefix(t4, "seq="@) {
            assert(t4.take(4)[1] == t4[1]);
        }
    }
    assert(has_prefix(t4, "sig="@)) by {
        assert(t4.take(4) =~= "sig="@);
    }
    assert(t4.skip(4) =~= sig64);
    let st4 = RootFields { signature: Some(root.signature), ..st3 };
    assert(root_token_spec(t4, st3) == Ok::<_, CodecError>(st4));

    assert(tokens.drop_first() =~= seq![t2, t3, t4]);
    assert(seq![t2, t3, t4].drop_first() =~= seq![t3, t4]);
    assert(seq![t3, t4].drop_first() =~= seq![t4]);
    assert(seq![t4].drop_first() =~= Seq::<Seq<char>>::empty());
    assert(root_fold_spec(Seq::<Seq<char>>::empty(), st4) == Ok::<_, CodecError>(st4));
    assert(root_fold_spec(seq![t4], st3) == Ok::<_, CodecError>(st4));
    assert(root_fold_spec(seq![t3, t4], st2) == Ok::<_, CodecError>(st4));
    assert(root_fold_spec(seq![t2, t3, t4], st1) == Ok::<_, CodecError>(st4));
    assert(root_fold_spec(tokens, st0) == Ok::<_, CodecError>(st4));
    assert(parse_root_spec(r1) == Ok::<_, CodecError>(RecordModel::Root(root)));
}

/// Every character of the comma-joined labels is a base32 character or a
/// comma, and the join of at least one label is non-empty.
proof fn lemma_join_charset(children: Seq<Seq<char>>)
    requires
        forall|i: int| 0 <= i < children.len() ==> is_base32_label(#[trigger] children[i]),
    ensures
        forall|k: int|
            0 <= k < join_commas(children).len() ==> is_base32_char(
                #[trigger] join_commas(children)[k],
            ) || join_commas(children)[k] == ',',
        children.len() > 0 ==> join_commas(children).len() > 0,
    decreases children.len(),
{
    if children.len() == 0 {
    } else if children.len() == 1 {
        assert(children[0].len() == 26);
    } else {
        lemma_join_charset(children.drop_first());
        assert(children[0].len() == 26);
        let j = join_commas(children);
        let head = children[0];
        let tail = join_commas(children.drop_first());
        assert(j == head + seq![','] + tail);
        assert forall|k: int| 0 <= k < j.len() implies is_base32_char(#[trigger] j[k]) || j[k]
            == ',' by {
            if k < head.len() {
                assert(j[k] == head[k]);
            } else if k == head.len() {
                assert(j[k] == ',');
            } else {
                assert(j[k] == tail[k - head.len() - 1]);
            }
        }
    }
}

/// Appending one label to a joined list appends a comma and the label
/// (or is the label itself when the list was empty).
proof fn lemma_join_push(children: Seq<Seq<char>>, x: Seq<char>)
    ensures
        children.len() == 0 ==> join_commas(children.push(x)) == x,
        children.len() > 0 ==> join_commas(children.push(x)) == join_commas(children) + seq![',']
            + x,
    decreases children.len(),
{
    if children.len() == 0 {
        assert(children.push(x) =~= seq![x]);
        assert(join_commas(seq![x]) == x);
    } else if children.len() == 1 {
        assert(children.push(x)[0] == children[0]);
        assert(children.push(x).drop_first() =~= seq![x]);
        assert(join_commas(seq![x]) == x);
        assert(join_commas(children.push(x)) == children[0] + seq![','] + x);
    } else {
        lemma_join_push(children.drop_first(), x);
        assert(children.push(x)[0] == children[0]);
        assert(children.push(x).drop_first() =~= children.drop_first().push(x));
        assert(join_commas(children.push(x)) == children[0] + seq![','] + (join_commas(
            children.drop_first(),
        ) + seq![','] + x));
        assert(children[0] + seq![','] + (join_commas(children.drop_first()) + seq![','] + x)
            =~= (children[0] + seq![','] + join_commas(children.drop_first())) + seq![','] + x);
    }
}

impl RootRecord {
    /// Recovers the signer of the root's canonical text and compares it
    /// with `pk`: `Some(true)` when they agree, `Some(false)` when another
    /// key signed, and `None` when recovery fails.
    pub fn verify(&self, pk: &PublicKey) -> (r: Option<bool>)
        requires
            self.wf(),
        ensures
            r == match crate::keys::recovered_key(
                signed_message_spec(self@.base),
                self@.signature,
            ) {
                Some(k) => Some(k == pk@),
                None => None::<bool>,
            },
    {
        let msg = self.base.to_text();
        match crate::keys::recover_signer(msg.as_str(), self.signature.bytes.as_slice()) {
            Some(recovered) => Some(
                crate::keys::bytes_eq(recovered.as_slice(), pk.bytes.as_slice()),
            ),
            None => None,
        }
    }
}

impl DnsRecord {
    /// Writes the canonical text of the record; parsing it returns the
    /// record.  The on-wire order of branch children is the stored order.
    pub fn to_text(&self) -> (r: String)
        requires
            self.wf(),
        ensures
            r@ == format_spec(self@),
            parse_spec(r@) == Ok::<_, CodecError>(self@),
    {
        proof {
            reveal_strlit("enrtree-root:v1");
            reveal_strlit("enrtree://");
            reveal_strlit("enrtree-branch:");
            reveal_strlit("enr:");
            reveal_strlit("@");
            reveal_strlit(",");
        }
        match self {
            DnsRecord::Root(root) => root.to_text(),
            DnsRecord::Link { public_key, domain } => {
                let mut s = String::new();
                s.append("enrtree://");
                let k32 = base32_encode(public_key.bytes.as_slice());
                s.append(k32.as_str());
                s.append("@");
                s.append(domain.as_str());
                proof {
                    assert("@"@ =~= seq!['@']);
                    assert(s@ =~= format_spec(self@));
                    lemma_parse_link_text(public_key@, domain@, k32@);
                }
                s
            },
            DnsRecord::Branch { children } => {
                let ghost cv = crate::records::children_view(children@);
                let mut s = String::new();
                s.append("enrtree-branch:");
                let n = children.len();
                let mut i: usize = 0;
                proof {
                    assert(cv.take(0) =~= Seq::<Seq<char>>::empty());
                }
                while i < n
                    invariant
                        n == children@.len(),
                        i <= n,
                        cv == crate::records::children_view(children@),
                        forall|q: int| 0 <= q < n ==> (#[trigger] children@[q]).wf(),
                        s@ == branch_prefix() + join_commas(cv.take(i as int)),
                    decreases n - i,
                {
                    proof {
                        reveal_strlit(",");
                        lemma_join_push(cv.take(i as int), cv[i as int]);
                        assert(cv.take(i as int).push(cv[i as int]) =~= cv.take(i as int + 1));
                    }
                    if i > 0 {
                        s.append(",");
                    }
                    s.append(children[i].as_str());
                    proof {
                        assert(children@[i as int]@ == cv[i as int]);
                        assert(s@ =~= branch_prefix() + join_commas(cv.take(i as int + 1)));
                    }
                    i = i + 1;
                }
                proof {
                    assert(cv.take(n as int) =~= cv);
                    lemma_parse_branch_text(cv);
                }
                s
            },
            DnsRecord::Enr { record } => {
                let s = record.to_base64();
                proof {
                    lemma_parse_enr_text(record@);
                }
                s
            },
        }
    }
}

/// Parsing the canonical text of a well-formed link record returns the
/// record.
proof fn lemma_parse_link_text(public_key: Seq<u8>, domain: Seq<char>, k32: Seq<char>)
    requires
        public_key.len() == 33,
        valid_pubkey(public_key),
        domain.len() > 0,
        k32 == base32_of(public_key),
        base32_decoded(k32) == Some(public_key),
        forall|k: int| 0 <= k < k32.len() ==> is_base32_char(#[trigger] k32[k]),
    ensures
        parse_spec(link_prefix() + base32_of(public_key) + seq!['@'] + domain) == Ok::<
            _,
            CodecError,
        >(RecordModel::Link { public_key, domain }),
{
    reveal_strlit("enrtree-root:v1");
    reveal_strlit("enrtree://");
    let s = link_prefix() + k32 + seq!['@'] + domain;
    assert(s[8] == link_prefix()[8]);
    assert(!has_prefix(s, root_prefix())) by {
        if has_prefix(s, root_prefix()) {
            assert(s.take(15)[8] == s[8]);
        }
    }
    assert(has_prefix(s, link_prefix())) by {
        assert(s.take(10) =~= link_prefix());
    }
    let rest = s.skip(10);
    assert(rest =~= k32 + seq!['@'] + domain);
    assert(forall|k: int| 0 <= k < k32.len() ==> #[trigger] rest[k] == k32[k]);
    assert(rest[k32.len() as int] == '@');
    crate::text::lemma_sep_token_len_range(rest, '@', 0, k32.len() as int);
    assert(rest.skip(0) =~= rest);
    assert(spec_find_sep(rest, '@') == Some(k32.len() as int));
    assert(rest.skip(k32.len() as int + 1) =~= domain);
    assert(rest.take(k32.len() as int) =~= k32);
}

/// Parsing the canonical text of a well-formed branch record returns the
/// record.
proof fn lemma_parse_branch_text(children: Seq<Seq<char>>)
    requires
        forall|i: int| 0 <= i < children.len() ==> is_base32_label(#[trigger] children[i]),
        forall|i: int, j: int| 0 <= i < j < children.len() ==> children[i] != children[j],
    ensures
        parse_spec(branch_prefix() + join_commas(children)) == Ok::<_, CodecError>(
            RecordModel::Branch { children },
        ),
{
    reveal_strlit("enrtree-root:v1");
    reveal_strlit("enrtree://");
    reveal_strlit("enrtree-branch:");
    let j = join_commas(children);
    let s = branch_prefix() + j;
    lemma_join_charset(children);
    assert(s[8] == branch_prefix()[8]);
    assert(!has_prefix(s, root_prefix())) by {
        if has_prefix(s, root_prefix()) {
            assert(s.take(15)[8] == s[8]);
        }
    }
    assert(!has_prefix(s, link_prefix())) by {
        if has_prefix(s, link_prefix()) {
            assert(s.take(10)[8] == s[8]);
        }
    }
    assert(has_prefix(s, branch_prefix())) by {
        assert(s.take(15) =~= branch_prefix());
    }
    assert(s.skip(15) =~= j);
    assert(spec_trim(j) == j) by {
        if j.len() > 0 {
            assert(!is_ws(j[0]));
            assert(!is_ws(j.last()));
        }
        crate::text::lemma_trim_noop(j);
    }
    assert forall|i: int| 0 <= i < children.len() implies (#[trigger] children[i]).len() > 0 by {
        assert(is_base32_label(children[i]));
    }
    assert forall|i: int, k: int|
        0 <= i < children.len() && 0 <= k < children[i].len() implies #[trigger] children[i][k]
        != ',' by {
        assert(is_base32_label(children[i]));
        assert(is_base32_char(children[i][k]));
    }
    lemma_split_join(children);
    assert(spec_trim(s.skip(15)) == j);
    if children.len() == 0 {
        assert(children =~= Seq::<Seq<char>>::empty());
        let tokens = seq![Seq::<char>::empty()];
        assert(spec_split_sep(spec_trim(s.skip(15)), ',') == tokens);
        assert(tokens[0].len() == 0);
        assert(tokens.drop_first() =~= Seq::<Seq<char>>::empty());
        assert(branch_fold_spec(Seq::<Seq<char>>::empty(), Seq::<Seq<char>>::empty())
            == Ok::<_, CodecError>(Seq::<Seq<char>>::empty()));
        assert(branch_fold_spec(tokens, Seq::<Seq<char>>::empty()) == Ok::<_, CodecError>(
            Seq::<Seq<char>>::empty(),
        ));
        assert(branch_fold_spec(spec_split_sep(spec_trim(s.skip(15)), ','), Seq::empty())
            == Ok::<_, CodecError>(children));
    } else {
        assert(spec_split_sep(spec_trim(s.skip(15)), ',') == children);
        lemma_branch_fold_distinct(children, Seq::<Seq<char>>::empty());
        assert(Seq::<Seq<char>>::empty() + children =~= children);
        assert(branch_fold_spec(spec_split_sep(spec_trim(s.skip(15)), ','), Seq::empty())
            == Ok::<_, CodecError>(children));
    }
    assert(parse_branch_spec(s.skip(15)) == Ok::<_, CodecError>(RecordModel::Branch { children }));
    assert(parse_spec(s) == parse_branch_spec(s.skip(15)));
}

/// The fields gathered by the executable root parser, as a [`RootFields`].
spec fn fields_view(
    e: Option<Base32Hash>,
    l: Option<Base32Hash>,
    sq: Option<u64>,
    sig: Option<RecoverableSignature>,
) -> RootFields {
    RootFields {
        enr_root: match e {
            Some(h) => Some(h@),
            None => None,
        },
        link_root: match l {
            Some(h) => Some(h@),
            None => None,
        },
        sequence: sq,
        signature: match sig {
            Some(g) => Some(g@),
            None => None,
        },
    }
}

/// Parses the text after the root prefix as the fields of a root record.
#[verifier::loop_isolation(false)]
fn parse_root(rest: &str) -> (r: Result<RootRecord, CodecError>)
    ensures
        match r {
            Ok(root) => root.wf() && parse_root_spec(rest@) == Ok::<_, CodecError>(
                RecordModel::Root(root@),
            ),
            Err(e) => parse_root_spec(rest@) == Err::<RecordModel, _>(e),
        },
{
    proof {
        reveal_strlit("e=");
        reveal_strlit("l=");
        reveal_strlit("seq=");
        reveal_strlit("sig=");
    }
    let tokens = crate::text::split_whitespace_tokens(rest);
    let ghost full = tokens.deep_view();
    let n = tokens.len();
    let mut e: Option<Base32Hash> = None;
    let mut l: Option<Base32Hash> = None;
    let mut sq: Option<u64> = None;
    let mut sig: Option<RecoverableSignature> = None;
    let mut i: usize = 0;
    proof {
        assert(full.skip(0) =~= full);
    }
    while i < n
        invariant
            i <= n,
            root_fold_spec(full, root_fields_empty()) == root_fold_spec(
                full.skip(i as int),
                fields_view(e, l, sq, sig),
            ),
            e matches Some(h) ==> h.wf(),
            l matches Some(h) ==> h.wf(),
            sig matches Some(g) ==> g.wf(),
        decreases n - i,
    {
        let ghost st = fields_view(e, l, sq, sig);
        let t = &tokens[i];
        proof {
            assert(full[i as int] == tokens@[i as int]@);
            assert(full.skip(i as int)[0] == full[i as int]);
            assert(full.skip(i as int).drop_first() =~= full.skip(i as int + 1));
        }
        if let Some(v) = crate::text::strip_prefix_str(t.as_str(), "e=") {
            proof {
                assert(t@.skip(2) =~= v@);
            }
            match Base32Hash::from_string(v.to_owned()) {
                Some(h) => {
                    e = Some(h);
                },
                None => {
                    return Err(CodecError::BadHash);
                },
            }
        } else if let Some(v) = crate::text::strip_prefix_str(t.as_str(), "l=") {
            proof {
                assert(t@.skip(2) =~= v@);
            }
            match Base32Hash::from_string(v.to_owned()) {
                Some(h) => {
                    l = Some(h);
                },
                None => {
                    return Err(CodecError::BadHash);
                },
            }
        } else if let Some(v) = crate::text::strip_prefix_str(t.as_str(), "seq=") {
            proof {
                assert(t@.skip(4) =~= v@);
            }
            match crate::text::parse_dec_u64(v) {
                Some(value) => {
                    sq = Some(value);
                },
                None => {
                    return Err(CodecError::BadSequence);
                },
            }
        } else if let Some(v) = crate::text::strip_prefix_str(t.as_str(), "sig=") {
            proof {
                assert(t@.skip(4) =~= v@);
            }
            match base64url_decode(v) {
                Some(bytes) => {
                    match RecoverableSignature::from_bytes(bytes) {
                        Some(g) => {
                            sig = Some(g);
                        },
                        None => {
                            return Err(CodecError::BadSignature);
                        },
                    }
                },
                None => {
                    return Err(CodecError::BadSignature);
                },
            }
        } else {
            return Err(CodecError::UnknownRootField);
        }
        i = i + 1;
    }
    proof {
        assert(full.skip(n as int) =~= Seq::<Seq<char>>::empty());
    }
    match (e, l, sq, sig) {
        (Some(enr_root), Some(link_root), Some(sequence), Some(signature)) => Ok(
            RootRecord {
                base: UnsignedRoot { enr_root, link_root, sequence },
                signature,
            },
        ),
        (None, _, _, _) => Err(CodecError::MissingEnrRoot),
        (_, None, _, _) => Err(CodecError::MissingLinkRoot),
        (_, _, None, _) => Err(CodecError::MissingSequence),
        (_, _, _, None) => Err(CodecError::MissingSignature),
    }
}

/// Parses the text after the link prefix as a link record.
fn parse_link(rest: &str) -> (r: Result<DnsRecord, CodecError>)
    ensures
        match r {
            Ok(rec) => rec.wf() && parse_link_spec(rest@) == Ok::<_, CodecError>(rec@),
            Err(e) => parse_link_spec(rest@) == Err::<RecordModel, _>(e),
        },
{
    match crate::text::split_once_at(rest, '@') {
        None => Err(CodecError::MissingDomain),
        Some((key_part, domain)) => {
            let ghost i = key_part@.len() as int;
            proof {
                assert(rest@.take(i) =~= key_part@);
                assert(rest@.skip(i + 1) =~= domain@);
            }
            if domain.as_str().is_empty() {
                return Err(CodecError::MissingDomain);
            }
            match base32_decode(key_part.as_str()) {
                None => Err(CodecError::BadPublicKey),
                Some(bytes) => {
                    match PublicKey::from_compressed_bytes(bytes) {
                        Some(public_key) => Ok(DnsRecord::Link { public_key, domain }),
                        None => Err(CodecError::BadPublicKey),
                    }
                },
            }
        },
    }
}

/// Whether a label with the view of `h` is already among `children`.
fn contains_label(children: &Vec<Base32Hash>, h: &Base32Hash) -> (r: bool)
    ensures
        r == crate::records::children_view(children@).contains(h@),
{
    let n = children.len();
    let mut i: usize = 0;
    while i < n
        invariant
            n == children@.len(),
            i <= n,
            forall|k: int| 0 <= k < i ==> children@[k]@ != h@,
        decreases n - i,
    {
        if children[i].label.eq(&h.label) {
            proof {
                assert(crate::records::children_view(children@)[i as int] == h@);
            }
            return true;
        }
        i = i + 1;
    }
    proof {
        let cv = crate::records::children_view(children@);
        if cv.contains(h@) {
            let k = choose|k: int| 0 <= k < cv.len() && cv[k] == h@;
            assert(children@[k]@ == h@);
        }
    }
    false
}

/// Parses the text after the branch prefix as a branch record.
#[verifier::loop_isolation(false)]
fn parse_branch(rest: &str) -> (r: Result<DnsRecord, CodecError>)
    ensures
        match r {
            Ok(rec) => rec.wf() && parse_branch_spec(rest@) == Ok::<_, CodecError>(rec@),
            Err(e) => parse_branch_spec(rest@) == Err::<RecordModel, _>(e),
        },
{
    let trimmed = crate::text::trim_str(rest);
    let tokens = crate::text::split_on_char(trimmed, ',');
    let ghost full = tokens.deep_view();
    let n = tokens.len();
    let mut children: Vec<Base32Hash> = Vec::new();
    let mut i: usize = 0;
    proof {
        assert(full.skip(0) =~= full);
        assert(crate::records::children_view(children@) =~= Seq::<Seq<char>>::empty());
    }
    while i < n
        invariant
            i <= n,
            branch_fold_spec(full, Seq::empty()) == branch_fold_spec(
                full.skip(i as int),
                crate::records::children_view(children@),
            ),
            forall|k: int| 0 <= k < children@.len() ==> (#[trigger] children@[k]).wf(),
            forall|p: int, q: int|
                0 <= p < q < children@.len() ==> children@[p]@ != children@[q]@,
        decreases n - i,
    {
        let ghost acc = crate::records::children_view(children@);
        let t = &tokens[i];
        proof {
            assert(full[i as int] == tokens@[i as int]@);
            assert(full.skip(i as int)[0] == full[i as int]);
            assert(full.skip(i as int).drop_first() =~= full.skip(i as int + 1));
        }
        if !t.as_str().is_empty() {
            match Base32Hash::from_string(t.clone()) {
                None => {
                    return Err(CodecError::BadHash);
                },
                Some(h) => {
                    if !contains_label(&children, &h) {
                        let ghost before = children@;
                        proof {
                            assert forall|p: int| 0 <= p < before.len() implies before[p]@
                                != h@ by {
                                if before[p]@ == h@ {
                                    assert(acc[p] == h@);
                                    assert(acc.contains(h@));
                                }
                            }
                        }
                        children.push(h);
                        proof {
                            assert(crate::records::children_view(children@) =~= acc.push(h@));
                            assert forall|p: int, q: int|
                                0 <= p < q < children@.len() implies children@[p]@
                                != children@[q]@ by {
                                if q < children@.len() - 1 {
                                    assert(children@[p] == before[p]);
                                    assert(children@[q] == before[q]);
                                } else {
                                    assert(children@[p] == before[p]);
                                    assert(children@[q] == h);
                                }
                            }
                        }
                    }
                },
            }
        }
        i = i + 1;
    }
    proof {
        assert(full.skip(n as int) =~= Seq::<Seq<char>>::empty());
    }
    Ok(DnsRecord::Branch { children })
}

impl DnsRecord {
    /// Parses a TXT payload as a record: the record it denotes under
    /// [`parse_spec`], or the error with which that payload is rejected.
    pub fn parse(s: &str) -> (r: Result<DnsRecord, CodecError>)
        ensures
            match r {
                Ok(rec) => rec.wf() && parse_spec(s@) == Ok::<_, CodecError>(rec@),
                Err(e) => parse_spec(s@) == Err::<RecordModel, _>(e),
            },
    {
        proof {
            reveal_strlit("enrtree-root:v1");
            reveal_strlit("enrtree://");
            reveal_strlit("enrtree-branch:");
            reveal_strlit("enr:");
        }
        if let Some(rest) = crate::text::strip_prefix_str(s, "enrtree-root:v1") {
            proof {
                assert(s@.skip(15) =~= rest@);
            }
            return match parse_root(rest) {
                Ok(root) => Ok(DnsRecord::Root(root)),
                Err(e) => Err(e),
            };
        }
        if let Some(rest) = crate::text::strip_prefix_str(s, "enrtree://") {
            proof {
                assert(s@.skip(10) =~= rest@);
            }
            return parse_link(rest);
        }
        if let Some(rest) = crate::text::strip_prefix_str(s, "enrtree-branch:") {
            proof {
                assert(s@.skip(15) =~= rest@);
            }
            return parse_branch(rest);
        }
        if let Some(_rest) = crate::text::strip_prefix_str(s, "enr:") {
            return match Enr::from_text(s.to_owned()) {
                Some(record) => Ok(DnsRecord::Enr { record }),
                None => Err(CodecError::BadEnr),
            };
        }
        Err(CodecError::InvalidRecord)
    }
}

/// Parsing the text of a well-formed leaf node record returns the record.
proof fn lemma_parse_enr_text(text: Seq<char>)
    requires
        has_enr_prefix(text),
        valid_enr(text),
    ensures
        parse_spec(text) == Ok::<_, CodecError>(RecordModel::Enr { text }),
{
    reveal_strlit("enrtree-root:v1");
    reveal_strlit("enrtree://");
    reveal_strlit("enrtree-branch:");
    reveal_strlit("enr:");
    assert(text.take(4)[3] == text[3]);
    assert(text[3] == ':');
    assert(!has_prefix(text, root_prefix())) by {
        if has_prefix(text, root_prefix()) {
            assert(text.take(15)[3] == text[3]);
        }
    }
    assert(!has_prefix(text, link_prefix())) by {
        if has_prefix(text, link_prefix()) {
            assert(text.take(10)[3] == text[3]);
        }
    }
    assert(!has_prefix(text, branch_prefix())) by {
        if has_prefix(text, branch_prefix()) {
            assert(text.take(15)[3] == text[3]);
        }
    }
}

} // verus!
