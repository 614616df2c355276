//! The tree walker: a step relation from one resolved fetch to the fetches
//! it spawns and the items it emits.
//!
//! A walk starts from one fetch of a tree's host. Each step consumes the
//! outcome of one fetch and decides everything the protocol asks: root
//! verification against the expected signer, the stale-sequence cut-off,
//! branch fan-out, allow-list gating of links, and record-kind discipline.
//! The relation is given exactly by [`step_model`]; a driver — sequential
//! or concurrent — owes each pending fetch an outcome and feeds it back
//! through [`step`].

use vstd::prelude::*;

use crate::backend::{BackendError, BackendErrorModel};
use crate::codec::signed_message_spec;
use crate::keys::{recovered_key, PublicKey};
use crate::records::{DnsRecord, Enr, RecordModel};
use crate::whitelist::{allowed_spec, domain_is_allowed, whitelist_view, Whitelist};

verus! {

/// Which leaves a branch may carry: node records, or links to other trees.
#[derive(Clone, Copy, Debug, PartialEq, Eq, Structural)]
pub enum BranchKind {
    Enr,
    Link,
}

/// The model of a [`FetchKind`].
pub enum FetchKindModel {
    Root { expected: Option<Seq<u8>>, top: bool },
    Child { kind: BranchKind },
}

/// What a fetch is for: the root of a tree (the walk's entry host, or a
/// linked tree's host with the link's key as expected signer), or a child
/// record within a subtree of the given kind.
pub enum FetchKind {
    Root { expected: Option<PublicKey>, top: bool },
    Child { kind: BranchKind },
}

impl View for FetchKind {
    type V = FetchKindModel;

    open spec fn view(&self) -> FetchKindModel {
        match self {
            FetchKind::Root { expected, top } => FetchKindModel::Root {
                expected: match expected {
                    Some(k) => Some(k@),
                    None => None,
                },
                top: *top,
            },
            FetchKind::Child { kind } => FetchKindModel::Child { kind: *kind },
        }
    }
}

/// The model of a [`Fetch`].
pub struct FetchModel {
    pub fqdn: Seq<char>,
    pub host: Seq<char>,
    pub kind: FetchKindModel,
}

/// One TXT lookup that the walk owes an outcome: the name to resolve, the
/// host of the tree it belongs to, and what the fetch is for.
pub struct Fetch {
    pub fqdn: String,
    pub host: String,
    pub kind: FetchKind,
}

impl View for Fetch {
    type V = FetchModel;

    open spec fn view(&self) -> FetchModel {
        FetchModel { fqdn: self.fqdn@, host: self.host@, kind: self.kind@ }
    }
}

/// The models of a list of fetches.
pub open spec fn fetches_view(s: Seq<Fetch>) -> Seq<FetchModel> {
    s.map_values(|f: Fetch| f@)
}

/// The model of a [`FetchOutcome`].
pub enum OutcomeModel {
    Failed(BackendErrorModel),
    Missing,
    Found(RecordModel),
}

/// How a fetch went: the backend failed, the name had no record, or it had
/// this one.
pub enum FetchOutcome {
    Failed(BackendError),
    Missing,
    Found(DnsRecord),
}

impl View for FetchOutcome {
    type V = OutcomeModel;

    open spec fn view(&self) -> OutcomeModel {
        match self {
            FetchOutcome::Failed(e) => OutcomeModel::Failed(e@),
            FetchOutcome::Missing => OutcomeModel::Missing,
            FetchOutcome::Found(rec) => OutcomeModel::Found(rec@),
        }
    }
}

/// The model of a [`WalkError`].
pub enum WalkErrorModel {
    Backend(BackendErrorModel),
    NotRoot,
    RecoveryFailed,
    KeyMismatch,
    UnexpectedLink,
    UnexpectedEnr,
    UnexpectedRoot,
}

/// A failure surfaced on the stream of a walk.
#[derive(Debug)]
pub enum WalkError {
    /// A fetch failed; the backend's error.
    Backend(BackendError),
    /// The record at a tree's host is not a root record.
    NotRoot,
    /// No key could be recovered from a root's signature.
    RecoveryFailed,
    /// The key recovered from a root's signature is not the expected one.
    KeyMismatch,
    /// A link record stood in an ENR subtree.
    UnexpectedLink,
    /// A node record stood in a link subtree.
    UnexpectedEnr,
    /// A root record stood below the top of a tree.
    UnexpectedRoot,
}

impl View for WalkError {
    type V = WalkErrorModel;

    open spec fn view(&self) -> WalkErrorModel {
        match self {
            WalkError::Backend(e) => WalkErrorModel::Backend(e@),
            WalkError::NotRoot => WalkErrorModel::NotRoot,
            WalkError::RecoveryFailed => WalkErrorModel::RecoveryFailed,
            WalkError::KeyMismatch => WalkErrorModel::KeyMismatch,
            WalkError::UnexpectedLink => WalkErrorModel::UnexpectedLink,
            WalkError::UnexpectedEnr => WalkErrorModel::UnexpectedEnr,
            WalkError::UnexpectedRoot => WalkErrorModel::UnexpectedRoot,
        }
    }
}

/// The model of an [`Output`].
pub enum OutputModel {
    Enr(Seq<char>),
    Failure(WalkErrorModel),
}

/// One item of a walk's stream: a node record found at a leaf, or a
/// failure that does not stop the rest of the walk.
pub enum Output {
    Enr(Enr),
    Failure(WalkError),
}

impl View for Output {
    type V = OutputModel;

    open spec fn view(&self) -> OutputModel {
        match self {
            Output::Enr(record) => OutputModel::Enr(record@),
            Output::Failure(e) => OutputModel::Failure(e@),
        }
    }
}

/// The models of a list of outputs.
pub open spec fn outputs_view(s: Seq<Output>) -> Seq<OutputModel> {
    s.map_values(|o: Output| o@)
}

/// The model of a [`StepResult`].
pub struct StepModel {
    pub fetches: Seq<FetchModel>,
    pub outputs: Seq<OutputModel>,
    pub terminate: bool,
}

/// What one step of the walk decided: the fetches it spawns, the items it
/// emits, and whether the whole walk is over.
pub struct StepResult {
    pub fetches: Vec<Fetch>,
    pub outputs: Vec<Output>,
    pub terminate: bool,
}

impl View for StepResult {
    type V = StepModel;

    open spec fn view(&self) -> StepModel {
        StepModel {
            fetches: fetches_view(self.fetches@),
            outputs: outputs_view(self.outputs@),
            terminate: self.terminate,
        }
    }
}

/// The name of a child record: its label, a dot, and the tree's host.
pub open spec fn child_fqdn_spec(label: Seq<char>, host: Seq<char>) -> Seq<char> {
    label + seq!['.'] + host
}

/// Writes the name of a child record.
pub fn child_fqdn(label: &str, host: &str) -> (r: String)
    ensures
        r@ == child_fqdn_spec(label@, host@),
{
    proof {
        reveal_strlit(".");
        assert("."@ =~= seq!['.']);
    }
    let mut s = String::new();
    s.append(label);
    s.append(".");
    s.append(host);
    proof {
        assert(s@ =~= child_fqdn_spec(label@, host@));
    }
    s
}

/// A step with no fetches and no outputs.
pub open spec fn quiet_step(terminate: bool) -> StepModel {
    StepModel { fetches: Seq::empty(), outputs: Seq::empty(), terminate }
}

/// A step that only emits one failure.
pub open spec fn failure_step(e: WalkErrorModel, terminate: bool) -> StepModel {
    StepModel { fetches: Seq::empty(), outputs: seq![OutputModel::Failure(e)], terminate }
}

/// What the outcome of a tree-root fetch decides.
///
/// A failure, a non-root record, a failed recovery or a wrong signer each
/// emit one failure; at the walk's entry host (`top`) they also end the
/// walk.  An absent record ends quietly, as does a root no newer than the
/// caller's `seen_sequence` (checked at the entry host only).  Otherwise
/// the walk fans out into the link subtree and the ENR subtree.
pub open spec fn step_root_model(
    seen_sequence: Option<u64>,
    host: Seq<char>,
    expected: Option<Seq<u8>>,
    top: bool,
    outcome: OutcomeModel,
) -> StepModel {
    match outcome {
        OutcomeModel::Failed(e) => failure_step(WalkErrorModel::Backend(e), top),
        OutcomeModel::Missing => quiet_step(top),
        OutcomeModel::Found(rec) => match rec {
            RecordModel::Root(root) => {
                let verdict = match expected {
                    None => Some(true),
                    Some(pk) => match recovered_key(
                        signed_message_spec(root.base),
                        root.signature,
                    ) {
                        None => None,
                        Some(k) => Some(k == pk),
                    },
                };
                if verdict is None {
                    failure_step(WalkErrorModel::RecoveryFailed, top)
                } else if verdict == Some(false) {
                    failure_step(WalkErrorModel::KeyMismatch, top)
                } else if top && (seen_sequence matches Some(seen) && root.base.sequence <= seen) {
                    quiet_step(true)
                } else {
                    StepModel {
                        fetches: seq![
                            FetchModel {
                                fqdn: child_fqdn_spec(root.base.link_root, host),
                                host: host,
                                kind: FetchKindModel::Child { kind: BranchKind::Link },
                            },
                            FetchModel {
                                fqdn: child_fqdn_spec(root.base.enr_root, host),
                                host: host,
                                kind: FetchKindModel::Child { kind: BranchKind::Enr },
                            },
                        ],
                        outputs: Seq::empty(),
                        terminate: false,
                    }
                }
            },
            _ => failure_step(WalkErrorModel::NotRoot, top),
        },
    }
}

/// What the outcome of a child fetch decides.
///
/// A failure emits one failure item; an absent record is skipped; a branch
/// fans out into one fetch per child, all pending at once; a leaf of the
/// subtree's kind is emitted (a node record) or followed (an allow-listed
/// link, fetched as the linked tree's root with the link's key as expected
/// signer); a link whose domain and key the allow-list does not map is
/// skipped silently; and a record of the wrong kind for its position emits
/// one protocol failure.  No child outcome ends the walk.
pub open spec fn step_child_model(
    whitelist: Option<Map<Seq<char>, Seq<u8>>>,
    host: Seq<char>,
    kind: BranchKind,
    outcome: OutcomeModel,
) -> StepModel {
    match outcome {
        OutcomeModel::Failed(e) => failure_step(WalkErrorModel::Backend(e), false),
        OutcomeModel::Missing => quiet_step(false),
        OutcomeModel::Found(rec) => match rec {
            RecordModel::Branch { children } => StepModel {
                fetches: children.map_values(
                    |c: Seq<char>|
                        FetchModel {
                            fqdn: child_fqdn_spec(c, host),
                            host: host,
                            kind: FetchKindModel::Child { kind },
                        },
                ),
                outputs: Seq::empty(),
                terminate: false,
            },
            RecordModel::Enr { text } => {
                if kind is Enr {
                    StepModel {
                        fetches: Seq::empty(),
                        outputs: seq![OutputModel::Enr(text)],
                        terminate: false,
                    }
                } else {
                    failure_step(WalkErrorModel::UnexpectedEnr, false)
                }
            },
            RecordModel::Link { public_key, domain } => {
                if kind is Link {
                    if allowed_spec(whitelist, domain, public_key) {
                        StepModel {
                            fetches: seq![
                                FetchModel {
                                    fqdn: domain,
                                    host: domain,
                                    kind: FetchKindModel::Root {
                                        expected: Some(public_key),
                                        top: false,
                                    },
                                },
                            ],
                            outputs: Seq::empty(),
                            terminate: false,
                        }
                    } else {
                        quiet_step(false)
                    }
                } else {
                    failure_step(WalkErrorModel::UnexpectedLink, false)
                }
            },
            RecordModel::Root(_) => failure_step(WalkErrorModel::UnexpectedRoot, false),
        },
    }
}

/// What one step of the walk decides, given the outcome of one fetch.
pub open spec fn step_model(
    whitelist: Option<Map<Seq<char>, Seq<u8>>>,
    seen_sequence: Option<u64>,
    fetch: FetchModel,
    outcome: OutcomeModel,
) -> StepModel {
    match fetch.kind {
        FetchKindModel::Root { expected, top } => step_root_model(
            seen_sequence,
            fetch.host,
            expected,
            top,
            outcome,
        ),
        FetchKindModel::Child { kind } => step_child_model(whitelist, fetch.host, kind, outcome),
    }
}

/// Allow-list gating: a link record whose domain and key the allow-list
/// does not map together spawns no fetch and emits nothing — the subtree
/// beneath that link contributes no records, and no failure either.
pub proof fn lemma_whitelist_gating(
    whitelist: Map<Seq<char>, Seq<u8>>,
    seen_sequence: Option<u64>,
    fetch: FetchModel,
    public_key: Seq<u8>,
    domain: Seq<char>,
)
    requires
        fetch.kind == (FetchKindModel::Child { kind: BranchKind::Link }),
        !(whitelist.contains_key(domain) && whitelist[domain] == public_key),
    ensures
        step_model(
            Some(whitelist),
            seen_sequence,
            fetch,
            OutcomeModel::Found(RecordModel::Link { public_key, domain }),
        ) == quiet_step(false),
{
}

/// Stale sequence: at the walk's entry host, a root whose sequence is no
/// newer than the caller's seen sequence ends the walk with no fetches and
/// no items — and so with no failure.
pub proof fn lemma_stale_sequence(
    whitelist: Option<Map<Seq<char>, Seq<u8>>>,
    seen: u64,
    fetch: FetchModel,
    root: crate::records::RootRecordModel,
)
    requires
        fetch.kind == (FetchKindModel::Root { expected: None, top: true }),
        root.base.sequence <= seen,
    ensures
        step_model(whitelist, Some(seen), fetch, OutcomeModel::Found(RecordModel::Root(root)))
            == quiet_step(true),
{
}

/// Kind discipline: a node record under the link subtree, or a link record
/// under the ENR subtree, emits exactly one protocol failure, spawns
/// nothing, and does not end the walk.
pub proof fn lemma_kind_discipline(
    whitelist: Option<Map<Seq<char>, Seq<u8>>>,
    seen_sequence: Option<u64>,
    fetch: FetchModel,
    rec: RecordModel,
)
    requires
        (fetch.kind == (FetchKindModel::Child { kind: BranchKind::Link }) && rec is Enr) || (
        fetch.kind == (FetchKindModel::Child { kind: BranchKind::Enr }) && rec is Link),
    ensures
        step_model(whitelist, seen_sequence, fetch, OutcomeModel::Found(rec)).fetches.len() == 0,
        step_model(whitelist, seen_sequence, fetch, OutcomeModel::Found(rec)).outputs == seq![
            OutputModel::Failure(
                if rec is Enr {
                    WalkErrorModel::UnexpectedEnr
                } else {
                    WalkErrorModel::UnexpectedLink
                },
            ),
        ],
        !step_model(whitelist, seen_sequence, fetch, OutcomeModel::Found(rec)).terminate,
{
}

/// Ordering: resolving a tree root emits no node record, whatever came
/// back — so every record of a walk is emitted only after the root of its
/// tree was fetched, verified, and found newer than the seen sequence.
pub proof fn lemma_no_record_from_root_step(
    whitelist: Option<Map<Seq<char>, Seq<u8>>>,
    seen_sequence: Option<u64>,
    fetch: FetchModel,
    outcome: OutcomeModel,
)
    requires
        fetch.kind is Root,
    ensures
        forall|i: int|
            0 <= i < step_model(whitelist, seen_sequence, fetch, outcome).outputs.len()
                ==> !(#[trigger] step_model(whitelist, seen_sequence, fetch, outcome).outputs[i]
                is Enr),
{
}

/// Fan-out: a branch with `k` children spawns `k` fetches in one step —
/// all pending at once, so a driver may serve them concurrently — one per
/// child in order, each within the same subtree kind, and emits nothing.
pub proof fn lemma_branch_fanout(
    whitelist: Option<Map<Seq<char>, Seq<u8>>>,
    seen_sequence: Option<u64>,
    fetch: FetchModel,
    children: Seq<Seq<char>>,
    kind: BranchKind,
)
    requires
        fetch.kind == (FetchKindModel::Child { kind }),
    ensures
        step_model(
            whitelist,
            seen_sequence,
            fetch,
            OutcomeModel::Found(RecordModel::Branch { children }),
        ).fetches.len() == children.len(),
        forall|i: int|
            0 <= i < children.len() ==> step_model(
                whitelist,
                seen_sequence,
                fetch,
                OutcomeModel::Found(RecordModel::Branch { children }),
            ).fetches[i] == (FetchModel {
                fqdn: child_fqdn_spec(children[i], fetch.host),
                host: fetch.host,
                kind: FetchKindModel::Child { kind },
            }),
        step_model(
            whitelist,
            seen_sequence,
            fetch,
            OutcomeModel::Found(RecordModel::Branch { children }),
        ).outputs.len() == 0,
        !step_model(
            whitelist,
            seen_sequence,
            fetch,
            OutcomeModel::Found(RecordModel::Branch { children }),
        ).terminate,
{
}

/// Runs one step of the walk: consumes the outcome of `fetch` and decides
/// the spawned fetches, the emitted items, and whether the walk is over,
/// exactly as [`step_model`] says.
pub fn step(
    whitelist: &Option<Whitelist>,
    seen_sequence: Option<u64>,
    fetch: &Fetch,
    outcome: FetchOutcome,
) -> (r: StepResult)
    requires
        outcome matches FetchOutcome::Found(rec) ==> rec.wf(),
    ensures
        r@ == step_model(whitelist_view(whitelist), seen_sequence, fetch@, outcome@),
{
    let ghost w = whitelist_view(whitelist);
    let ghost fm = fetch@;
    let ghost om = outcome@;
    let mut fetches: Vec<Fetch> = Vec::new();
    let mut outputs: Vec<Output> = Vec::new();
    let mut terminate: bool = false;
    proof {
        assert(fetches_view(fetches@) =~= Seq::<FetchModel>::empty());
        assert(outputs_view(outputs@) =~= Seq::<OutputModel>::empty());
    }
    match &fetch.kind {
        FetchKind::Root { expected, top } => {
            let top = *top;
            match outcome {
                FetchOutcome::Failed(e) => {
                    outputs.push(Output::Failure(WalkError::Backend(e)));
                    terminate = top;
                    proof {
                        assert(outputs_view(outputs@) =~= seq![
                            OutputModel::Failure(WalkErrorModel::Backend(om->Failed_0)),
                        ]);
                    }
                },
                FetchOutcome::Missing => {
                    terminate = top;
                },
                FetchOutcome::Found(rec) => {
                    match rec {
                        DnsRecord::Root(root) => {
                            let verdict: Option<bool> = match expected {
                                None => Some(true),
                                Some(pk) => root.verify(pk),
                            };
                            match verdict {
                                None => {
                                    outputs.push(Output::Failure(WalkError::RecoveryFailed));
                                    terminate = top;
                                    proof {
                                        assert(outputs_view(outputs@) =~= seq![
                                            OutputModel::Failure(WalkErrorModel::RecoveryFailed),
                                        ]);
                                    }
                                },
                                Some(false) => {
                                    outputs.push(Output::Failure(WalkError::KeyMismatch));
                                    terminate = top;
                                    proof {
                                        assert(outputs_view(outputs@) =~= seq![
                                            OutputModel::Failure(WalkErrorModel::KeyMismatch),
                                        ]);
                                    }
                                },
                                Some(true) => {
                                    let stale: bool = match seen_sequence {
                                        Some(seen) => top && root.base.sequence <= seen,
                                        None => false,
                                    };
                                    if stale {
                                        terminate = true;
                                    } else {
                                        let link_fetch = Fetch {
                                            fqdn: child_fqdn(
                                                root.base.link_root.as_str(),
                                                fetch.host.as_str(),
                                            ),
                                            host: fetch.host.clone(),
                                            kind: FetchKind::Child { kind: BranchKind::Link },
                                        };
                                        let enr_fetch = Fetch {
                                            fqdn: child_fqdn(
                                                root.base.enr_root.as_str(),
                                                fetch.host.as_str(),
                                            ),
                                            host: fetch.host.clone(),
                                            kind: FetchKind::Child { kind: BranchKind::Enr },
                                        };
                                        fetches.push(link_fetch);
                                        fetches.push(enr_fetch);
                                        proof {
                                            assert(fetches_view(fetches@) =~= step_root_model(
                                                seen_sequence,
                                                fm.host,
                                                fm.kind->Root_expected,
                                                top,
                                                om,
                                            ).fetches);
                                        }
                                    }
                                },
                            }
                        },
                        _ => {
                            outputs.push(Output::Failure(WalkError::NotRoot));
                            terminate = top;
                            proof {
                                assert(outputs_view(outputs@) =~= seq![
                                    OutputModel::Failure(WalkErrorModel::NotRoot),
                                ]);
                            }
                        },
                    }
                },
            }
        },
        FetchKind::Child { kind } => {
            let kind = *kind;
            match outcome {
                FetchOutcome::Failed(e) => {
                    outputs.push(Output::Failure(WalkError::Backend(e)));
                    proof {
                        assert(outputs_view(outputs@) =~= seq![
                            OutputModel::Failure(WalkErrorModel::Backend(om->Failed_0)),
                        ]);
                    }
                },
                FetchOutcome::Missing => {},
                FetchOutcome::Found(rec) => {
                    match rec {
                        DnsRecord::Branch { children } => {
                            let ghost cv = crate::records::children_view(children@);
                            let ghost target = step_child_model(w, fm.host, kind, om).fetches;
                            let n = children.len();
                            let mut i: usize = 0;
                            while i < n
                                invariant
                                    n == children@.len(),
                                    i <= n,
                                    cv == crate::records::children_view(children@),
                                    target == step_child_model(w, fm.host, kind, om).fetches,
                                    target == cv.map_values(
                                        |c: Seq<char>|
                                            FetchModel {
                                                fqdn: child_fqdn_spec(c, fm.host),
                                                host: fm.host,
                                                kind: FetchKindModel::Child { kind },
                                            },
                                    ),
                                    fm.host == fetch.host@,
                                    fetches_view(fetches@) =~= target.take(i as int),
                                decreases n - i,
                            {
                                let f = Fetch {
                                    fqdn: child_fqdn(children[i].as_str(), fetch.host.as_str()),
                                    host: fetch.host.clone(),
                                    kind: FetchKind::Child { kind },
                                };
                                proof {
                                    assert(cv[i as int] == children@[i as int]@);
                                    assert(f@ == target[i as int]);
                                }
                                let ghost prev = fetches@;
                                fetches.push(f);
                                proof {
                                    assert(fetches@ == prev.push(f));
                                    assert(target.len() == cv.len());
                                    assert(fetches_view(prev) == target.take(i as int));
                                    assert(fetches_view(prev).len() == prev.len());
                                    assert(prev.len() == i as int);
                                    assert(fetches@.len() == i as int + 1);
                                    assert forall|k: int|
                                        0 <= k < fetches@.len() implies fetches_view(fetches@)[k]
                                        == target.take(i as int + 1)[k] by {
                                        if k < i as int {
                                            assert(fetches@[k] == prev[k]);
                                            assert(fetches_view(prev)[k] == target.take(
                                                i as int,
                                            )[k]);
                                        } else {
                                            assert(fetches@[k] == f);
                                        }
                                    }
                                    assert(fetches_view(fetches@) =~= target.take(i as int + 1));
                                }
                                i = i + 1;
                            }
                            proof {
                                assert(target.take(n as int) =~= target);
                            }
                        },
                        DnsRecord::Enr { record } => {
                            match kind {
                                BranchKind::Enr => {
                                    outputs.push(Output::Enr(record));
                                    proof {
                                        assert(outputs_view(outputs@) =~= seq![
                                            OutputModel::Enr(om->Found_0->Enr_text),
                                        ]);
                                    }
                                },
                                BranchKind::Link => {
                                    outputs.push(Output::Failure(WalkError::UnexpectedEnr));
                                    proof {
                                        assert(outputs_view(outputs@) =~= seq![
                                            OutputModel::Failure(WalkErrorModel::UnexpectedEnr),
                                        ]);
                                    }
                                },
                            }
                        },
                        DnsRecord::Link { public_key, domain } => {
                            match kind {
                                BranchKind::Link => {
                                    if domain_is_allowed(
                                        whitelist,
                                        domain.as_str(),
                                        &public_key,
                                    ) {
                                        let f = Fetch {
                                            fqdn: domain.clone(),
                                            host: domain,
                                            kind: FetchKind::Root {
                                                expected: Some(public_key),
                                                top: false,
                                            },
                                        };
                                        fetches.push(f);
                                        proof {
                                            assert(fetches_view(fetches@) =~= step_child_model(
                                                w,
                                                fm.host,
                                                kind,
                                                om,
                                            ).fetches);
                                        }
                                    }
                                },
                                BranchKind::Enr => {
                                    outputs.push(Output::Failure(WalkError::UnexpectedLink));
                                    proof {
                                        assert(outputs_view(outputs@) =~= seq![
                                            OutputModel::Failure(WalkErrorModel::UnexpectedLink),
                                        ]);
                                    }
                                },
                            }
                        },
                        DnsRecord::Root(_) => {
                            outputs.push(Output::Failure(WalkError::UnexpectedRoot));
                            proof {
                                assert(outputs_view(outputs@) =~= seq![
                                    OutputModel::Failure(WalkErrorModel::UnexpectedRoot),
                                ]);
                            }
                        },
                    }
                },
            }
        },
    }
    let r = StepResult { fetches, outputs, terminate };
    proof {
        assert(r@.fetches =~= step_model(w, seen_sequence, fm, om).fetches);
        assert(r@.outputs =~= step_model(w, seen_sequence, fm, om).outputs);
    }
    r
}

} // verus!
