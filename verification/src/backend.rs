//! The transport that hands the walker one TXT record per fully qualified
//! name, and an in-memory implementation of it.
//!
//! A backend resolves a single TXT query: `Ok(Some(record))` for the first
//! TXT payload parsed as a record, `Ok(None)` when the name has no such
//! record, and an error for any other failure, the payload's parse error
//! included.

use vstd::prelude::*;

use crate::assoc::{assoc_find, assoc_map};
use crate::codec::{parse_spec, CodecError};
use crate::records::{DnsRecord, RecordModel};

verus! {

/// The model of a [`BackendError`].
pub enum BackendErrorModel {
    /// The TXT payload was not a record.
    Codec(CodecError),
    /// The lookup itself failed, with the transport's message.
    Dns(Seq<char>),
}

/// Why a lookup failed: the payload was rejected by the record codec, or
/// the transport itself failed.
#[derive(Debug)]
pub enum BackendError {
    Codec(CodecError),
    Dns(String),
}

impl View for BackendError {
    type V = BackendErrorModel;

    open spec fn view(&self) -> BackendErrorModel {
        match self {
            BackendError::Codec(e) => BackendErrorModel::Codec(*e),
            BackendError::Dns(m) => BackendErrorModel::Dns(m@),
        }
    }
}

/// A source of TXT records by fully qualified name.
///
/// Implementations must be prepared for concurrent use by a driver that
/// serves many fetches at once; the record handed back for a name is
/// otherwise unconstrained, beyond being well formed.
pub trait Backend {
    /// Resolves one TXT query: the name's record, `None` when the name has
    /// no record, or the failure.
    fn get_record(&self, fqdn: &str) -> (r: Result<Option<DnsRecord>, BackendError>)
        ensures
            r matches Ok(Some(rec)) ==> rec.wf(),
    ;
}

/// What an in-memory backend returns for a name, given its map of TXT
/// payloads.
pub open spec fn memory_get_spec(m: Map<Seq<char>, Seq<char>>, fqdn: Seq<char>) -> Result<
    Option<RecordModel>,
    BackendErrorModel,
> {
    if m.contains_key(fqdn) {
        match parse_spec(m[fqdn]) {
            Ok(rec) => Ok(Some(rec)),
            Err(e) => Err(BackendErrorModel::Codec(e)),
        }
    } else {
        Ok(None)
    }
}

/// An in-memory backend: a map from fully qualified names to TXT payloads,
/// parsed on lookup.
pub struct MemoryBackend {
    entries: Vec<(String, String)>,
}

impl View for MemoryBackend {
    type V = Map<Seq<char>, Seq<char>>;

    closed spec fn view(&self) -> Map<Seq<char>, Seq<char>> {
        assoc_map(self.entries@)
    }
}

impl MemoryBackend {
    /// A backend with no records.
    pub fn new() -> (r: MemoryBackend)
        ensures
            r@ == Map::<Seq<char>, Seq<char>>::empty(),
    {
        MemoryBackend { entries: Vec::new() }
    }

    /// Stores `payload` as the TXT record of `fqdn`, overriding an earlier
    /// one.
    pub fn insert(&mut self, fqdn: String, payload: String)
        ensures
            final(self)@ == old(self)@.insert(fqdn@, payload@),
    {
        let ghost before = self.entries@;
        self.entries.push((fqdn, payload));
        proof {
            assert(self.entries@.drop_last() =~= before);
        }
    }
}

impl Backend for MemoryBackend {
    /// Looks the name up and parses its payload.
    fn get_record(&self, fqdn: &str) -> (r: Result<Option<DnsRecord>, BackendError>)
        ensures
            match r {
                Ok(rec_opt) => match rec_opt {
                    Some(rec) => rec.wf() && memory_get_spec(self@, fqdn@) == Ok::<
                        _,
                        BackendErrorModel,
                    >(Some(rec@)),
                    None => memory_get_spec(self@, fqdn@) == Ok::<
                        Option<RecordModel>,
                        BackendErrorModel,
                    >(None),
                },
                Err(e) => memory_get_spec(self@, fqdn@) == Err::<Option<RecordModel>, _>(e@),
            },
    {
        match assoc_find(&self.entries, fqdn) {
            None => Ok(None),
            Some(j) => {
                match DnsRecord::parse(self.entries[j].1.as_str()) {
                    Ok(rec) => Ok(Some(rec)),
                    Err(e) => Err(BackendError::Codec(e)),
                }
            },
        }
    }
}

} // verus!
