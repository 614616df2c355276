//! The resolver facade: configuration for walks, and the query that drives
//! one walk.
//!
//! A [`Query`] is the stream of one walk: each [`Query::advance`] resolves
//! the next pending fetch through the backend, feeds the outcome to the
//! walk's step relation, and hands back the items that step emitted.
//! Dropping the query abandons the remaining fetches.  A concurrent driver
//! may instead serve the pending fetches of a walk itself, many at a time,
//! calling [`crate::walker::step`] on each outcome.

use std::sync::Arc;

use vstd::prelude::*;

use crate::backend::Backend;
use crate::keys::PublicKey;
use crate::walker::{
    fetches_view, outputs_view, step_model, Fetch, FetchKind, FetchKindModel, FetchModel,
    FetchOutcome, OutcomeModel, Output, OutputModel,
};
use crate::whitelist::{whitelist_view, Whitelist};

verus! {

/// Relies on `task_group::TaskGroup`: an opaque handle to a scope of
/// spawned tasks, carried for a concurrent driver and never read by the
/// library.
#[verifier::external_type_specification]
#[verifier::external_body]
#[verifier::reject_recursive_types(E)]
pub struct ExTaskGroup<E>(task_group::TaskGroup<E>);

/// Relies on `anyhow::Error`: the error type that tasks of a driver's task
/// group may fail with; opaque to the library.
#[verifier::external_type_specification]
#[verifier::external_body]
pub struct ExAnyhowError(anyhow::Error);

/// Configuration for walks: the backend, an optional task scope for a
/// concurrent driver, an optional prior root sequence number, and an
/// optional allow-list for links.
pub struct Resolver<B> {
    pub backend: Arc<B>,
    pub task_group: Option<Arc<task_group::TaskGroup<anyhow::Error>>>,
    pub seen_sequence: Option<u64>,
    pub remote_whitelist: Option<Whitelist>,
}

impl<B> Resolver<B> {
    /// A resolver over `backend` with no task scope, no prior sequence
    /// number, and no allow-list.
    pub fn new(backend: Arc<B>) -> (r: Self)
        ensures
            r.backend == backend,
            r.task_group is None,
            r.seen_sequence is None,
            r.remote_whitelist is None,
    {
        Resolver { backend, task_group: None, seen_sequence: None, remote_whitelist: None }
    }

    /// Supplies the task scope that a concurrent driver ties its fetches
    /// to, so that dropping the consumer cancels them.
    pub fn with_task_group(self, task_group: Arc<task_group::TaskGroup<anyhow::Error>>) -> (r: Self)
        ensures
            r.backend == self.backend,
            r.task_group == Some(task_group),
            r.seen_sequence == self.seen_sequence,
            r.remote_whitelist == self.remote_whitelist,
    {
        Resolver { task_group: Some(task_group), ..self }
    }

    /// Supplies the sequence number of the last root already seen: a walk
    /// of the entry host ends with no items at a root no newer than it.
    pub fn with_seen_sequence(self, seen_sequence: u64) -> (r: Self)
        ensures
            r.backend == self.backend,
            r.task_group == self.task_group,
            r.seen_sequence == Some(seen_sequence),
            r.remote_whitelist == self.remote_whitelist,
    {
        Resolver { seen_sequence: Some(seen_sequence), ..self }
    }

    /// Supplies the allow-list that gates crossing links into other trees.
    pub fn with_remote_whitelist(self, remote_whitelist: Whitelist) -> (r: Self)
        ensures
            r.backend == self.backend,
            r.task_group == self.task_group,
            r.seen_sequence == self.seen_sequence,
            r.remote_whitelist matches Some(w) && w@ == remote_whitelist@,
    {
        Resolver { remote_whitelist: Some(remote_whitelist), ..self }
    }
}

impl<B: Backend> Resolver<B> {
    /// Starts a walk of the tree at `host`, verifying its root against
    /// `public_key` when one is supplied.
    pub fn query<'a>(&'a self, host: &str, public_key: Option<PublicKey>) -> (q: Query<'a, B>)
        ensures
            q.backend == &self.backend,
            q.whitelist == &self.remote_whitelist,
            q.seen_sequence == self.seen_sequence,
            q.done == false,
            fetches_view(q.pending@) == seq![
                FetchModel {
                    fqdn: host@,
                    host: host@,
                    kind: FetchKindModel::Root {
                        expected: match public_key {
                            Some(k) => Some(k@),
                            None => None,
                        },
                        top: true,
                    },
                },
            ],
    {
        let root_fetch = Fetch {
            fqdn: host.to_owned(),
            host: host.to_owned(),
            kind: FetchKind::Root { expected: public_key, top: true },
        };
        let ghost root_fetch_model = root_fetch@;
        let mut pending: Vec<Fetch> = Vec::new();
        pending.push(root_fetch);
        proof {
            assert(fetches_view(pending@) =~= seq![root_fetch_model]);
        }
        Query {
            backend: &self.backend,
            whitelist: &self.remote_whitelist,
            seen_sequence: self.seen_sequence,
            pending,
            done: false,
        }
    }
}

/// One step of a query corresponds to some outcome of its first pending
/// fetch: the outputs, the new pending list and the done flag are the ones
/// that [`step_model`] decides for that outcome.
pub open spec fn step_matches(
    whitelist: Option<Map<Seq<char>, Seq<u8>>>,
    seen_sequence: Option<u64>,
    fetch: FetchModel,
    outcome: OutcomeModel,
    outputs: Seq<OutputModel>,
    old_pending: Seq<FetchModel>,
    new_pending: Seq<FetchModel>,
    done: bool,
) -> bool {
    let sm = step_model(whitelist, seen_sequence, fetch, outcome);
    &&& outputs == sm.outputs
    &&& new_pending == old_pending.skip(1) + sm.fetches
    &&& done == sm.terminate
}

/// The walk of one tree in progress: the fetches still owed an outcome,
/// and whether the walk has ended.
pub struct Query<'a, B> {
    pub backend: &'a Arc<B>,
    pub whitelist: &'a Option<Whitelist>,
    pub seen_sequence: Option<u64>,
    pub pending: Vec<Fetch>,
    pub done: bool,
}

impl<'a, B: Backend> Query<'a, B> {
    /// The walk has ended or has nothing left to fetch.
    pub fn is_done(&self) -> (r: bool)
        ensures
            r == (self.done || self.pending@.len() == 0),
    {
        self.done || self.pending.len() == 0
    }

    /// How many fetches are pending at once.
    pub fn pending_count(&self) -> (r: usize)
        ensures
            r == self.pending@.len(),
    {
        self.pending.len()
    }

    /// Resolves the next pending fetch through the backend, feeds the
    /// outcome to the walk, queues the spawned fetches, and returns the
    /// items that the step emitted.  Once the walk has ended, does
    /// nothing.
    pub fn advance(&mut self) -> (outputs: Vec<Output>)
        ensures
            final(self).backend == old(self).backend,
            final(self).whitelist == old(self).whitelist,
            final(self).seen_sequence == old(self).seen_sequence,
            old(self).done || old(self).pending@.len() == 0 ==> final(self).pending
                == old(self).pending && final(self).done == old(self).done && outputs@.len() == 0,
            !(old(self).done || old(self).pending@.len() == 0) ==> exists|oc: OutcomeModel|
                #[trigger] step_matches(
                    whitelist_view(old(self).whitelist),
                    old(self).seen_sequence,
                    old(self).pending@[0]@,
                    oc,
                    outputs_view(outputs@),
                    fetches_view(old(self).pending@),
                    fetches_view(final(self).pending@),
                    final(self).done,
                ),
    {
        if self.done || self.pending.len() == 0 {
            return Vec::new();
        }
        let fetch = self.pending.remove(0);
        let outcome = match self.backend.get_record(fetch.fqdn.as_str()) {
            Ok(Some(rec)) => FetchOutcome::Found(rec),
            Ok(None) => FetchOutcome::Missing,
            Err(e) => FetchOutcome::Failed(e),
        };
        let ghost oc = outcome@;
        let mut result = crate::walker::step(self.whitelist, self.seen_sequence, &fetch, outcome);
        let ghost spawned = fetches_view(result.fetches@);
        let ghost emitted = outputs_view(result.outputs@);
        self.pending.append(&mut result.fetches);
        self.done = result.terminate;
        proof {
            let old_pending = fetches_view(old(self).pending@);
            assert(fetches_view(old(self).pending@.remove(0)) =~= old_pending.skip(1));
            assert(fetches_view(self.pending@) =~= old_pending.skip(1) + spawned);
            assert(step_matches(
                whitelist_view(old(self).whitelist),
                old(self).seen_sequence,
                old(self).pending@[0]@,
                oc,
                emitted,
                old_pending,
                fetches_view(self.pending@),
                self.done,
            ));
        }
        result.outputs
    }
}

} // verus!
