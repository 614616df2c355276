//! The allow-list that gates crossing links into other trees.
//!
//! An absent allow-list permits every link; a present one permits a link
//! exactly when it maps the link's domain to the link's public key — so a
//! present-but-empty list permits no links.

use vstd::prelude::*;

use crate::assoc::{assoc_find, assoc_map};
use crate::keys::PublicKey;

verus! {

/// A mapping from linked-tree domains to their expected signer keys.
pub struct Whitelist {
    entries: Vec<(String, PublicKey)>,
}

impl View for Whitelist {
    type V = Map<Seq<char>, Seq<u8>>;

    closed spec fn view(&self) -> Map<Seq<char>, Seq<u8>> {
        assoc_map(self.entries@)
    }
}

impl Whitelist {
    /// An empty allow-list: one that permits no links.
    pub fn new() -> (r: Whitelist)
        ensures
            r@ == Map::<Seq<char>, Seq<u8>>::empty(),
    {
        Whitelist { entries: Vec::new() }
    }

    /// Maps `domain` to `key`, overriding an earlier entry for the domain.
    pub fn insert(&mut self, domain: String, key: PublicKey)
        ensures
            final(self)@ == old(self)@.insert(domain@, key@),
    {
        let ghost before = self.entries@;
        self.entries.push((domain, key));
        proof {
            assert(self.entries@.drop_last() =~= before);
        }
    }

    /// The key that the list expects for `domain`, if the domain is listed.
    pub fn lookup(&self, domain: &str) -> (r: Option<&PublicKey>)
        ensures
            match r {
                Some(k) => self@.contains_key(domain@) && self@[domain@] == k@,
                None => !self@.contains_key(domain@),
            },
    {
        match assoc_find(&self.entries, domain) {
            Some(j) => Some(&self.entries[j].1),
            None => None,
        }
    }
}

impl Clone for Whitelist {
    fn clone(&self) -> (r: Self)
        ensures
            r@ == self@,
    {
        let mut entries: Vec<(String, PublicKey)> = Vec::new();
        let n = self.entries.len();
        let mut i: usize = 0;
        while i < n
            invariant
                n == self.entries@.len(),
                i <= n,
                entries@.len() == i,
                forall|k: int|
                    0 <= k < i ==> (#[trigger] entries@[k]).0@ == self.entries@[k].0@
                        && entries@[k].1@ == self.entries@[k].1@,
            decreases n - i,
        {
            entries.push((self.entries[i].0.clone(), self.entries[i].1.clone()));
            i = i + 1;
        }
        proof {
            lemma_assoc_map_congruent(entries@, self.entries@);
        }
        Whitelist { entries }
    }
}

/// Two association lists whose entries agree pointwise denote one map.
proof fn lemma_assoc_map_congruent(a: Seq<(String, PublicKey)>, b: Seq<(String, PublicKey)>)
    requires
        a.len() == b.len(),
        forall|k: int| 0 <= k < a.len() ==> (#[trigger] a[k]).0@ == b[k].0@ && a[k].1@ == b[k].1@,
    ensures
        assoc_map(a) == assoc_map(b),
    decreases a.len(),
{
    if a.len() > 0 {
        lemma_assoc_map_congruent(a.drop_last(), b.drop_last());
        assert(assoc_map(a) =~= assoc_map(b));
    } else {
        assert(assoc_map(a) =~= assoc_map(b));
    }
}

/// The allow-list model of an optional [`Whitelist`].
pub open spec fn whitelist_view(w: &Option<Whitelist>) -> Option<Map<Seq<char>, Seq<u8>>> {
    match w {
        Some(list) => Some(list@),
        None => None,
    }
}

/// A link with domain `domain` and key `key` may be crossed under the
/// allow-list `w`: always when no list is supplied, and otherwise exactly
/// when the list maps the domain to that key.
pub open spec fn allowed_spec(
    w: Option<Map<Seq<char>, Seq<u8>>>,
    domain: Seq<char>,
    key: Seq<u8>,
) -> bool {
    match w {
        None => true,
        Some(m) => m.contains_key(domain) && m[domain] == key,
    }
}

/// Decides whether a link may be crossed under an optional allow-list.
pub fn domain_is_allowed(whitelist: &Option<Whitelist>, domain: &str, public_key: &PublicKey) -> (r:
    bool)
    ensures
        r == allowed_spec(whitelist_view(whitelist), domain@, public_key@),
{
    match whitelist {
        None => true,
        Some(list) => {
            match list.lookup(domain) {
                Some(expected) => expected.key_eq(public_key),
                None => false,
            }
        },
    }
}

} // verus!
