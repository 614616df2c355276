//! Association lists keyed by strings, with their map model.
//!
//! A list of `(name, value)` pairs denotes the map in which a later entry
//! for a name overrides an earlier one; lookup scans from the end.

use vstd::prelude::*;

verus! {

/// The map denoted by an association list: later entries override earlier
/// ones.
pub open spec fn assoc_map<V: View>(s: Seq<(String, V)>) -> Map<Seq<char>, <V as View>::V>
    decreases s.len(),
{
    if s.len() == 0 {
        Map::empty()
    } else {
        assoc_map(s.drop_last()).insert(s.last().0@, s.last().1@)
    }
}

/// Entries whose names differ from `d` do not affect the map at `d`.
pub proof fn lemma_assoc_map_frame<V: View>(s: Seq<(String, V)>, i: int, d: Seq<char>)
    requires
        0 <= i <= s.len(),
        forall|k: int| i <= k < s.len() ==> (#[trigger] s[k]).0@ != d,
    ensures
        assoc_map(s).contains_key(d) == assoc_map(s.take(i)).contains_key(d),
        assoc_map(s).contains_key(d) ==> assoc_map(s)[d] == assoc_map(s.take(i))[d],
    decreases s.len() - i,
{
    if i == s.len() {
        assert(s.take(i) =~= s);
    } else {
        let t = s.drop_last();
        assert(s[s.len() - 1].0@ != d);
        lemma_assoc_map_frame(t, i, d);
        assert(t.take(i) =~= s.take(i));
    }
}

/// Finds the index of the entry that gives `key` its value in the map
/// denoted by `entries`, if the map holds the key.
pub fn assoc_find<V: View>(entries: &Vec<(String, V)>, key: &str) -> (r: Option<usize>)
    ensures
        match r {
            Some(j) => {
                &&& j < entries@.len()
                &&& entries@[j as int].0@ == key@
                &&& assoc_map(entries@).contains_key(key@)
                &&& assoc_map(entries@)[key@] == entries@[j as int].1@
            },
            None => !assoc_map(entries@).contains_key(key@),
        },
{
    let key_string = key.to_owned();
    let n = entries.len();
    let mut i = n;
    while i > 0
        invariant
            n == entries@.len(),
            i <= n,
            key_string@ == key@,
            forall|k: int| i <= k < n ==> (#[trigger] entries@[k]).0@ != key@,
        decreases i,
    {
        let j = i - 1;
        if entries[j].0.eq(&key_string) {
            proof {
                let s = entries@;
                assert(s.take(j + 1).drop_last() =~= s.take(j as int));
                assert(s.take(j + 1).last() == s[j as int]);
                lemma_assoc_map_frame(s, j as int + 1, key@);
            }
            return Some(j);
        }
        i = j;
    }
    proof {
        lemma_assoc_map_frame(entries@, 0, key@);
        assert(entries@.take(0) =~= Seq::<(String, V)>::empty());
    }
    None
}

} // verus!
