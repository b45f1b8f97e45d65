//! The table of files that plugins open through the host, by descriptor.

use std::collections::{BTreeMap, BTreeSet};
use vstd::prelude::*;

verus! {

broadcast use {vstd::laws_cmp::group_laws_cmp, vstd::std_specs::btree::group_btree_axioms};

/// Removes the smallest descriptor of a set, with `BTreeSet::pop_first`.
///
/// Trusted: an empty set gives none and stays as it is; otherwise the result
/// is an element of the set, no larger than any other, and it leaves the set.
#[verifier::external_body]
fn pop_first(set: &mut BTreeSet<u64>) -> (r: Option<u64>)
    ensures
        r is None ==> old(set)@ == Set::<u64>::empty() && final(set)@ == old(set)@,
        r is Some ==> old(set)@.contains(r->0) && final(set)@ == old(set)@.remove(r->0),
        r is Some ==> forall|x: u64| old(set)@.contains(x) ==> r->0 <= x,
{
    set.pop_first()
}

/// The largest descriptor of a map, with `BTreeMap::last_key_value`.
///
/// Trusted: an empty map gives none; otherwise the result is a key of the
/// map, no smaller than any other.
#[verifier::external_body]
fn last_key<V>(map: &BTreeMap<u64, V>) -> (r: Option<u64>)
    ensures
        r is None <==> map@.dom() == Set::<u64>::empty(),
        r is Some ==> map@.contains_key(r->0),
        r is Some ==> forall|k: u64| map@.contains_key(k) ==> k <= r->0,
{
    map.last_key_value().map(|(k, _)| *k)
}

/// The value under a key of a map, to change in place, with `BTreeMap::get_mut`.
///
/// Trusted: the result is there exactly when the key is, holds the key's
/// value, and what it holds at the end is the key's value afterwards; the
/// other keys keep their values.
#[verifier::external_body]
fn map_get_mut<V>(map: &mut BTreeMap<u64, V>, fd: u64) -> (r: Option<&mut V>)
    ensures
        r is Some <==> old(map)@.contains_key(fd),
        r is Some ==> *r->0 == old(map)@[fd],
        r is None ==> final(map)@ == old(map)@,
        r is Some ==> final(map)@ == old(map)@.insert(fd, *final(r->0)),
{
    map.get_mut(&fd)
}

/// Open files by descriptor, and the descriptors freed for reuse.
pub struct FDMap<V> {
    map: BTreeMap<u64, V>,
    remain: BTreeSet<u64>,
}

/// The descriptor that the next file gets: the smallest freed one, else one
/// past the largest open one, else 1.
pub open spec fn next_fd(open: Set<u64>, freed: Set<u64>) -> int {
    if freed != Set::<u64>::empty() {
        (choose|x: u64| freed.contains(x) && forall|y: u64| freed.contains(y) ==> x <= y) as int
    } else if open != Set::<u64>::empty() {
        (choose|x: u64| open.contains(x) && forall|y: u64| open.contains(y) ==> y <= x) + 1
    } else {
        1
    }
}

impl<V> FDMap<V> {
    /// The open files, by descriptor.
    pub closed spec fn files(&self) -> Map<u64, V> {
        self.map@
    }

    /// The descriptors freed for reuse.
    pub closed spec fn freed(&self) -> Set<u64> {
        self.remain@
    }

    /// No freed descriptor is open.
    pub open spec fn wf(&self) -> bool {
        forall|fd: u64| #[trigger] self.freed().contains(fd) ==> !self.files().contains_key(fd)
    }

    /// An empty table.
    pub fn new() -> (m: Self)
        ensures
            m.wf(),
            m.files() == Map::<u64, V>::empty(),
            m.freed() == Set::<u64>::empty(),
    {
        FDMap { map: BTreeMap::new(), remain: BTreeSet::new() }
    }

    /// Registers an open file under a descriptor that is not open, and gives
    /// the descriptor.
    pub fn open(&mut self, file: V) -> (fd: u64)
        requires
            old(self).wf(),
            old(self).freed() == Set::<u64>::empty() ==> forall|k: u64|
                old(self).files().contains_key(k) ==> k < u64::MAX,
        ensures
            final(self).wf(),
            !old(self).files().contains_key(fd),
            final(self).files() == old(self).files().insert(fd, file),
            final(self).freed() == old(self).freed().remove(fd),
            fd == next_fd(old(self).files().dom(), old(self).freed()),
    {
        let new_fd = match pop_first(&mut self.remain) {
            Some(fd) => fd,
            None => match last_key(&self.map) {
                Some(fd) => {
                    assert(old(self).files().contains_key(fd));
                    fd + 1
                },
                None => 1,
            },
        };
        proof {
            let open = old(self).files().dom();
            let freed = old(self).freed();
            if freed != Set::<u64>::empty() {
                let x = choose|x: u64| freed.contains(x) && forall|y: u64| freed.contains(y) ==> x <= y;
                assert(x == new_fd);
            } else if open != Set::<u64>::empty() {
                let x = choose|x: u64| open.contains(x) && forall|y: u64| open.contains(y) ==> y <= x;
                assert(x == new_fd - 1);
                assert(!open.contains(new_fd));
            } else {
                assert(!open.contains(new_fd));
            }
        }
        self.map.insert(new_fd, file);
        new_fd
    }

    /// Forgets the file under a descriptor, and frees the descriptor.
    pub fn close(&mut self, fd: u64)
        requires
            old(self).wf(),
        ensures
            final(self).wf(),
            final(self).files() == old(self).files().remove(fd),
            final(self).freed() == old(self).freed().insert(fd),
    {
        self.map.remove(&fd);
        self.remain.insert(fd);
        assert forall|x: u64| #[trigger] self.freed().contains(x) implies !self.files().contains_key(x) by {
            if x != fd {
                assert(old(self).freed().contains(x));
            }
        }
    }

    /// The file under a descriptor.
    pub fn get_mut(&mut self, fd: u64) -> (r: Option<&mut V>)
        requires
            old(self).wf(),
        ensures
            r is Some <==> old(self).files().contains_key(fd),
            r is Some ==> *r->0 == old(self).files()[fd],
            final(self).freed() == old(self).freed(),
            r is None ==> final(self).files() == old(self).files(),
            r is Some ==> final(self).files() == old(self).files().insert(fd, *final(r->0)),
    {
        map_get_mut(&mut self.map, fd)
    }
}

} // verus!
