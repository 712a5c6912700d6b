//! Round-robin node selection: a cursor walks an ordered node set in a fixed
//! cyclic order, visiting every node once per turn and starting over after
//! the last. The cursor is wrapped against the current length on every
//! advance, so a node set that shrank since the last call is still read in
//! range.

use vstd::prelude::*;
use crate::load_balancing::cycle::lemma_advance_mod_noop;
use crate::load_balancing::cycle::sel_index;
use vstd::arithmetic::div_mod::lemma_mod_self_0;
use vstd::arithmetic::div_mod::lemma_small_mod;

verus! {

/// Round-robin selection over an ordered set of opaque node handles.
///
/// The node set is an ordered sequence, insertion order preserved and
/// duplicates permitted as independent slots. The only other state is the
/// cursor: the index most recently selected, advanced modulo the current
/// length before every read.
pub struct RoundRobinSync<N> {
    cluster: Vec<N>,
    prev_idx: usize,
}

impl<N> RoundRobinSync<N> {
    /// The current node set, in order.
    pub closed spec fn nodes(self) -> Seq<N> {
        self.cluster@
    }

    /// The cursor: the index of the slot most recently handed out. It may
    /// stand beyond the current length after the node set was replaced by a
    /// shorter one; every advance wraps it back into range.
    pub closed spec fn cursor(self) -> nat {
        self.prev_idx as nat
    }

    /// A strategy with no nodes yet; `next` reports "no node available"
    /// until `init` supplies a set.
    pub fn new() -> (r: Self)
        ensures
            r.nodes() == Seq::<N>::empty(),
            r.cursor() == 0,
    {
        RoundRobinSync { prev_idx: 0, cluster: Vec::new() }
    }

    /// Replaces the entire managed node set. The cursor is kept, not reset:
    /// it is reinterpreted against the new set's length on the next advance.
    pub fn init(&mut self, cluster: Vec<N>)
        ensures
            final(self).nodes() == cluster@,
            final(self).cursor() == old(self).cursor(),
    {
        self.cluster = cluster;
    }

    /// Selects the node for the next unit of work: the cursor advances one
    /// step, wrapping around the current length, and the node at the new
    /// cursor is returned. On an empty node set nothing is selected and
    /// nothing changes.
    pub fn next(&mut self) -> (r: Option<&N>)
        ensures
            old(self).nodes().len() == 0 ==> {
                &&& r is None
                &&& final(self).nodes() == old(self).nodes()
                &&& final(self).cursor() == old(self).cursor()
            },
            old(self).nodes().len() > 0 ==> {
                &&& final(self).nodes() == old(self).nodes()
                &&& final(self).cursor() == sel_index(old(self).cursor(), old(self).nodes().len())
                &&& final(self).cursor() < final(self).nodes().len()
                &&& r matches Some(n) && *n == final(self).nodes()[final(self).cursor() as int]
            },
    {
        let len = self.cluster.len();
        if len == 0 {
            return None;
        }
        let rem = self.prev_idx % len;
        let next_idx: usize = if rem + 1 == len {
            0
        } else {
            rem + 1
        };
        proof {
            lemma_advance_mod_noop(old(self).prev_idx as int, len as int);
            if rem + 1 == len {
                lemma_mod_self_0(len as int);
            } else {
                lemma_small_mod((rem + 1) as nat, len as nat);
            }
        }
        self.prev_idx = next_idx;
        Some(&self.cluster[next_idx])
    }

    /// A read-only view of the full current node set, in current order.
    pub fn get_all_nodes(&self) -> (r: &Vec<N>)
        ensures
            r@ == self.nodes(),
    {
        &self.cluster
    }

    /// Removes at most one node: the first, in current order, for which
    /// `filter` answers true. A no-op when no node matches. The cursor is
    /// untouched either way.
    pub fn remove_node<F: Fn(&N) -> bool>(&mut self, filter: F)
        requires
            forall|j: int|
                0 <= j < old(self).nodes().len() ==> call_requires(
                    filter,
                    (&old(self).nodes()[j],),
                ),
        ensures
            final(self).cursor() == old(self).cursor(),
            ({
                ||| {
                    &&& final(self).nodes() == old(self).nodes()
                    &&& forall|j: int|
                        0 <= j < old(self).nodes().len() ==> call_ensures(
                            filter,
                            (&old(self).nodes()[j],),
                            false,
                        )
                }
                ||| exists|i: int|
                    {
                        &&& 0 <= i < old(self).nodes().len()
                        &&& #[trigger] call_ensures(filter, (&old(self).nodes()[i],), true)
                        &&& forall|j: int|
                            0 <= j < i ==> call_ensures(filter, (&old(self).nodes()[j],), false)
                        &&& final(self).nodes() == old(self).nodes().remove(i)
                    }
            }),
    {
        let len = self.cluster.len();
        let mut i: usize = 0;
        while i < len
            invariant
                len == old(self).nodes().len(),
                self.cluster@ == old(self).nodes(),
                self.prev_idx == old(self).prev_idx,
                0 <= i <= len,
                forall|j: int|
                    0 <= j < len ==> call_requires(filter, (&old(self).nodes()[j],)),
                forall|j: int|
                    0 <= j < i ==> call_ensures(filter, (&old(self).nodes()[j],), false),
            decreases len - i,
        {
            proof {
                assert(call_requires(filter, (&old(self).nodes()[i as int],)));
            }
            if filter(&self.cluster[i]) {
                self.cluster.remove(i);
                proof {
                    let oi = i as int;
                    assert(call_ensures(filter, (&old(self).nodes()[oi],), true));
                    assert(self.cluster@ == old(self).nodes().remove(oi));
                }
                return ;
            }
            i += 1;
        }
    }

    /// What `RoundRobinSync::from` builds: the given node set, in order, with
    /// a fresh cursor, so the first advance selects slot 1 modulo the length.
    pub proof fn lemma_from_spec(v: Vec<N>)
        ensures
            (<RoundRobinSync<N> as vstd::std_specs::convert::FromSpec<Vec<N>>>::obeys_from_spec()),
            (<RoundRobinSync<N> as vstd::std_specs::convert::FromSpec<Vec<N>>>::from_spec(
                v,
            )).nodes() == v@,
            (<RoundRobinSync<N> as vstd::std_specs::convert::FromSpec<Vec<N>>>::from_spec(
                v,
            )).cursor() == 0,
    {
    }
}


impl<N> From<Vec<N>> for RoundRobinSync<N> {
    /// A strategy over the given node set, with a fresh cursor: the first
    /// advance will select slot 1 modulo the length.
    fn from(cluster: Vec<N>) -> (r: RoundRobinSync<N>) {
        RoundRobinSync { prev_idx: 0, cluster }
    }
}

impl<N> vstd::std_specs::convert::FromSpecImpl<Vec<N>> for RoundRobinSync<N> {
    open spec fn obeys_from_spec() -> bool {
        true
    }

    closed spec fn from_spec(v: Vec<N>) -> RoundRobinSync<N> {
        RoundRobinSync { prev_idx: 0, cluster: v }
    }
}

} // verus!
