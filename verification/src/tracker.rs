//! The connection lifecycle tracker: last-activity times per raw connection,
//! independent of registry identity, so idle connections that never became
//! hosts can still be dropped.

use vstd::prelude::*;

use crate::elapsed;
use crate::elapsed_since;

verus! {

/// Last-seen time of one raw connection.
pub struct PeerEntry {
    /// The connection's stable transport-level identity.
    pub addr: String,
    /// When the connection last showed any activity.
    pub last_seen: u64,
}

/// Some entry in `es` is for address `a`.
pub open spec fn tracks_addr(es: Seq<PeerEntry>, a: Seq<char>) -> bool {
    exists|i: int| 0 <= i < es.len() && es[i].addr@ == a
}

/// The index of the entry for address `a`.
pub open spec fn entry_of(es: Seq<PeerEntry>, a: Seq<char>) -> int {
    choose|i: int| 0 <= i < es.len() && es[i].addr@ == a
}

/// Distinct entries track distinct addresses.
pub open spec fn entries_unique(es: Seq<PeerEntry>) -> bool {
    forall|i: int, j: int| 0 <= i < j < es.len() ==> es[i].addr@ != es[j].addr@
}

/// How noting activity at `a` changes the entries: an existing entry is
/// refreshed, an unseen address is appended.
pub open spec fn note_step(es: Seq<PeerEntry>, a: Seq<char>, now: u64, post: Seq<PeerEntry>) -> bool {
    if tracks_addr(es, a) {
        post == es.update(entry_of(es, a), PeerEntry { last_seen: now, ..es[entry_of(es, a)] })
    } else {
        &&& post.len() == es.len() + 1
        &&& post.subrange(0, es.len() as int) == es
        &&& post.last().addr@ == a
        &&& post.last().last_seen == now
    }
}

/// How forgetting address `a` changes the entries.
pub open spec fn remove_one(es: Seq<PeerEntry>, a: Seq<char>) -> Seq<PeerEntry> {
    if tracks_addr(es, a) {
        es.remove(entry_of(es, a))
    } else {
        es
    }
}

/// Forgetting a list of addresses, first to last.
pub open spec fn remove_all(es: Seq<PeerEntry>, addrs: Seq<Seq<char>>) -> Seq<PeerEntry>
    decreases addrs.len(),
{
    if addrs.len() == 0 {
        es
    } else {
        remove_one(remove_all(es, addrs.drop_last()), addrs.last())
    }
}

/// A connection idle for longer than `timeout` at time `now`.
pub open spec fn is_idle(e: PeerEntry, now: u64, timeout: u64) -> bool {
    elapsed(e.last_seen, now) > timeout
}

/// The entries that survive a prune at time `now`, in order.
pub open spec fn kept_peers(es: Seq<PeerEntry>, now: u64, timeout: u64) -> Seq<PeerEntry>
    decreases es.len(),
{
    if es.len() == 0 {
        Seq::empty()
    } else {
        let rest = kept_peers(es.drop_last(), now, timeout);
        if is_idle(es.last(), now, timeout) {
            rest
        } else {
            rest.push(es.last())
        }
    }
}

/// The addresses a prune at time `now` drops, in order.
pub open spec fn pruned_addrs(es: Seq<PeerEntry>, now: u64, timeout: u64) -> Seq<String>
    decreases es.len(),
{
    if es.len() == 0 {
        Seq::empty()
    } else {
        let rest = pruned_addrs(es.drop_last(), now, timeout);
        if is_idle(es.last(), now, timeout) {
            rest.push(es.last().addr)
        } else {
            rest
        }
    }
}

/// Every survivor of a prune stands, in order, at a position of the pruned
/// sequence.
proof fn lemma_kept_peers_sub(es: Seq<PeerEntry>, now: u64, timeout: u64)
    ensures
        forall|k: int|
            0 <= k < kept_peers(es, now, timeout).len() ==> exists|j: int|
                0 <= j < es.len() && #[trigger] kept_peers(es, now, timeout)[k] == es[j],
        forall|k1: int, k2: int|
            0 <= k1 < k2 < kept_peers(es, now, timeout).len() ==> exists|j1: int, j2: int|
                0 <= j1 < j2 < es.len() && #[trigger] kept_peers(es, now, timeout)[k1] == es[j1]
                    && #[trigger] kept_peers(es, now, timeout)[k2] == es[j2],
    decreases es.len(),
{
    if es.len() == 0 {
    } else {
        let prefix = es.drop_last();
        lemma_kept_peers_sub(prefix, now, timeout);
        let kl = kept_peers(es, now, timeout);
        let klp = kept_peers(prefix, now, timeout);
        assert(forall|j: int| 0 <= j < prefix.len() ==> #[trigger] prefix[j] == es[j]);
        assert forall|k: int| 0 <= k < kl.len() implies exists|j: int|
            0 <= j < es.len() && #[trigger] kl[k] == es[j] by {
            if k < klp.len() {
                let jw = choose|j: int| 0 <= j < prefix.len() && klp[k] == prefix[j];
                assert(0 <= jw < es.len() && kl[k] == es[jw]);
            } else {
                assert(kl[k] == es[es.len() - 1]);
            }
        }
        assert forall|k1: int, k2: int| 0 <= k1 < k2 < kl.len() implies exists|j1: int, j2: int|
            0 <= j1 < j2 < es.len() && #[trigger] kl[k1] == es[j1] && #[trigger] kl[k2] == es[j2] by {
            if k2 < klp.len() {
                let (j1, j2) = choose|j1: int, j2: int|
                    0 <= j1 < j2 < prefix.len() && klp[k1] == prefix[j1] && klp[k2] == prefix[j2];
                assert(0 <= j1 < j2 < es.len() && kl[k1] == es[j1] && kl[k2] == es[j2]);
            } else {
                assert(!is_idle(es.last(), now, timeout) && k2 == klp.len());
                let j1 = choose|j: int| 0 <= j < prefix.len() && klp[k1] == prefix[j];
                assert(0 <= j1 < es.len() - 1 && kl[k1] == es[j1]);
                assert(kl[k2] == es[es.len() - 1]);
            }
        }
    }
}

/// The tracker itself: one entry per live raw connection.
pub struct PeerTracker {
    /// The tracked connections.
    pub entries: Vec<PeerEntry>,
}

impl PeerTracker {
    /// Well-formedness: one entry per address.
    pub open spec fn wf(self) -> bool {
        entries_unique(self.entries@)
    }

    /// An empty tracker.
    pub fn new() -> (t: PeerTracker)
        ensures
            t.wf(),
            t.entries@.len() == 0,
    {
        PeerTracker { entries: Vec::new() }
    }

    /// The index of the entry for `a`, if any.
    fn find(&self, a: &str) -> (r: Option<usize>)
        requires
            self.wf(),
        ensures
            match r {
                Some(i) => i < self.entries@.len() && self.entries@[i as int].addr@ == a@ && i
                    == entry_of(self.entries@, a@),
                None => !tracks_addr(self.entries@, a@),
            },
    {
        let key = a.to_owned();
        let n = self.entries.len();
        let mut i: usize = 0;
        while i < n
            invariant
                key@ == a@,
                n == self.entries@.len(),
                i <= n,
                entries_unique(self.entries@),
                forall|j: int| 0 <= j < i ==> self.entries@[j].addr@ != a@,
            decreases n - i,
        {
            if self.entries[i].addr == key {
                proof {
                    let k = entry_of(self.entries@, a@);
                    assert(0 <= k < self.entries@.len() && self.entries@[k].addr@ == a@);
                }
                return Some(i);
            }
            i = i + 1;
        }
        None
    }

    /// Note activity on the connection at `addr`: refresh its entry, or
    /// start tracking it.
    pub fn note_activity(&mut self, addr: &str, now: u64)
        requires
            old(self).wf(),
        ensures
            final(self).wf(),
            note_step(old(self).entries@, addr@, now, final(self).entries@),
    {
        let ghost pre = self.entries@;
        match self.find(addr) {
            Some(i) => {
                self.entries[i].last_seen = now;
                proof {
                    assert(self.entries@ =~= pre.update(
                        i as int,
                        PeerEntry { last_seen: now, ..pre[i as int] },
                    ));
                    assert(forall|j: int|
                        0 <= j < self.entries@.len() ==> #[trigger] self.entries@[j].addr@
                            == pre[j].addr@);
                }
            },
            None => {
                self.entries.push(PeerEntry { addr: addr.to_owned(), last_seen: now });
                proof {
                    assert(self.entries@.subrange(0, pre.len() as int) =~= pre);
                    assert(forall|j: int| 0 <= j < pre.len() ==> self.entries@[j] == pre[j]);
                }
            },
        }
    }

    /// Stop tracking the connection at `addr`, if it was tracked.
    pub fn remove(&mut self, addr: &str)
        requires
            old(self).wf(),
        ensures
            final(self).wf(),
            final(self).entries@ == remove_one(old(self).entries@, addr@),
    {
        let ghost pre = self.entries@;
        match self.find(addr) {
            Some(i) => {
                self.entries.remove(i);
                proof {
                    assert(self.entries@ =~= pre.remove(i as int));
                    assert(forall|j: int|
                        0 <= j < self.entries@.len() ==> #[trigger] self.entries@[j] == (if j < i {
                            pre[j]
                        } else {
                            pre[j + 1]
                        }));
                }
            },
            None => {},
        }
    }

    /// Drop every connection idle for longer than `timeout`, returning the
    /// addresses to disconnect.
    pub fn prune(&mut self, now: u64, timeout: u64) -> (dropped: Vec<String>)
        requires
            old(self).wf(),
        ensures
            final(self).wf(),
            final(self).entries@ == kept_peers(old(self).entries@, now, timeout),
            dropped@ == pruned_addrs(old(self).entries@, now, timeout),
    {
        let ghost pre = self.entries@;
        let mut kept: Vec<PeerEntry> = Vec::new();
        let mut dropped: Vec<String> = Vec::new();
        let ghost mut done: int = 0;
        while self.entries.len() > 0
            invariant
                0 <= done <= pre.len(),
                self.entries@ == pre.skip(done),
                kept@ == kept_peers(pre.take(done), now, timeout),
                dropped@ == pruned_addrs(pre.take(done), now, timeout),
            decreases self.entries@.len(),
        {
            let e = self.entries.remove(0);
            proof {
                assert(e == pre[done]);
                assert(self.entries@ =~= pre.skip(done + 1));
                assert(pre.take(done + 1).drop_last() =~= pre.take(done));
                assert(pre.take(done + 1).last() == pre[done]);
            }
            if elapsed_since(e.last_seen, now) > timeout {
                dropped.push(e.addr);
            } else {
                kept.push(e);
            }
            proof {
                done = done + 1;
            }
        }
        proof {
            assert(pre.take(done) =~= pre);
        }
        self.entries = kept;
        proof {
            lemma_kept_peers_sub(pre, now, timeout);
            assert forall|k1: int, k2: int|
                0 <= k1 < k2 < self.entries@.len() implies self.entries@[k1].addr@
                != self.entries@[k2].addr@ by {
                let (j1, j2) = choose|j1: int, j2: int|
                    0 <= j1 < j2 < pre.len() && kept_peers(pre, now, timeout)[k1] == pre[j1]
                        && kept_peers(pre, now, timeout)[k2] == pre[j2];
                assert(self.entries@[k1].addr@ == pre[j1].addr@);
            }
        }
        dropped
    }
}

} // verus!
