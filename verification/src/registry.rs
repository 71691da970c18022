//! The host registry: the set of registered hosts, their liveness timestamps,
//! and the two-phase liveness sweep that pings and evicts them.

use vstd::prelude::*;
use vstd::relations::injective_on;
use vstd::set_lib::lemma_int_range;
use vstd::set_lib::lemma_len_subset;
use vstd::set_lib::lemma_map_size;
use vstd::set_lib::set_int_range;

use crate::codes::hex8;
use crate::codes::hex8_exec;
use crate::codes::is_code;
use crate::codes::lemma_hex8_injective;
use crate::codes::lemma_hex8_is_code;
use crate::codes::make_alphabet;
use crate::codes::random_code;
use crate::codes::CODE_LEN;
use crate::elapsed;
use crate::elapsed_since;

verus! {

/// Number of codes in the identifier space: sixteen symbols in each of
/// eight positions.
pub const CODE_SPACE: u64 = 0x1_0000_0000;

/// One registered peer, discoverable through its rendezvous code `id`.
pub struct Host {
    /// Rendezvous code, unique within the registry.
    pub id: String,
    /// Transport-level endpoint identity, unique among live hosts.
    pub addr: String,
    /// When the sweep last sent this host a ping.
    pub last_sent_ping: u64,
    /// When a ping (or registration) was last received from this host.
    pub last_received_ping: u64,
    /// Set by phase one of the sweep, consumed by its eviction phase.
    pub pending_removal: bool,
}

/// Some host in `hs` has address `a`.
pub open spec fn has_addr(hs: Seq<Host>, a: Seq<char>) -> bool {
    exists|i: int| 0 <= i < hs.len() && hs[i].addr@ == a
}

/// The index of the host with address `a`.
pub open spec fn idx_of_addr(hs: Seq<Host>, a: Seq<char>) -> int {
    choose|i: int| 0 <= i < hs.len() && hs[i].addr@ == a
}

/// Some host in `hs` has code `c`.
pub open spec fn has_id(hs: Seq<Host>, c: Seq<char>) -> bool {
    exists|i: int| 0 <= i < hs.len() && hs[i].id@ == c
}

/// The index of the host with code `c`.
pub open spec fn idx_of_id(hs: Seq<Host>, c: Seq<char>) -> int {
    choose|i: int| 0 <= i < hs.len() && hs[i].id@ == c
}

/// Distinct hosts carry distinct codes.
pub open spec fn ids_unique(hs: Seq<Host>) -> bool {
    forall|i: int, j: int| 0 <= i < j < hs.len() ==> hs[i].id@ != hs[j].id@
}

/// Distinct hosts carry distinct addresses.
pub open spec fn addrs_unique(hs: Seq<Host>) -> bool {
    forall|i: int, j: int| 0 <= i < j < hs.len() ==> hs[i].addr@ != hs[j].addr@
}

/// How one registration changes the host set: a registered address keeps its
/// code and has its liveness refreshed; an unseen address is appended with a
/// fresh, well-formed code and both timestamps set to `now`.
pub open spec fn register_step(
    pre: Seq<Host>,
    a: Seq<char>,
    now: u64,
    code: Seq<char>,
    post: Seq<Host>,
) -> bool {
    if has_addr(pre, a) {
        let i = idx_of_addr(pre, a);
        &&& code == pre[i].id@
        &&& post == pre.update(i, Host { last_received_ping: now, ..pre[i] })
    } else {
        &&& !has_id(pre, code)
        &&& is_code(code)
        &&& post.len() == pre.len() + 1
        &&& post.subrange(0, pre.len() as int) == pre
        &&& post.last().id@ == code
        &&& post.last().addr@ == a
        &&& post.last().last_sent_ping == now
        &&& post.last().last_received_ping == now
        &&& !post.last().pending_removal
    }
}

/// How a ping from a registered address changes the host set: only that
/// host's receive timestamp moves.
pub open spec fn touch_step(pre: Seq<Host>, a: Seq<char>, now: u64) -> Seq<Host> {
    pre.update(
        idx_of_addr(pre, a),
        Host { last_received_ping: now, ..pre[idx_of_addr(pre, a)] },
    )
}

/// If the codes spelling every value below `m` are all taken, the registry
/// holds at least `m` hosts: the spelled codes are pairwise distinct, so each
/// owns a host of its own.
proof fn lemma_code_space_exhausted(hs: Seq<Host>, m: int)
    requires
        ids_unique(hs),
        0 <= m <= CODE_SPACE,
        forall|j: int| 0 <= j < m ==> #[trigger] has_id(hs, hex8(j as u32)),
    ensures
        m <= hs.len(),
{
    let f = |j: int| idx_of_id(hs, hex8(j as u32));
    let dom = set_int_range(0, m);
    lemma_int_range(0, m);
    assert(injective_on(f, dom)) by {
        assert forall|j1: int, j2: int|
            dom.contains(j1) && dom.contains(j2) && #[trigger] f(j1) == #[trigger] f(
                j2,
            ) implies j1 == j2 by {
            assert(has_id(hs, hex8(j1 as u32)));
            assert(has_id(hs, hex8(j2 as u32)));
            let i1 = idx_of_id(hs, hex8(j1 as u32));
            let i2 = idx_of_id(hs, hex8(j2 as u32));
            assert(0 <= i1 < hs.len() && hs[i1].id@ == hex8(j1 as u32));
            assert(0 <= i2 < hs.len() && hs[i2].id@ == hex8(j2 as u32));
            assert(hex8(j1 as u32) == hex8(j2 as u32));
            lemma_hex8_injective(j1 as u32, j2 as u32);
        }
    };
    let img = dom.map(f);
    lemma_map_size(dom, img, f);
    assert(img.subset_of(set_int_range(0, hs.len() as int))) by {
        assert forall|x: int| img.contains(x) implies 0 <= x < hs.len() by {
            let j = choose|j: int| dom.contains(j) && x == #[trigger] f(j);
            assert(has_id(hs, hex8(j as u32)));
            assert(0 <= idx_of_id(hs, hex8(j as u32)) < hs.len());
        }
    };
    lemma_int_range(0, hs.len() as int);
    lemma_len_subset(img, set_int_range(0, hs.len() as int));
}

/// A host removed by the sweep, reported so the caller can issue the
/// transport-level disconnect and drop any per-connection activity entry.
pub struct EvictedHost {
    /// The rendezvous code the host held.
    pub id: String,
    /// The address the host was reachable at.
    pub addr: String,
}

/// The sweep owes this host a ping: nothing was sent to it for longer than
/// the ping interval.
pub open spec fn ping_due(h: Host, now: u64, interval: u64) -> bool {
    elapsed(h.last_sent_ping, now) > interval
}

/// The sweep must evict this host: nothing was received from it for at least
/// the removal timeout.
pub open spec fn is_stale(h: Host, now: u64, timeout: u64) -> bool {
    elapsed(h.last_received_ping, now) >= timeout
}

impl Host {
    /// Phase one of the sweep, for this host's ping duty: whether a ping is
    /// owed because nothing was sent for longer than `interval`; the send is
    /// then noted at `now`.
    pub fn should_send_ping(&mut self, now: u64, interval: u64) -> (r: bool)
        ensures
            r == ping_due(*old(self), now, interval),
            *final(self) == (Host {
                last_sent_ping: if ping_due(*old(self), now, interval) {
                    now
                } else {
                    old(self).last_sent_ping
                },
                ..*old(self)
            }),
    {
        let due = elapsed_since(self.last_sent_ping, now) > interval;
        if due {
            self.last_sent_ping = now;
        }
        due
    }

    /// Phase one of the sweep, for this host's liveness: whether it must be
    /// removed because nothing was received for `timeout` or longer; the
    /// host is then marked for the eviction phase.
    pub fn should_be_removed(&mut self, now: u64, timeout: u64) -> (r: bool)
        ensures
            r == (old(self).pending_removal || is_stale(*old(self), now, timeout)),
            *final(self) == (Host {
                pending_removal: old(self).pending_removal || is_stale(*old(self), now, timeout),
                ..*old(self)
            }),
    {
        if elapsed_since(self.last_received_ping, now) >= timeout {
            self.pending_removal = true;
        }
        self.pending_removal
    }
}

/// Phase one of the sweep, applied to one host: note that a due ping was
/// sent, and mark a stale host for removal.
pub open spec fn after_mark(h: Host, now: u64, interval: u64, timeout: u64) -> Host {
    Host {
        last_sent_ping: if ping_due(h, now, interval) {
            now
        } else {
            h.last_sent_ping
        },
        pending_removal: h.pending_removal || is_stale(h, now, timeout),
        ..h
    }
}

/// Phase one of the sweep over the whole registry.
pub open spec fn mark_all(hs: Seq<Host>, now: u64, interval: u64, timeout: u64) -> Seq<Host> {
    hs.map_values(|h: Host| after_mark(h, now, interval, timeout))
}

/// The addresses phase one owes a ping, in registry order.
pub open spec fn sweep_pings(hs: Seq<Host>, now: u64, interval: u64) -> Seq<String>
    decreases hs.len(),
{
    if hs.len() == 0 {
        Seq::empty()
    } else {
        let rest = sweep_pings(hs.drop_last(), now, interval);
        if ping_due(hs.last(), now, interval) {
            rest.push(hs.last().addr)
        } else {
            rest
        }
    }
}

/// Phase two of the sweep: the hosts that were not marked, in order.
pub open spec fn keep_live(hs: Seq<Host>) -> Seq<Host>
    decreases hs.len(),
{
    if hs.len() == 0 {
        Seq::empty()
    } else {
        let rest = keep_live(hs.drop_last());
        if hs.last().pending_removal {
            rest
        } else {
            rest.push(hs.last())
        }
    }
}

/// Phase two of the sweep: the marked hosts, reported for disconnection.
pub open spec fn evict_list(hs: Seq<Host>) -> Seq<EvictedHost>
    decreases hs.len(),
{
    if hs.len() == 0 {
        Seq::empty()
    } else {
        let rest = evict_list(hs.drop_last());
        if hs.last().pending_removal {
            rest.push(EvictedHost { id: hs.last().id, addr: hs.last().addr })
        } else {
            rest
        }
    }
}

/// Every survivor of phase two is unmarked, and any two of them stand, in
/// order, at two distinct positions of the swept sequence.
proof fn lemma_keep_live_sub(hs: Seq<Host>)
    ensures
        forall|k: int|
            0 <= k < keep_live(hs).len() ==> !(#[trigger] keep_live(hs)[k]).pending_removal,
        forall|k: int|
            0 <= k < keep_live(hs).len() ==> exists|j: int|
                0 <= j < hs.len() && #[trigger] keep_live(hs)[k] == hs[j],
        forall|k1: int, k2: int|
            0 <= k1 < k2 < keep_live(hs).len() ==> exists|j1: int, j2: int|
                0 <= j1 < j2 < hs.len() && #[trigger] keep_live(hs)[k1] == hs[j1] && #[trigger] keep_live(
                    hs,
                )[k2] == hs[j2],
    decreases hs.len(),
{
    if hs.len() == 0 {
    } else {
        let prefix = hs.drop_last();
        lemma_keep_live_sub(prefix);
        let kl = keep_live(hs);
        let klp = keep_live(prefix);
        assert(forall|j: int| 0 <= j < prefix.len() ==> #[trigger] prefix[j] == hs[j]);
        assert forall|k: int| 0 <= k < kl.len() implies exists|j: int|
            0 <= j < hs.len() && #[trigger] kl[k] == hs[j] by {
            if k < klp.len() {
                let jw = choose|j: int| 0 <= j < prefix.len() && klp[k] == prefix[j];
                assert(0 <= jw < hs.len() && kl[k] == hs[jw]);
            } else {
                assert(kl[k] == hs[hs.len() - 1]);
            }
        }
        assert forall|k1: int, k2: int| 0 <= k1 < k2 < kl.len() implies exists|j1: int, j2: int|
            0 <= j1 < j2 < hs.len() && #[trigger] kl[k1] == hs[j1] && #[trigger] kl[k2] == hs[j2] by {
            if k2 < klp.len() {
                let (j1, j2) = choose|j1: int, j2: int|
                    0 <= j1 < j2 < prefix.len() && klp[k1] == prefix[j1] && klp[k2] == prefix[j2];
                assert(0 <= j1 < j2 < hs.len() && kl[k1] == hs[j1] && kl[k2] == hs[j2]);
            } else {
                assert(!hs.last().pending_removal && k2 == klp.len());
                let j1 = choose|j: int| 0 <= j < prefix.len() && klp[k1] == prefix[j];
                assert(0 <= j1 < hs.len() - 1 && kl[k1] == hs[j1]);
                assert(kl[k2] == hs[hs.len() - 1]);
            }
        }
    }
}

/// Positionwise membership for phase two: an unmarked host survives, a
/// marked one appears in the eviction report.
proof fn lemma_phase_two_membership(hs: Seq<Host>, i: int)
    requires
        0 <= i < hs.len(),
    ensures
        !hs[i].pending_removal ==> keep_live(hs).contains(hs[i]),
        hs[i].pending_removal ==> evict_list(hs).contains(
            EvictedHost { id: hs[i].id, addr: hs[i].addr },
        ),
    decreases hs.len(),
{
    let prefix = hs.drop_last();
    if i == hs.len() - 1 {
        if !hs[i].pending_removal {
            assert(keep_live(hs).last() == hs[i]);
        } else {
            assert(evict_list(hs).last() == EvictedHost { id: hs[i].id, addr: hs[i].addr });
        }
    } else {
        lemma_phase_two_membership(prefix, i);
        assert(prefix[i] == hs[i]);
        if !hs[i].pending_removal {
            let k = choose|k: int| 0 <= k < keep_live(prefix).len() && keep_live(prefix)[k] == hs[i];
            if hs.last().pending_removal {
                assert(keep_live(hs)[k] == hs[i]);
            } else {
                assert(keep_live(hs)[k] == hs[i]);
            }
        } else {
            let e = EvictedHost { id: hs[i].id, addr: hs[i].addr };
            let k = choose|k: int| 0 <= k < evict_list(prefix).len() && evict_list(prefix)[k] == e;
            assert(evict_list(hs)[k] == e);
        }
    }
}


/// After a sweep, an evicted host's code resolves to nothing, while a live
/// host's code still resolves: eviction frees the code, and nothing else
/// held it.
pub proof fn lemma_sweep_code_resolution(hs: Seq<Host>, now: u64, interval: u64, timeout: u64, i: int)
    requires
        0 <= i < hs.len(),
        ids_unique(hs),
        forall|j: int| 0 <= j < hs.len() ==> !(#[trigger] hs[j]).pending_removal,
    ensures
        is_stale(hs[i], now, timeout) ==> !has_id(
            keep_live(mark_all(hs, now, interval, timeout)),
            hs[i].id@,
        ),
        !is_stale(hs[i], now, timeout) ==> has_id(
            keep_live(mark_all(hs, now, interval, timeout)),
            hs[i].id@,
        ),
{
    let marked = mark_all(hs, now, interval, timeout);
    let kept = keep_live(marked);
    lemma_keep_live_sub(marked);
    assert(forall|j: int|
        0 <= j < marked.len() ==> (#[trigger] marked[j]).id@ == hs[j].id@ && marked[j].pending_removal
            == (hs[j].pending_removal || is_stale(hs[j], now, timeout)));
    if is_stale(hs[i], now, timeout) {
        if has_id(kept, hs[i].id@) {
            let k = choose|k: int| 0 <= k < kept.len() && kept[k].id@ == hs[i].id@;
            let j = choose|j: int| 0 <= j < marked.len() && kept[k] == marked[j];
            assert(0 <= j < marked.len() && kept[k] == marked[j]);
            assert(marked[j].id@ == hs[j].id@);
            if j != i {
                if j < i {
                    assert(hs[j].id@ != hs[i].id@);
                } else {
                    assert(hs[i].id@ != hs[j].id@);
                }
            }
            assert(j == i);
            assert(marked[i].pending_removal);
            assert(!kept[k].pending_removal);
        }
    } else {
        lemma_phase_two_membership(marked, i);
        assert(kept.contains(marked[i]));
        let k = choose|k: int| 0 <= k < kept.len() && kept[k] == marked[i];
        assert(kept[k].id@ == hs[i].id@);
    }
}

/// The registry of live hosts together with its liveness policy.
pub struct Registry {
    /// The live hosts; the code index and the address index are both views
    /// of this one sequence.
    pub hosts: Vec<Host>,
    /// A host is pinged when nothing was sent to it for longer than this.
    pub ping_interval: u64,
    /// A host is evicted when nothing was received from it for at least this.
    pub removal_timeout: u64,
}

impl Registry {
    /// Well-formedness: codes and addresses are unique, no eviction is left
    /// half-done between sweeps, and the timeout tolerates missed pings.
    pub open spec fn wf(self) -> bool {
        &&& ids_unique(self.hosts@)
        &&& addrs_unique(self.hosts@)
        &&& (forall|i: int| 0 <= i < self.hosts@.len() ==> !self.hosts@[i].pending_removal)
        &&& self.removal_timeout > self.ping_interval
    }

    /// An empty registry with the given liveness policy.
    pub fn new(ping_interval: u64, removal_timeout: u64) -> (r: Registry)
        requires
            removal_timeout > ping_interval,
        ensures
            r.wf(),
            r.hosts@.len() == 0,
            r.ping_interval == ping_interval,
            r.removal_timeout == removal_timeout,
    {
        Registry { hosts: Vec::new(), ping_interval, removal_timeout }
    }

    /// The index of the host with address `a`, if any.
    fn find_addr(&self, a: &str) -> (r: Option<usize>)
        requires
            addrs_unique(self.hosts@),
        ensures
            match r {
                Some(i) => i < self.hosts@.len() && self.hosts@[i as int].addr@ == a@
                    && i == idx_of_addr(self.hosts@, a@),
                None => !has_addr(self.hosts@, a@),
            },
    {
        let key = a.to_owned();
        let n = self.hosts.len();
        let mut i: usize = 0;
        while i < n
            invariant
                key@ == a@,
                n == self.hosts@.len(),
                i <= n,
                addrs_unique(self.hosts@),
                forall|j: int| 0 <= j < i ==> self.hosts@[j].addr@ != a@,
            decreases n - i,
        {
            if self.hosts[i].addr == key {
                proof {
                    let k = idx_of_addr(self.hosts@, a@);
                    assert(0 <= k < self.hosts@.len() && self.hosts@[k].addr@ == a@);
                }
                return Some(i);
            }
            i = i + 1;
        }
        None
    }

    /// The index of the host with code `c`, if any.
    fn find_id(&self, c: &str) -> (r: Option<usize>)
        requires
            ids_unique(self.hosts@),
        ensures
            match r {
                Some(i) => i < self.hosts@.len() && self.hosts@[i as int].id@ == c@
                    && i == idx_of_id(self.hosts@, c@),
                None => !has_id(self.hosts@, c@),
            },
    {
        let key = c.to_owned();
        let n = self.hosts.len();
        let mut i: usize = 0;
        while i < n
            invariant
                key@ == c@,
                n == self.hosts@.len(),
                i <= n,
                ids_unique(self.hosts@),
                forall|j: int| 0 <= j < i ==> self.hosts@[j].id@ != c@,
            decreases n - i,
        {
            if self.hosts[i].id == key {
                proof {
                    let k = idx_of_id(self.hosts@, c@);
                    assert(0 <= k < self.hosts@.len() && self.hosts@[k].id@ == c@);
                }
                return Some(i);
            }
            i = i + 1;
        }
        None
    }

    /// Resolve a rendezvous code to the registered host's address.  Absence
    /// is a normal "not found" outcome, not an error.
    pub fn lookup(&self, code: &str) -> (r: Option<String>)
        requires
            self.wf(),
        ensures
            r is Some <==> has_id(self.hosts@, code@),
            r is Some ==> r->0@ == self.hosts@[idx_of_id(self.hosts@, code@)].addr@,
    {
        match self.find_id(code) {
            Some(i) => Some(self.hosts[i].addr.clone()),
            None => None,
        }
    }

    /// Whether some host carries the code `c`.
    fn contains_id(&self, c: &str) -> (r: bool)
        requires
            ids_unique(self.hosts@),
        ensures
            r == has_id(self.hosts@, c@),
    {
        match self.find_id(c) {
            Some(i) => {
                proof {
                    assert(self.hosts@[i as int].id@ == c@);
                }
                true
            },
            None => false,
        }
    }

    /// Register the peer at `addr` as a host.  A repeated registration from
    /// the same address refreshes its liveness and returns the existing code
    /// unchanged; a previously unseen address is assigned a fresh code that
    /// collides with no live one.
    pub fn register(&mut self, addr: &str, now: u64) -> (code: String)
        requires
            old(self).wf(),
            old(self).hosts@.len() < CODE_SPACE,
        ensures
            final(self).wf(),
            final(self).ping_interval == old(self).ping_interval,
            final(self).removal_timeout == old(self).removal_timeout,
            register_step(old(self).hosts@, addr@, now, code@, final(self).hosts@),
    {
        let ghost pre = self.hosts@;
        match self.find_addr(addr) {
            Some(i) => {
                self.hosts[i].last_received_ping = now;
                let code = self.hosts[i].id.clone();
                proof {
                    assert(self.hosts@ =~= pre.update(
                        i as int,
                        Host { last_received_ping: now, ..pre[i as int] },
                    ));
                    assert(forall|j: int|
                        0 <= j < self.hosts@.len() ==> #[trigger] self.hosts@[j].id@ == pre[j].id@
                            && self.hosts@[j].addr@ == pre[j].addr@ && self.hosts@[j].pending_removal
                            == pre[j].pending_removal);
                }
                code
            },
            None => {
                let ghost pre_self = *self;
                let alphabet = make_alphabet();
                let mut code = random_code(&alphabet, CODE_LEN);
                let mut found = !self.contains_id(code.as_str());
                let mut attempts: u64 = 0;
                while !found && attempts < 64
                    invariant
                        *self == pre_self,
                        pre_self.wf(),
                        pre_self.hosts@ == pre,
                        alphabet@ == crate::codes::code_alphabet(),
                        attempts <= 64,
                        code@.len() == CODE_LEN,
                        forall|i: int|
                            0 <= i < code@.len() ==> crate::codes::code_alphabet().contains(
                                #[trigger] code@[i],
                            ),
                        found ==> !has_id(pre, code@),
                    decreases 64 - attempts,
                {
                    code = random_code(&alphabet, CODE_LEN);
                    found = !self.contains_id(code.as_str());
                    attempts = attempts + 1;
                }
                if !found {
                    // The random draws kept colliding: fall back to scanning
                    // the code space, where a free code provably exists.
                    let n = self.hosts.len();
                    let bound: u64 = n as u64 + 1;
                    let mut k: u64 = 0;
                    while k < bound
                        invariant
                            *self == pre_self,
                            pre_self.wf(),
                            pre_self.hosts@ == pre,
                            pre.len() < CODE_SPACE,
                            bound == pre.len() + 1,
                            k <= bound,
                            forall|j: int| 0 <= j < k ==> #[trigger] has_id(pre, hex8(j as u32)),
                            found ==> !has_id(pre, code@) && is_code(code@),
                        ensures
                            *self == pre_self,
                            found ==> !has_id(pre, code@) && is_code(code@),
                            !found ==> forall|j: int|
                                0 <= j < bound ==> #[trigger] has_id(pre, hex8(j as u32)),
                        decreases bound - k,
                    {
                        proof {
                            lemma_hex8_is_code(k as u32);
                        }
                        let cand = hex8_exec(k as u32);
                        if !self.contains_id(cand.as_str()) {
                            code = cand;
                            found = true;
                            break;
                        }
                        k = k + 1;
                    }
                    if !found {
                        proof {
                            lemma_code_space_exhausted(pre, pre.len() as int + 1);
                            assert(false);
                        }
                    }
                }
                let host = Host {
                    id: code.clone(),
                    addr: addr.to_owned(),
                    last_sent_ping: now,
                    last_received_ping: now,
                    pending_removal: false,
                };
                self.hosts.push(host);
                proof {
                    assert(self.hosts@.subrange(0, pre.len() as int) =~= pre);
                    assert(forall|j: int| 0 <= j < pre.len() ==> self.hosts@[j] == pre[j]);
                }
                code
            },
        }
    }

    /// The liveness sweep.  Phase one walks every host, collects the
    /// addresses owed a ping (noting the send), and marks the stale hosts;
    /// phase two, strictly afterwards, removes every marked host and reports
    /// it, so disconnects happen only once the whole registry is decided.
    pub fn sweep(&mut self, now: u64) -> (r: (Vec<String>, Vec<EvictedHost>))
        requires
            old(self).wf(),
        ensures
            final(self).wf(),
            final(self).ping_interval == old(self).ping_interval,
            final(self).removal_timeout == old(self).removal_timeout,
            r.0@ == sweep_pings(old(self).hosts@, now, old(self).ping_interval),
            final(self).hosts@ == keep_live(
                mark_all(old(self).hosts@, now, old(self).ping_interval, old(self).removal_timeout),
            ),
            r.1@ == evict_list(
                mark_all(old(self).hosts@, now, old(self).ping_interval, old(self).removal_timeout),
            ),
    {
        let ghost pre = self.hosts@;
        let ghost iv = self.ping_interval;
        let ghost to = self.removal_timeout;
        let mut pings: Vec<String> = Vec::new();
        let n = self.hosts.len();
        let mut i: usize = 0;
        while i < n
            invariant
                n == self.hosts@.len(),
                pre.len() == n,
                i <= n,
                self.ping_interval == iv,
                self.removal_timeout == to,
                forall|j: int|
                    0 <= j < i ==> #[trigger] self.hosts@[j] == after_mark(pre[j], now, iv, to),
                forall|j: int| i <= j < n ==> #[trigger] self.hosts@[j] == pre[j],
                pings@ == sweep_pings(pre.take(i as int), now, iv),
            decreases n - i,
        {
            let interval = self.ping_interval;
            let timeout = self.removal_timeout;
            let due = self.hosts[i].should_send_ping(now, interval);
            if due {
                pings.push(self.hosts[i].addr.clone());
            }
            let _marked = self.hosts[i].should_be_removed(now, timeout);
            proof {
                assert(pre.take(i + 1 as int).drop_last() =~= pre.take(i as int));
                assert(pre.take(i + 1 as int).last() == pre[i as int]);
                assert(self.hosts@[i as int] == after_mark(pre[i as int], now, iv, to));
            }
            i = i + 1;
        }
        let ghost marked = mark_all(pre, now, iv, to);
        proof {
            assert(self.hosts@ =~= marked);
            assert(pre.take(n as int) =~= pre);
        }
        let mut kept: Vec<Host> = Vec::new();
        let mut evicted: Vec<EvictedHost> = Vec::new();
        let ghost mut done: int = 0;
        while self.hosts.len() > 0
            invariant
                0 <= done <= marked.len(),
                self.hosts@ == marked.skip(done),
                kept@ == keep_live(marked.take(done)),
                evicted@ == evict_list(marked.take(done)),
                self.ping_interval == iv,
                self.removal_timeout == to,
            decreases self.hosts@.len(),
        {
            let h = self.hosts.remove(0);
            proof {
                assert(h == marked[done]);
                assert(self.hosts@ =~= marked.skip(done + 1));
                assert(marked.take(done + 1).drop_last() =~= marked.take(done));
                assert(marked.take(done + 1).last() == marked[done]);
            }
            if h.pending_removal {
                evicted.push(EvictedHost { id: h.id, addr: h.addr });
            } else {
                kept.push(h);
            }
            proof {
                done = done + 1;
            }
        }
        proof {
            assert(marked.take(done) =~= marked);
        }
        self.hosts = kept;
        proof {
            lemma_keep_live_sub(marked);
            assert(forall|j: int|
                0 <= j < marked.len() ==> (#[trigger] marked[j]).id@ == pre[j].id@ && marked[j].addr@
                    == pre[j].addr@);
            assert forall|k1: int, k2: int|
                0 <= k1 < k2 < self.hosts@.len() implies self.hosts@[k1].id@ != self.hosts@[k2].id@
                && self.hosts@[k1].addr@ != self.hosts@[k2].addr@ by {
                let (j1, j2) = choose|j1: int, j2: int|
                    0 <= j1 < j2 < marked.len() && keep_live(marked)[k1] == marked[j1] && keep_live(
                        marked,
                    )[k2] == marked[j2];
                assert(self.hosts@[k1].id@ == pre[j1].id@ && self.hosts@[k2].id@ == pre[j2].id@);
            }
        }
        (pings, evicted)
    }

    /// Refresh the liveness of the host registered at `addr`, if any; a ping
    /// from an unregistered address changes nothing and never auto-registers.
    pub fn touch_ping(&mut self, addr: &str, now: u64) -> (hit: bool)
        requires
            old(self).wf(),
        ensures
            final(self).wf(),
            hit == has_addr(old(self).hosts@, addr@),
            final(self).ping_interval == old(self).ping_interval,
            final(self).removal_timeout == old(self).removal_timeout,
            if hit {
                final(self).hosts@ == touch_step(old(self).hosts@, addr@, now)
            } else {
                *final(self) == *old(self)
            },
    {
        match self.find_addr(addr) {
            Some(i) => {
                self.hosts[i].last_received_ping = now;
                proof {
                    assert(self.hosts@ =~= touch_step(old(self).hosts@, addr@, now));
                }
                true
            },
            None => false,
        }
    }

    /// Whether some host is registered at address `a`.
    pub fn contains_addr(&self, a: &str) -> (r: bool)
        requires
            addrs_unique(self.hosts@),
        ensures
            r == has_addr(self.hosts@, a@),
    {
        match self.find_addr(a) {
            Some(i) => {
                proof {
                    assert(self.hosts@[i as int].addr@ == a@);
                }
                true
            },
            None => false,
        }
    }
}


/// How many hosts in `hs` hold address `a`.
pub open spec fn count_addr(hs: Seq<Host>, a: Seq<char>) -> nat
    decreases hs.len(),
{
    if hs.len() == 0 {
        0
    } else {
        (if hs.last().addr@ == a {
            1nat
        } else {
            0nat
        }) + count_addr(hs.drop_last(), a)
    }
}

/// An address nobody holds is held zero times.
proof fn lemma_count_addr_zero(hs: Seq<Host>, a: Seq<char>)
    requires
        !has_addr(hs, a),
    ensures
        count_addr(hs, a) == 0,
    decreases hs.len(),
{
    if hs.len() > 0 {
        let prefix = hs.drop_last();
        assert(forall|j: int| 0 <= j < prefix.len() ==> #[trigger] prefix[j] == hs[j]);
        assert(!has_addr(prefix, a));
        lemma_count_addr_zero(prefix, a);
        assert(hs.last().addr@ != a);
    }
}

/// With unique addresses, a held address is held exactly once.
pub proof fn lemma_count_addr_unique(hs: Seq<Host>, a: Seq<char>)
    requires
        addrs_unique(hs),
        has_addr(hs, a),
    ensures
        count_addr(hs, a) == 1,
    decreases hs.len(),
{
    let prefix = hs.drop_last();
    assert(forall|j: int| 0 <= j < prefix.len() ==> #[trigger] prefix[j] == hs[j]);
    if hs.last().addr@ == a {
        assert forall|j: int| 0 <= j < prefix.len() implies #[trigger] prefix[j].addr@ != a by {
            assert(hs[j].addr@ != hs[hs.len() - 1].addr@);
        }
        assert(!has_addr(prefix, a));
        lemma_count_addr_zero(prefix, a);
    } else {
        let w = choose|j: int| 0 <= j < hs.len() && hs[j].addr@ == a;
        assert(w < hs.len() - 1);
        assert(prefix[w].addr@ == a);
        assert(has_addr(prefix, a));
        lemma_count_addr_unique(prefix, a);
    }
}

/// After any registration, the address owns exactly one host and that host
/// carries the returned code; uniqueness of codes and of addresses is kept;
/// and a code issued to a new address collides with no code live before it.
pub proof fn lemma_register_code_live(
    pre: Seq<Host>,
    a: Seq<char>,
    now: u64,
    code: Seq<char>,
    post: Seq<Host>,
)
    requires
        addrs_unique(pre),
        ids_unique(pre),
        register_step(pre, a, now, code, post),
    ensures
        has_addr(post, a),
        post[idx_of_addr(post, a)].id@ == code,
        post[idx_of_addr(post, a)].addr@ == a,
        ids_unique(post),
        addrs_unique(post),
        count_addr(post, a) == 1,
        !has_addr(pre, a) ==> !has_id(pre, code),
{
    if has_addr(pre, a) {
        let i = idx_of_addr(pre, a);
        assert(0 <= i < pre.len() && pre[i].addr@ == a);
        assert(forall|j: int|
            0 <= j < post.len() ==> #[trigger] post[j].id@ == pre[j].id@ && post[j].addr@
                == pre[j].addr@);
        assert(post[i].addr@ == a);
        let i2 = idx_of_addr(post, a);
        assert(0 <= i2 < post.len() && post[i2].addr@ == a);
        assert(i2 == i);
    } else {
        assert(forall|j: int| 0 <= j < pre.len() ==> #[trigger] post[j] == pre[j]);
        assert(post[post.len() - 1].addr@ == a);
        let i2 = idx_of_addr(post, a);
        assert(0 <= i2 < post.len() && post[i2].addr@ == a);
        assert forall|j: int| 0 <= j < pre.len() implies #[trigger] post[j].addr@ != a by {
            assert(pre[j].addr@ != a);
        }
        assert(i2 == post.len() - 1);
        assert forall|j1: int, j2: int| 0 <= j1 < j2 < post.len() implies post[j1].id@
            != post[j2].id@ by {
            if j2 == post.len() - 1 {
                assert(pre[j1].id@ != code);
            }
        }
        assert forall|j1: int, j2: int| 0 <= j1 < j2 < post.len() implies post[j1].addr@
            != post[j2].addr@ by {
            if j2 == post.len() - 1 {
                assert(pre[j1].addr@ != a);
            }
        }
    }
    lemma_count_addr_unique(post, a);
}

/// Registering the same address twice, with no eviction between, returns
/// the same code both times, and the registry then holds exactly one host
/// for that address.
pub proof fn lemma_register_idempotent(
    pre: Seq<Host>,
    a: Seq<char>,
    now1: u64,
    c1: Seq<char>,
    mid: Seq<Host>,
    now2: u64,
    c2: Seq<char>,
    post: Seq<Host>,
)
    requires
        addrs_unique(pre),
        ids_unique(pre),
        register_step(pre, a, now1, c1, mid),
        register_step(mid, a, now2, c2, post),
    ensures
        c2 == c1,
        count_addr(post, a) == 1,
{
    lemma_register_code_live(pre, a, now1, c1, mid);
    assert(has_addr(mid, a));
    let i = idx_of_addr(mid, a);
    assert(c2 == mid[i].id@ && mid[i].id@ == c1);
    lemma_register_code_live(mid, a, now2, c2, post);
}

/// Registering two distinct addresses yields two distinct codes.
pub proof fn lemma_register_distinct_codes(
    pre: Seq<Host>,
    a1: Seq<char>,
    now1: u64,
    c1: Seq<char>,
    mid: Seq<Host>,
    a2: Seq<char>,
    now2: u64,
    c2: Seq<char>,
    post: Seq<Host>,
)
    requires
        addrs_unique(pre),
        ids_unique(pre),
        a1 != a2,
        register_step(pre, a1, now1, c1, mid),
        register_step(mid, a2, now2, c2, post),
    ensures
        c1 != c2,
{
    lemma_register_code_live(pre, a1, now1, c1, mid);
    let i1 = idx_of_addr(mid, a1);
    assert(mid[i1].id@ == c1 && mid[i1].addr@ == a1);
    if has_addr(mid, a2) {
        let i2 = idx_of_addr(mid, a2);
        assert(0 <= i2 < mid.len() && mid[i2].addr@ == a2);
        assert(c2 == mid[i2].id@);
        assert(i1 != i2);
        if i1 < i2 {
            assert(mid[i1].id@ != mid[i2].id@);
        } else {
            assert(mid[i2].id@ != mid[i1].id@);
        }
    } else {
        assert(!has_id(mid, c2));
        assert(has_id(mid, c1)) by {
            assert(mid[i1].id@ == c1);
        }
    }
}

/// The liveness sweep's verdict on each host: one that received nothing for
/// the removal timeout or longer is evicted and leaves the registry; one
/// heard from more recently survives, with only its ping timestamp moved.
pub proof fn lemma_sweep_liveness(hs: Seq<Host>, now: u64, interval: u64, timeout: u64, i: int)
    requires
        0 <= i < hs.len(),
        forall|j: int| 0 <= j < hs.len() ==> !(#[trigger] hs[j]).pending_removal,
    ensures
        is_stale(hs[i], now, timeout) ==> evict_list(mark_all(hs, now, interval, timeout)).contains(
            EvictedHost { id: hs[i].id, addr: hs[i].addr },
        ),
        is_stale(hs[i], now, timeout) ==> !keep_live(mark_all(hs, now, interval, timeout)).contains(
            after_mark(hs[i], now, interval, timeout),
        ),
        !is_stale(hs[i], now, timeout) ==> keep_live(mark_all(hs, now, interval, timeout)).contains(
            after_mark(hs[i], now, interval, timeout),
        ),
{
    let marked = mark_all(hs, now, interval, timeout);
    assert(marked[i] == after_mark(hs[i], now, interval, timeout));
    lemma_phase_two_membership(marked, i);
    if is_stale(hs[i], now, timeout) {
        assert(marked[i].pending_removal);
        assert(marked[i].id == hs[i].id && marked[i].addr == hs[i].addr);
        lemma_keep_live_sub(marked);
        if keep_live(marked).contains(after_mark(hs[i], now, interval, timeout)) {
            let k = choose|k: int|
                0 <= k < keep_live(marked).len() && keep_live(marked)[k] == after_mark(
                    hs[i],
                    now,
                    interval,
                    timeout,
                );
            assert(!keep_live(marked)[k].pending_removal);
        }
    } else {
        assert(!marked[i].pending_removal);
    }
}

} // verus!
