//! The rendezvous server: the registry, the connection tracker, the protocol
//! dispatcher, and the per-tick liveness pass.  The main loop around it only
//! moves bytes; every decision is taken here.

use vstd::prelude::*;

use crate::msg::client_lookup_text;
use crate::msg::encode;
use crate::msg::inbound_of;
use crate::msg::json_string_fields;
use crate::msg::lookup_response_text;
use crate::msg::msg_view;
use crate::msg::parse_message;
use crate::msg::ping_response_text;
use crate::msg::register_response_text;
use crate::msg::InboundMsg;
use crate::msg::MsgType;
use crate::registry::evict_list;
use crate::registry::has_addr;
use crate::registry::has_id;
use crate::registry::idx_of_id;
use crate::registry::keep_live;
use crate::registry::mark_all;
use crate::registry::register_step;
use crate::registry::sweep_pings;
use crate::registry::touch_step;
use crate::registry::EvictedHost;
use crate::registry::Registry;
use crate::registry::CODE_SPACE;
use crate::tracker::kept_peers;
use crate::tracker::note_step;
use crate::tracker::pruned_addrs;
use crate::tracker::remove_all;
use crate::tracker::remove_one;
use crate::tracker::PeerTracker;

verus! {

/// One outbound message: a payload owed to a destination address.
pub struct OutMsg {
    /// The transport-level destination.
    pub dest: String,
    /// The wire text to send.
    pub payload: String,
}

/// Outbound messages at the character level.
pub open spec fn outs_view(v: Seq<OutMsg>) -> Seq<(Seq<char>, Seq<char>)> {
    v.map_values(|o: OutMsg| (o.dest@, o.payload@))
}

/// The pings owed to a list of addresses.
pub open spec fn ping_msgs(addrs: Seq<String>) -> Seq<(Seq<char>, Seq<char>)> {
    addrs.map_values(|a: String| (a@, ping_response_text()))
}

/// The addresses of the evicted hosts, as values.
pub open spec fn evicted_addrs(ev: Seq<EvictedHost>) -> Seq<String> {
    ev.map_values(|e: EvictedHost| e.addr)
}

/// The addresses of the evicted hosts, at the character level.
pub open spec fn evicted_addr_views(ev: Seq<EvictedHost>) -> Seq<Seq<char>> {
    ev.map_values(|e: EvictedHost| e.addr@)
}

/// The whole server state: host registry plus connection tracker.
pub struct Server {
    /// The host registry and its liveness policy.
    pub registry: Registry,
    /// Last-activity times of raw connections that are not hosts.
    pub tracker: PeerTracker,
}

/// What one dispatched message does: which replies leave, and how the
/// registry and the tracker move.  An invalid message does nothing at all;
/// a ping from an unknown address does nothing at all; a lookup mutates
/// nothing; only a registration moves both components.
pub open spec fn dispatch_post(
    pre: Server,
    m: InboundMsg,
    origin: Seq<char>,
    now: u64,
    post: Server,
    outs: Seq<(Seq<char>, Seq<char>)>,
) -> bool {
    match m {
        InboundMsg::Invalid => post == pre && outs.len() == 0,
        InboundMsg::Ping => if has_addr(pre.registry.hosts@, origin) {
            &&& post.registry.hosts@ == touch_step(pre.registry.hosts@, origin, now)
            &&& post.registry.ping_interval == pre.registry.ping_interval
            &&& post.registry.removal_timeout == pre.registry.removal_timeout
            &&& post.tracker == pre.tracker
            &&& outs == seq![(origin, ping_response_text())]
        } else {
            post == pre && outs.len() == 0
        },
        InboundMsg::Register => {
            &&& post.registry.ping_interval == pre.registry.ping_interval
            &&& post.registry.removal_timeout == pre.registry.removal_timeout
            &&& (exists|code: Seq<char>|
                #[trigger] register_step(pre.registry.hosts@, origin, now, code, post.registry.hosts@)
                    && outs == seq![(origin, register_response_text(code))])
            &&& post.tracker.entries@ == remove_one(pre.tracker.entries@, origin)
        },
        InboundMsg::Lookup(code) => {
            &&& post == pre
            &&& if code.len() == 0 || !has_id(pre.registry.hosts@, code) {
                outs == seq![(origin, lookup_response_text(false, Seq::<char>::empty()))]
            } else {
                let a = pre.registry.hosts@[idx_of_id(pre.registry.hosts@, code)].addr@;
                outs == seq![(a, client_lookup_text(origin)), (origin, lookup_response_text(true, a))]
            }
        },
    }
}

impl Server {
    /// Well-formedness of both components.
    pub open spec fn wf(self) -> bool {
        &&& self.registry.wf()
        &&& self.tracker.wf()
    }

    /// A fresh server with the given liveness policy.
    pub fn new(ping_interval: u64, removal_timeout: u64) -> (s: Server)
        requires
            removal_timeout > ping_interval,
        ensures
            s.wf(),
            s.registry.hosts@.len() == 0,
            s.tracker.entries@.len() == 0,
            s.registry.ping_interval == ping_interval,
            s.registry.removal_timeout == removal_timeout,
    {
        Server { registry: Registry::new(ping_interval, removal_timeout), tracker: PeerTracker::new() }
    }

    /// Dispatch one decoded message from `origin`.
    pub fn handle_decoded(&mut self, m: &MsgType, origin: &str, now: u64) -> (outs: Vec<OutMsg>)
        requires
            old(self).wf(),
            old(self).registry.hosts@.len() < CODE_SPACE,
        ensures
            final(self).wf(),
            dispatch_post(*old(self), msg_view(*m), origin@, now, *final(self), outs_view(outs@)),
    {
        match m {
            MsgType::PingRequest => {
                let hit = self.registry.touch_ping(origin, now);
                if hit {
                    let payload = encode(&MsgType::PingResponse);
                    let mut outs: Vec<OutMsg> = Vec::new();
                    outs.push(OutMsg { dest: origin.to_owned(), payload });
                    proof {
                        assert(outs_view(outs@) =~= seq![(origin@, ping_response_text())]);
                    }
                    outs
                } else {
                    Vec::new()
                }
            },
            MsgType::HostRegisterRequest => {
                let code = self.registry.register(origin, now);
                self.tracker.remove(origin);
                let ghost code_view = code@;
                let resp = MsgType::HostRegisterResponse { host_code: code };
                let payload = encode(&resp);
                let mut outs: Vec<OutMsg> = Vec::new();
                outs.push(OutMsg { dest: origin.to_owned(), payload });
                proof {
                    assert(outs_view(outs@) =~= seq![(origin@, register_response_text(code_view))]);
                    assert(register_step(
                        old(self).registry.hosts@,
                        origin@,
                        now,
                        code_view,
                        self.registry.hosts@,
                    ));
                }
                outs
            },
            MsgType::HostLookupRequest { host_code } => {
                let mut outs: Vec<OutMsg> = Vec::new();
                if host_code.as_str().is_empty() {
                    let payload = encode(
                        &MsgType::HostLookupResponse { success: false, host_info: String::new() },
                    );
                    outs.push(OutMsg { dest: origin.to_owned(), payload });
                    proof {
                        assert(outs_view(outs@) =~= seq![
                            (origin@, lookup_response_text(false, Seq::<char>::empty())),
                        ]);
                    }
                } else {
                    match self.registry.lookup(host_code.as_str()) {
                        Some(a) => {
                            let ghost a_view = a@;
                            let to_host = encode(
                                &MsgType::ClientLookupResponse { client_info: origin.to_owned() },
                            );
                            outs.push(OutMsg { dest: a.clone(), payload: to_host });
                            let to_client = encode(
                                &MsgType::HostLookupResponse { success: true, host_info: a },
                            );
                            outs.push(OutMsg { dest: origin.to_owned(), payload: to_client });
                            proof {
                                assert(outs_view(outs@) =~= seq![
                                    (a_view, client_lookup_text(origin@)),
                                    (origin@, lookup_response_text(true, a_view)),
                                ]);
                            }
                        },
                        None => {
                            let payload = encode(
                                &MsgType::HostLookupResponse {
                                    success: false,
                                    host_info: String::new(),
                                },
                            );
                            outs.push(OutMsg { dest: origin.to_owned(), payload });
                            proof {
                                assert(outs_view(outs@) =~= seq![
                                    (origin@, lookup_response_text(false, Seq::<char>::empty())),
                                ]);
                            }
                        },
                    }
                }
                outs
            },
            _ => Vec::new(),
        }
    }

    /// Decode and dispatch one inbound datagram from `origin`.  Unparseable
    /// input, an unknown discriminator, and a variant that never travels
    /// toward the server are all dropped: no reply, no state change.
    pub fn handle_message(&mut self, data: &str, origin: &str, now: u64) -> (outs: Vec<OutMsg>)
        requires
            old(self).wf(),
            old(self).registry.hosts@.len() < CODE_SPACE,
        ensures
            final(self).wf(),
            match json_string_fields(data@) {
                None => *final(self) == *old(self) && outs@.len() == 0,
                Some(fs) => dispatch_post(
                    *old(self),
                    inbound_of(fs),
                    origin@,
                    now,
                    *final(self),
                    outs_view(outs@),
                ),
            },
    {
        match parse_message(data) {
            None => Vec::new(),
            Some(m) => self.handle_decoded(&m, origin, now),
        }
    }

    /// Note activity on the raw connection at `addr`.  Registered hosts are
    /// not tracked here: their liveness is governed by the registry alone.
    pub fn note_activity(&mut self, addr: &str, now: u64)
        requires
            old(self).wf(),
        ensures
            final(self).wf(),
            final(self).registry == old(self).registry,
            if has_addr(old(self).registry.hosts@, addr@) {
                final(self).tracker == old(self).tracker
            } else {
                note_step(old(self).tracker.entries@, addr@, now, final(self).tracker.entries@)
            },
    {
        if !self.registry.contains_addr(addr) {
            self.tracker.note_activity(addr, now);
        }
    }

    /// Note that the raw connection at `addr` went away.
    pub fn note_disconnect(&mut self, addr: &str)
        requires
            old(self).wf(),
        ensures
            final(self).wf(),
            final(self).registry == old(self).registry,
            final(self).tracker.entries@ == remove_one(old(self).tracker.entries@, addr@),
    {
        self.tracker.remove(addr);
    }

    /// One liveness pass.  Idle raw connections are pruned first; then the
    /// registry sweep runs, and every evicted host is also dropped from the
    /// tracker.  Returns the pings owed and the addresses to disconnect:
    /// the pruned connections first, then the evicted hosts.
    pub fn tick(&mut self, now: u64) -> (r: (Vec<OutMsg>, Vec<String>))
        requires
            old(self).wf(),
        ensures
            final(self).wf(),
            final(self).registry.ping_interval == old(self).registry.ping_interval,
            final(self).registry.removal_timeout == old(self).registry.removal_timeout,
            final(self).registry.hosts@ == keep_live(
                mark_all(
                    old(self).registry.hosts@,
                    now,
                    old(self).registry.ping_interval,
                    old(self).registry.removal_timeout,
                ),
            ),
            outs_view(r.0@) == ping_msgs(
                sweep_pings(old(self).registry.hosts@, now, old(self).registry.ping_interval),
            ),
            r.1@ == pruned_addrs(
                old(self).tracker.entries@,
                now,
                old(self).registry.removal_timeout,
            ) + evicted_addrs(
                evict_list(
                    mark_all(
                        old(self).registry.hosts@,
                        now,
                        old(self).registry.ping_interval,
                        old(self).registry.removal_timeout,
                    ),
                ),
            ),
            final(self).tracker.entries@ == remove_all(
                kept_peers(old(self).tracker.entries@, now, old(self).registry.removal_timeout),
                evicted_addr_views(
                    evict_list(
                        mark_all(
                            old(self).registry.hosts@,
                            now,
                            old(self).registry.ping_interval,
                            old(self).registry.removal_timeout,
                        ),
                    ),
                ),
            ),
    {
        let timeout = self.registry.removal_timeout;
        let mut disconnects = self.tracker.prune(now, timeout);
        let ghost pruned = disconnects@;
        let (ping_addrs, evicted) = self.registry.sweep(now);
        let ghost pa = ping_addrs@;
        let ghost ev = evicted@;
        let ghost reg_after = self.registry;
        let ghost kept0 = self.tracker.entries@;

        let ping_payload = encode(&MsgType::PingResponse);
        let mut pings: Vec<OutMsg> = Vec::new();
        let mut i: usize = 0;
        while i < ping_addrs.len()
            invariant
                i <= pa.len(),
                ping_addrs@ == pa,
                ping_payload@ == ping_response_text(),
                outs_view(pings@) =~= ping_msgs(pa.take(i as int)),
            decreases pa.len() - i,
        {
            let ghost before = pings@;
            let dest = ping_addrs[i].clone();
            let payload = ping_payload.clone();
            let m = OutMsg { dest, payload };
            let ghost elem = m;
            pings.push(m);
            proof {
                assert(pings@ == before.push(elem));
                assert(elem.dest == pa[i as int]);
                assert(elem.payload@ == ping_response_text());
                assert(outs_view(before).len() == before.len());
                assert(ping_msgs(pa.take(i as int)).len() == i);
                assert(before.len() == i);
                assert(pings@.len() == i + 1);
                assert forall|k: int| 0 <= k < pings@.len() implies #[trigger] outs_view(pings@)[k]
                    == ping_msgs(pa.take(i + 1 as int))[k] by {
                    if k < i {
                        assert(outs_view(before)[k] == ping_msgs(pa.take(i as int))[k]);
                        assert(pings@[k] == before[k]);
                        assert(ping_msgs(pa.take(i as int))[k] == (pa[k]@, ping_response_text()));
                        assert(ping_msgs(pa.take(i + 1 as int))[k] == (pa[k]@, ping_response_text()));
                    } else {
                        assert(pings@[k].dest == pa[i as int]);
                        assert(pings@[k].payload@ == ping_response_text());
                    }
                }
                assert(outs_view(pings@) =~= ping_msgs(pa.take(i + 1 as int)));
            }
            i = i + 1;
        }
        proof {
            assert(pa.take(pa.len() as int) =~= pa);
        }

        let mut j: usize = 0;
        while j < evicted.len()
            invariant
                j <= ev.len(),
                evicted@ == ev,
                self.registry == reg_after,
                self.tracker.wf(),
                self.tracker.entries@ == remove_all(kept0, evicted_addr_views(ev).take(j as int)),
                disconnects@ == pruned + evicted_addrs(ev).take(j as int),
            decreases ev.len() - j,
        {
            self.tracker.remove(evicted[j].addr.as_str());
            disconnects.push(evicted[j].addr.clone());
            proof {
                assert(evicted_addr_views(ev).take(j + 1 as int).drop_last() =~= evicted_addr_views(
                    ev,
                ).take(j as int));
                assert(evicted_addr_views(ev).take(j + 1 as int).last() == ev[j as int].addr@);
                assert(disconnects@ =~= pruned + evicted_addrs(ev).take(j + 1 as int));
            }
            j = j + 1;
        }
        proof {
            assert(evicted_addr_views(ev).take(ev.len() as int) =~= evicted_addr_views(ev));
            assert(evicted_addrs(ev).take(ev.len() as int) =~= evicted_addrs(ev));
        }
        (pings, disconnects)
    }
}

} // verus!
