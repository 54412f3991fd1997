//! Port forwarding: the ports a pod declares, and the registry of active
//! forwarding sessions, one per session id.
use vstd::prelude::*;
use crate::model::{Pod, PodSpec, Container, Port, opt_view_or, clone_opt};
use crate::benchmark::opt_seq;
use crate::text::{dec_repr, string_of, str_eq, append_u64};

verus! {

/// A port a container of a pod declares.
#[derive(Debug)]
pub struct ContainerPort {
    pub container_name: String,
    pub port: u16,
    pub protocol: String,
    pub name: Option<String>,
}

/// A forwarding from a local port to a port of a pod.
#[derive(Debug)]
pub struct PortForwardSession {
    pub id: String,
    pub namespace: String,
    pub pod_name: String,
    pub local_port: u16,
    pub remote_port: u16,
    pub status: String,
}

/// `p` describes port `q` of container `c`; the number keeps its low
/// 16 bits.
pub open spec fn port_of(p: ContainerPort, c: Container, q: Port) -> bool {
    &&& p.container_name@ == c.name@
    &&& p.port == q.container_port as u16
    &&& p.protocol@ == opt_view_or(q.protocol, "TCP"@)
    &&& opt_seq(p.name) == opt_seq(q.name)
}

/// The ports a container declares, none when it lists none.
pub open spec fn ports_of(c: Container) -> Seq<Port> {
    match c.ports {
        Some(ps) => ps@,
        None => Seq::empty(),
    }
}

/// The ports of the containers `cs`, container by container, as
/// (container, port) pairs.
pub open spec fn declared_ports(cs: Seq<Container>) -> Seq<(Container, Port)>
    decreases cs.len(),
{
    if cs.len() == 0 {
        Seq::empty()
    } else {
        let c = cs.last();
        declared_ports(cs.drop_last()) + ports_of(c).map_values(|q: Port| (c, q))
    }
}

/// The ports the containers of `spec` declare, in order.
pub fn get_pod_ports(spec: &Option<PodSpec>) -> (r: Vec<ContainerPort>)
    ensures
        match *spec {
            Some(s) => {
                let d = declared_ports(s.containers@);
                &&& r@.len() == d.len()
                &&& forall|i: int| 0 <= i < d.len() ==> port_of(#[trigger] r@[i], d[i].0, d[i].1)
            },
            None => r@.len() == 0,
        },
{
    let mut out: Vec<ContainerPort> = Vec::new();
    match spec {
        Some(s) => {
            let mut i: usize = 0;
            while i < s.containers.len()
                invariant
                    i <= s.containers@.len(),
                    out@.len() == declared_ports(s.containers@.subrange(0, i as int)).len(),
                    forall|k: int| 0 <= k < out@.len() ==> {
                        let d = declared_ports(s.containers@.subrange(0, i as int));
                        port_of(#[trigger] out@[k], d[k].0, d[k].1)
                    },
                decreases s.containers@.len() - i,
            {
                let c = &s.containers[i];
                let ghost base = declared_ports(s.containers@.subrange(0, i as int));
                let ghost ps = ports_of(*c);
                let ghost added = ps.map_values(|q: Port| (*c, q));
                proof {
                    assert(s.containers@.subrange(0, i + 1).drop_last() =~= s.containers@.subrange(0, i as int));
                    assert(s.containers@.subrange(0, i + 1).last() == *c);
                }
                match &c.ports {
                    Some(qs) => {
                        let mut j: usize = 0;
                        while j < qs.len()
                            invariant
                                j <= qs@.len(),
                                ps == qs@,
                                added == ps.map_values(|q: Port| (*c, q)),
                                out@.len() == base.len() + j,
                                forall|k: int| 0 <= k < out@.len() ==>
                                    port_of(#[trigger] out@[k], (base + added)[k].0, (base + added)[k].1),
                            decreases qs@.len() - j,
                        {
                            let q = &qs[j];
                            let p = ContainerPort {
                                container_name: c.name.clone(),
                                port: q.container_port as u16,
                                protocol: match &q.protocol {
                                    Some(pr) => pr.clone(),
                                    None => string_of("TCP"),
                                },
                                name: clone_opt(&q.name),
                            };
                            out.push(p);
                            j = j + 1;
                        }
                    },
                    None => {},
                }
                proof {
                    assert(declared_ports(s.containers@.subrange(0, i + 1)) == base + added);
                }
                i = i + 1;
            }
            assert(s.containers@.subrange(0, s.containers@.len() as int) =~= s.containers@);
        },
        None => {},
    }
    out
}

/// The id of a session: `pf-<namespace>-<pod>-<local>-<remote>`.
pub open spec fn session_id_text(ns: Seq<char>, pod: Seq<char>, local: u16, remote: u16) -> Seq<char> {
    "pf-"@ + ns + "-"@ + pod + "-"@ + dec_repr(local as nat) + "-"@ + dec_repr(remote as nat)
}

/// Forms the id of a session.
pub fn session_id(ns: &str, pod: &str, local: u16, remote: u16) -> (r: String)
    ensures
        r@ == session_id_text(ns@, pod@, local, remote),
{
    let mut s = string_of("pf-");
    s.append(ns);
    s.append("-");
    s.append(pod);
    s.append("-");
    append_u64(&mut s, local as u64);
    s.append("-");
    append_u64(&mut s, remote as u64);
    s
}

/// The sessions as (id, local port, remote port) values.
pub open spec fn session_ids(ss: Seq<PortForwardSession>) -> Seq<Seq<char>> {
    ss.map_values(|s: PortForwardSession| s.id@)
}

/// The active sessions, in the order they were started.
#[derive(Debug)]
pub struct ForwardRegistry {
    pub sessions: Vec<PortForwardSession>,
}

impl ForwardRegistry {
    /// No two sessions share an id.
    pub open spec fn wf(&self) -> bool {
        forall|i: int, j: int| 0 <= i < j < self.sessions@.len() ==> self.sessions@[i].id@ != self.sessions@[j].id@
    }

    /// Whether a session with id `id` is active.
    pub open spec fn has(&self, id: Seq<char>) -> bool {
        session_ids(self.sessions@).contains(id)
    }

    /// No session.
    pub fn new() -> (r: ForwardRegistry)
        ensures
            r.wf(),
            r.sessions@.len() == 0,
    {
        ForwardRegistry { sessions: Vec::new() }
    }

    fn find(&self, id: &str) -> (r: Option<usize>)
        ensures
            match r {
                Some(i) => i < self.sessions@.len() && self.sessions@[i as int].id@ == id@,
                None => !self.has(id@),
            },
    {
        let mut i: usize = 0;
        while i < self.sessions.len()
            invariant
                i <= self.sessions@.len(),
                forall|k: int| 0 <= k < i ==> self.sessions@[k].id@ != id@,
            decreases self.sessions@.len() - i,
        {
            if str_eq(self.sessions[i].id.as_str(), id) {
                return Some(i);
            }
            i = i + 1;
        }
        assert forall|k: int| 0 <= k < session_ids(self.sessions@).len() implies session_ids(self.sessions@)[k] != id@ by {
            assert(session_ids(self.sessions@)[k] == self.sessions@[k].id@);
        }
        None
    }

    /// Registers the session forwarding `local` to port `remote` of pod
    /// `pod` in namespace `ns`; refused with `Port forward already active:
    /// localhost:<local> -> <pod>:<remote>` when that session is active.
    pub fn start(&mut self, ns: &str, pod: &str, local: u16, remote: u16) -> (r: Result<PortForwardSession, String>)
        requires
            old(self).wf(),
        ensures
            final(self).wf(),
            match r {
                Ok(s) => {
                    &&& !old(self).has(session_id_text(ns@, pod@, local, remote))
                    &&& s.id@ == session_id_text(ns@, pod@, local, remote)
                    &&& s.namespace@ == ns@
                    &&& s.pod_name@ == pod@
                    &&& s.local_port == local
                    &&& s.remote_port == remote
                    &&& s.status@ == "Active"@
                    &&& final(self).sessions@.len() == old(self).sessions@.len() + 1
                    &&& forall|k: int| 0 <= k < old(self).sessions@.len() ==> #[trigger] final(self).sessions@[k] == old(self).sessions@[k]
                    &&& final(self).sessions@.last().id@ == s.id@
                    &&& final(self).sessions@.last().local_port == local
                    &&& final(self).sessions@.last().remote_port == remote
                    &&& final(self).sessions@.last().pod_name@ == pod@
                    &&& final(self).sessions@.last().namespace@ == ns@
                    &&& final(self).sessions@.last().status@ == "Active"@
                },
                Err(e) => {
                    &&& old(self).has(session_id_text(ns@, pod@, local, remote))
                    &&& e@ == "Port forward already active: localhost:"@ + dec_repr(local as nat) + " -> "@ + pod@ + ":"@ + dec_repr(remote as nat)
                    &&& final(self).sessions@ == old(self).sessions@
                },
            },
    {
        let id = session_id(ns, pod, local, remote);
        match self.find(id.as_str()) {
            Some(i) => {
                proof {
                    assert(session_ids(self.sessions@)[i as int] == id@);
                }
                let mut e = string_of("Port forward already active: localhost:");
                append_u64(&mut e, local as u64);
                e.append(" -> ");
                e.append(pod);
                e.append(":");
                append_u64(&mut e, remote as u64);
                Err(e)
            },
            None => {
                let s = PortForwardSession {
                    id: id.clone(),
                    namespace: string_of(ns),
                    pod_name: string_of(pod),
                    local_port: local,
                    remote_port: remote,
                    status: string_of("Active"),
                };
                let kept = PortForwardSession {
                    id,
                    namespace: string_of(ns),
                    pod_name: string_of(pod),
                    local_port: local,
                    remote_port: remote,
                    status: string_of("Active"),
                };
                let ghost before = self.sessions@;
                self.sessions.push(kept);
                proof {
                    assert forall|a: int, b: int| 0 <= a < b < self.sessions@.len() implies
                        self.sessions@[a].id@ != self.sessions@[b].id@ by {
                        if b == before.len() {
                            assert(session_ids(before)[a] == before[a].id@);
                        }
                    }
                }
                Ok(s)
            },
        }
    }

    /// Stops session `id`: `Stopped port forward: <id>`, or `No active
    /// port forward with id: <id>` when it is not active.
    pub fn stop(&mut self, id: &str) -> (r: Result<String, String>)
        requires
            old(self).wf(),
        ensures
            final(self).wf(),
            !final(self).has(id@),
            match r {
                Ok(m) => old(self).has(id@) && m@ == "Stopped port forward: "@ + id@
                    && final(self).sessions@.len() == old(self).sessions@.len() - 1
                    && exists|i: int| 0 <= i < old(self).sessions@.len()
                        && #[trigger] old(self).sessions@[i].id@ == id@
                        && final(self).sessions@ == old(self).sessions@.remove(i),
                Err(e) => !old(self).has(id@) && e@ == "No active port forward with id: "@ + id@
                    && final(self).sessions@ == old(self).sessions@,
            },
    {
        match self.find(id) {
            Some(i) => {
                let ghost before = self.sessions@;
                self.sessions.remove(i);
                proof {
                    assert(session_ids(before)[i as int] == id@);
                    assert forall|a: int, b: int| 0 <= a < b < self.sessions@.len() implies
                        self.sessions@[a].id@ != self.sessions@[b].id@ by {
                        let aa = if a < i { a } else { a + 1 };
                        let bb = if b < i { b } else { b + 1 };
                        assert(self.sessions@[a] == before[aa]);
                        assert(self.sessions@[b] == before[bb]);
                    }
                    assert forall|k: int| 0 <= k < session_ids(self.sessions@).len() implies session_ids(self.sessions@)[k] != id@ by {
                        let kk = if k < i { k } else { k + 1 };
                        assert(self.sessions@[k] == before[kk]);
                        assert(before[kk].id@ != before[i as int].id@);
                    }
                }
                proof {
                    assert(self.sessions@ =~= before.remove(i as int));
                    assert(before[i as int].id@ == id@);
                }
                let mut m = string_of("Stopped port forward: ");
                m.append(id);
                Ok(m)
            },
            None => {
                let mut e = string_of("No active port forward with id: ");
                e.append(id);
                Err(e)
            },
        }
    }
}

} // verus!
