//! `describe` for a pod: its status, containers, probes, volumes and
//! tolerations as display text; for other kinds, labels and annotations.
use vstd::prelude::*;
use crate::clock::{utc_datetime, format_utc};
use crate::json::{Json, at, str_or, get, str_or_default};
use crate::model::{Pod, PodSpec, PodStatus, Meta, Container, ContainerStatus, ContainerState, Condition, Port, Probe,
    ProbeAction, IntOrString, Volume, VolumeSource, VolumeMount, Toleration, StrMap, map_get, map_lookup, opt_view,
    opt_view_or, unwrap_or_empty, unwrap_or_str};
use crate::summary::{short_text, cuttable_at, shorten};
use crate::text::{int_repr, join_seq, views, string_of, str_eq, append_i64, append_u64, join, dec_repr, lowercase, to_lower};

verus! {

#[derive(Debug)]
pub struct PodDescribe {
    pub name: String,
    pub namespace: String,
    pub node: String,
    pub status: String,
    pub phase: String,
    pub pod_ip: String,
    pub host_ip: String,
    pub qos_class: String,
    pub start_time: String,
    pub labels: Vec<(String, String)>,
    pub annotations: Vec<(String, String)>,
    pub conditions: Vec<PodCondition>,
    pub containers: Vec<ContainerDescribe>,
    pub init_containers: Vec<ContainerDescribe>,
    pub volumes: Vec<VolumeDescribe>,
    pub tolerations: Vec<String>,
    pub service_account: String,
    pub priority_class: String,
    pub restart_policy: String,
    pub dns_policy: String,
}

#[derive(Debug)]
pub struct PodCondition {
    pub condition_type: String,
    pub status: String,
    pub reason: String,
    pub message: String,
    pub last_transition: String,
}

#[derive(Debug)]
pub struct ContainerDescribe {
    pub name: String,
    pub image: String,
    pub state: String,
    pub ready: bool,
    pub restart_count: i32,
    pub ports: Vec<String>,
    pub cpu_request: String,
    pub cpu_limit: String,
    pub memory_request: String,
    pub memory_limit: String,
    pub liveness_probe: String,
    pub readiness_probe: String,
    pub startup_probe: String,
    pub env_count: usize,
    pub mounts: Vec<String>,
}

#[derive(Debug)]
pub struct VolumeDescribe {
    pub name: String,
    pub volume_type: String,
    pub details: String,
}

#[derive(Debug)]
pub struct ResourceDescribe {
    pub kind: String,
    pub name: String,
    pub namespace: String,
    pub labels: Vec<(String, String)>,
    pub annotations: Vec<(String, String)>,
    pub creation_timestamp: String,
    pub pod: Option<PodDescribe>,
}

pub open spec fn pviews(m: Seq<(String, String)>) -> Seq<(Seq<char>, Seq<char>)> {
    m.map_values(|p: (String, String)| (p.0@, p.1@))
}

/// A time as chrono renders it, `%Y-%m-%d %H:%M:%S UTC`, or `d` when
/// there is none.
pub open spec fn utc_text(t: Option<i64>, d: Seq<char>) -> Seq<char> {
    match t {
        Some(s) => match utc_datetime(s) {
            Some(x) => x + " UTC"@,
            None => d,
        },
        None => d,
    }
}

fn utc_string(t: Option<i64>, d: &str) -> (r: String)
    ensures
        r@ == utc_text(t, d@),
{
    match t {
        Some(s) => match format_utc(s) {
            Some(mut x) => {
                x.append(" UTC");
                x
            },
            None => string_of(d),
        },
        None => string_of(d),
    }
}

// ---- containers ----

/// The text of a container's state.
pub open spec fn state_text(cs: Option<ContainerStatus>) -> Seq<char> {
    match cs {
        Some(s) => match s.state {
            Some(st) => if st.running {
                "Running"@
            } else {
                match st.waiting {
                    Some(r) => "Waiting: "@ + opt_view_or(r, "Unknown"@),
                    None => match st.terminated {
                        Some(r) => "Terminated: "@ + opt_view_or(r, "Unknown"@),
                        None => "Unknown"@,
                    },
                }
            },
            None => "Unknown"@,
        },
        None => "Unknown"@,
    }
}

/// The first status of container `name`.
pub open spec fn status_named(sts: Seq<ContainerStatus>, name: Seq<char>) -> Option<ContainerStatus>
    decreases sts.len(),
{
    if sts.len() == 0 {
        None
    } else if sts[0].name@ == name {
        Some(sts[0])
    } else {
        status_named(sts.drop_first(), name)
    }
}

pub open spec fn port_text(p: Port) -> Seq<char> {
    let base = int_repr(p.container_port as int) + "/"@ + opt_view_or(p.protocol, "TCP"@);
    match p.name {
        Some(n) => base + " ("@ + n@ + ")"@,
        None => base,
    }
}

pub open spec fn port_texts(ps: Seq<Port>) -> Seq<Seq<char>>
    decreases ps.len(),
{
    if ps.len() == 0 { Seq::empty() } else { port_texts(ps.drop_last()).push(port_text(ps.last())) }
}

pub open spec fn mount_text(m: VolumeMount) -> Seq<char> {
    m.name@ + " -> "@ + m.mount_path@ + if m.read_only == Some(true) { " (ro)"@ } else { " (rw)"@ }
}

pub open spec fn mount_texts(ms: Seq<VolumeMount>) -> Seq<Seq<char>>
    decreases ms.len(),
{
    if ms.len() == 0 { Seq::empty() } else { mount_texts(ms.drop_last()).push(mount_text(ms.last())) }
}

pub open spec fn port_or_name(p: IntOrString) -> Seq<char> {
    match p {
        IntOrString::Int(i) => int_repr(i as int),
        IntOrString::Str(s) => s@,
    }
}

/// What a probe checks, as text.
pub open spec fn action_text(a: ProbeAction) -> Seq<char> {
    match a {
        ProbeAction::HttpGet { scheme, port, path } =>
            "http-get "@ + lowercase(opt_view_or(scheme, "HTTP"@)) + ":"@ + port_or_name(port) + opt_view_or(path, "/"@),
        ProbeAction::TcpSocket { port } => "tcp-socket :"@ + port_or_name(port),
        ProbeAction::Exec { command } => "exec ["@ + match command {
            Some(c) => join_seq(views(c@), " "@),
            None => Seq::empty(),
        } + "]"@,
        ProbeAction::Grpc => "grpc"@,
        ProbeAction::Unknown => "unknown"@,
    }
}

/// A probe as text, `-` when there is none.
pub open spec fn probe_text(p: Option<Probe>) -> Seq<char> {
    match p {
        None => "-"@,
        Some(p) => action_text(p.action)
            + " delay="@ + int_repr(match p.initial_delay_seconds { Some(x) => x as int, None => 0 }) + "s"@
            + " period="@ + int_repr(match p.period_seconds { Some(x) => x as int, None => 10 }) + "s"@
            + " timeout="@ + int_repr(match p.timeout_seconds { Some(x) => x as int, None => 1 }) + "s"@,
    }
}

pub open spec fn resource_quantity(c: Container, limits: bool, key: Seq<char>) -> Seq<char> {
    let m = match c.resources {
        Some(r) => if limits { r.limits } else { r.requests },
        None => None,
    };
    match m {
        Some(mm) => match map_get(mm@, key) {
            Some(v) => v,
            None => "-"@,
        },
        None => "-"@,
    }
}

/// `d` describes container `c`, whose statuses are `sts`; an init
/// container shows only its name, image, state, readiness, restarts and
/// environment size.
pub open spec fn container_described(d: ContainerDescribe, c: Container, sts: Seq<ContainerStatus>, init: bool) -> bool {
    let cs = status_named(sts, c.name@);
    &&& d.name@ == c.name@
    &&& d.image@ == opt_view(c.image)
    &&& d.state@ == state_text(cs)
    &&& d.ready == match cs { Some(s) => s.ready, None => false }
    &&& d.restart_count == match cs { Some(s) => s.restart_count, None => 0 }
    &&& d.env_count == match c.env_count { Some(n) => n, None => 0 }
    &&& if init {
        &&& d.ports@.len() == 0
        &&& d.mounts@.len() == 0
        &&& d.cpu_request@ == "-"@ && d.cpu_limit@ == "-"@ && d.memory_request@ == "-"@ && d.memory_limit@ == "-"@
        &&& d.liveness_probe@ == "-"@ && d.readiness_probe@ == "-"@ && d.startup_probe@ == "-"@
    } else {
        &&& views(d.ports@) == match c.ports { Some(ps) => port_texts(ps@), None => Seq::empty() }
        &&& views(d.mounts@) == match c.volume_mounts { Some(ms) => mount_texts(ms@), None => Seq::empty() }
        &&& d.cpu_request@ == resource_quantity(c, false, "cpu"@)
        &&& d.cpu_limit@ == resource_quantity(c, true, "cpu"@)
        &&& d.memory_request@ == resource_quantity(c, false, "memory"@)
        &&& d.memory_limit@ == resource_quantity(c, true, "memory"@)
        &&& d.liveness_probe@ == probe_text(c.liveness_probe)
        &&& d.readiness_probe@ == probe_text(c.readiness_probe)
        &&& d.startup_probe@ == probe_text(c.startup_probe)
    }
}

fn find_status<'a>(sts: &'a Vec<ContainerStatus>, name: &str) -> (r: Option<&'a ContainerStatus>)
    ensures
        match r {
            Some(s) => status_named(sts@, name@) == Some(*s),
            None => status_named(sts@, name@) is None,
        },
{
    let mut i: usize = 0;
    assert(sts@.subrange(0, sts@.len() as int) =~= sts@);
    while i < sts.len()
        invariant
            i <= sts@.len(),
            status_named(sts@, name@) == status_named(sts@.subrange(i as int, sts@.len() as int), name@),
        decreases sts@.len() - i,
    {
        let ghost rest = sts@.subrange(i as int, sts@.len() as int);
        assert(rest.drop_first() =~= sts@.subrange(i + 1, sts@.len() as int));
        if str_eq(sts[i].name.as_str(), name) {
            return Some(&sts[i]);
        }
        i = i + 1;
    }
    None
}

fn state_string(cs: Option<&ContainerStatus>) -> (r: String)
    ensures
        r@ == state_text(match cs { Some(s) => Some(*s), None => None }),
{
    match cs {
        Some(s) => match &s.state {
            Some(st) => {
                if st.running {
                    string_of("Running")
                } else {
                    match &st.waiting {
                        Some(r) => {
                            let mut t = string_of("Waiting: ");
                            let x = unwrap_or_str(r, "Unknown");
                            t.append(x.as_str());
                            t
                        },
                        None => match &st.terminated {
                            Some(r) => {
                                let mut t = string_of("Terminated: ");
                                let x = unwrap_or_str(r, "Unknown");
                                t.append(x.as_str());
                                t
                            },
                            None => string_of("Unknown"),
                        },
                    }
                }
            },
            None => string_of("Unknown"),
        },
        None => string_of("Unknown"),
    }
}

fn port_string(p: &Port) -> (r: String)
    ensures
        r@ == port_text(*p),
{
    let mut s = String::new();
    append_i64(&mut s, p.container_port as i64);
    s.append("/");
    let proto = unwrap_or_str(&p.protocol, "TCP");
    s.append(proto.as_str());
    match &p.name {
        Some(n) => {
            s.append(" (");
            s.append(n.as_str());
            s.append(")");
        },
        None => {},
    }
    s
}

fn mount_string(m: &VolumeMount) -> (r: String)
    ensures
        r@ == mount_text(*m),
{
    let mut s = string_of(m.name.as_str());
    s.append(" -> ");
    s.append(m.mount_path.as_str());
    let ro = match m.read_only { Some(b) => b, None => false };
    if ro {
        s.append(" (ro)");
    } else {
        s.append(" (rw)");
    }
    s
}

fn port_or_name_string(p: &IntOrString) -> (r: String)
    ensures
        r@ == port_or_name(*p),
{
    match p {
        IntOrString::Int(i) => {
            let mut s = String::new();
            append_i64(&mut s, *i as i64);
            s
        },
        IntOrString::Str(x) => string_of(x.as_str()),
    }
}

fn probe_string(p: &Option<Probe>) -> (r: String)
    ensures
        r@ == probe_text(*p),
{
    match p {
        None => string_of("-"),
        Some(p) => {
            let mut s = match &p.action {
                ProbeAction::HttpGet { scheme, port, path } => {
                    let mut t = string_of("http-get ");
                    let sch = unwrap_or_str(scheme, "HTTP");
                    let low = to_lower(sch.as_str());
                    t.append(low.as_str());
                    t.append(":");
                    let ps = port_or_name_string(port);
                    t.append(ps.as_str());
                    let pa = unwrap_or_str(path, "/");
                    t.append(pa.as_str());
                    t
                },
                ProbeAction::TcpSocket { port } => {
                    let mut t = string_of("tcp-socket :");
                    let ps = port_or_name_string(port);
                    t.append(ps.as_str());
                    t
                },
                ProbeAction::Exec { command } => {
                    let mut t = string_of("exec [");
                    match command {
                        Some(c) => {
                            let j = join(c, " ");
                            t.append(j.as_str());
                        },
                        None => {},
                    }
                    t.append("]");
                    t
                },
                ProbeAction::Grpc => string_of("grpc"),
                ProbeAction::Unknown => string_of("unknown"),
            };
            assert(s@ == action_text(p.action));
            s.append(" delay=");
            append_i64(&mut s, match p.initial_delay_seconds { Some(x) => x as i64, None => 0 });
            s.append("s period=");
            append_i64(&mut s, match p.period_seconds { Some(x) => x as i64, None => 10 });
            s.append("s timeout=");
            append_i64(&mut s, match p.timeout_seconds { Some(x) => x as i64, None => 1 });
            s.append("s");
            proof {
                reveal_strlit("s period=");
                reveal_strlit("s");
                reveal_strlit(" period=");
                reveal_strlit("s timeout=");
                reveal_strlit(" timeout=");
                assert("s period="@ =~= "s"@ + " period="@);
                assert("s timeout="@ =~= "s"@ + " timeout="@);
            }
            s
        },
    }
}

fn quantity_string(c: &Container, limits: bool, key: &str) -> (r: String)
    ensures
        r@ == resource_quantity(*c, limits, key@),
{
    match &c.resources {
        Some(res) => {
            let m = if limits { &res.limits } else { &res.requests };
            match m {
                Some(mm) => match map_lookup(mm, key) {
                    Some(v) => string_of(v.as_str()),
                    None => string_of("-"),
                },
                None => string_of("-"),
            }
        },
        None => string_of("-"),
    }
}

fn port_strings(ps: &Option<Vec<Port>>) -> (r: Vec<String>)
    ensures
        views(r@) == match ps { Some(v) => port_texts(v@), None => Seq::empty() },
{
    let mut out: Vec<String> = Vec::new();
    match ps {
        Some(v) => {
            let mut i: usize = 0;
            while i < v.len()
                invariant
                    i <= v@.len(),
                    views(out@) == port_texts(v@.subrange(0, i as int)),
                decreases v@.len() - i,
            {
                let ghost before = views(out@);
                let t = port_string(&v[i]);
                out.push(t);
                assert(views(out@) =~= before.push(t@));
                assert(v@.subrange(0, i + 1).drop_last() =~= v@.subrange(0, i as int));
                i = i + 1;
            }
            assert(v@.subrange(0, v@.len() as int) =~= v@);
        },
        None => {
            assert(views(out@) =~= Seq::<Seq<char>>::empty());
        },
    }
    out
}

fn mount_strings(ms: &Option<Vec<VolumeMount>>) -> (r: Vec<String>)
    ensures
        views(r@) == match ms { Some(v) => mount_texts(v@), None => Seq::empty() },
{
    let mut out: Vec<String> = Vec::new();
    match ms {
        Some(v) => {
            let mut i: usize = 0;
            while i < v.len()
                invariant
                    i <= v@.len(),
                    views(out@) == mount_texts(v@.subrange(0, i as int)),
                decreases v@.len() - i,
            {
                let ghost before = views(out@);
                let t = mount_string(&v[i]);
                out.push(t);
                assert(views(out@) =~= before.push(t@));
                assert(v@.subrange(0, i + 1).drop_last() =~= v@.subrange(0, i as int));
                i = i + 1;
            }
            assert(v@.subrange(0, v@.len() as int) =~= v@);
        },
        None => {
            assert(views(out@) =~= Seq::<Seq<char>>::empty());
        },
    }
    out
}

/// Describes container `c`, whose statuses are `sts`.
pub fn describe_container(c: &Container, sts: &Vec<ContainerStatus>, init: bool) -> (r: ContainerDescribe)
    ensures
        container_described(r, *c, sts@, init),
{
    let cs = find_status(sts, c.name.as_str());
    let state = state_string(cs);
    let ready = match cs { Some(s) => s.ready, None => false };
    let restart_count = match cs { Some(s) => s.restart_count, None => 0 };
    let env_count = match c.env_count { Some(n) => n, None => 0 };
    if init {
        let r = ContainerDescribe {
            name: string_of(c.name.as_str()),
            image: unwrap_or_empty(&c.image),
            state,
            ready,
            restart_count,
            ports: Vec::new(),
            cpu_request: string_of("-"),
            cpu_limit: string_of("-"),
            memory_request: string_of("-"),
            memory_limit: string_of("-"),
            liveness_probe: string_of("-"),
            readiness_probe: string_of("-"),
            startup_probe: string_of("-"),
            env_count,
            mounts: Vec::new(),
        };
        r
    } else {
        ContainerDescribe {
            name: string_of(c.name.as_str()),
            image: unwrap_or_empty(&c.image),
            state,
            ready,
            restart_count,
            ports: port_strings(&c.ports),
            cpu_request: quantity_string(c, false, "cpu"),
            cpu_limit: quantity_string(c, true, "cpu"),
            memory_request: quantity_string(c, false, "memory"),
            memory_limit: quantity_string(c, true, "memory"),
            liveness_probe: probe_string(&c.liveness_probe),
            readiness_probe: probe_string(&c.readiness_probe),
            startup_probe: probe_string(&c.startup_probe),
            env_count,
            mounts: mount_strings(&c.volume_mounts),
        }
    }
}

// ---- volumes, tolerations, conditions ----

/// The type and detail of a volume's source.
pub open spec fn volume_text(v: VolumeSource) -> (Seq<char>, Seq<char>) {
    match v {
        VolumeSource::ConfigMap { name } => ("ConfigMap"@, name@),
        VolumeSource::Secret { secret_name } => ("Secret"@, opt_view(secret_name)),
        VolumeSource::Pvc { claim_name } => ("PVC"@, claim_name@),
        VolumeSource::EmptyDir => ("EmptyDir"@, Seq::empty()),
        VolumeSource::HostPath { path } => ("HostPath"@, path@),
        VolumeSource::DownwardApi { item_paths } => ("DownwardAPI"@, match item_paths {
            Some(ps) => join_seq(views(ps@), ", "@),
            None => Seq::empty(),
        }),
        VolumeSource::Projected { source_count } => ("Projected"@,
            dec_repr(match source_count { Some(n) => n as nat, None => 0 }) + " sources"@),
        VolumeSource::Csi => ("CSI"@, Seq::empty()),
        VolumeSource::Other => ("Other"@, Seq::empty()),
    }
}

/// A toleration as text: `key op=Exists effect=E` or `key=value effect=E`.
pub open spec fn toleration_text(t: Toleration) -> Seq<char> {
    let key = opt_view_or(t.key, "*"@);
    let effect = opt_view_or(t.effect, "*"@);
    if opt_view_or(t.operator, "Equal"@) == "Exists"@ {
        key + " op=Exists effect="@ + effect
    } else {
        key + "="@ + opt_view(t.value) + " effect="@ + effect
    }
}

pub open spec fn toleration_texts(ts: Seq<Toleration>) -> Seq<Seq<char>>
    decreases ts.len(),
{
    if ts.len() == 0 { Seq::empty() } else { toleration_texts(ts.drop_last()).push(toleration_text(ts.last())) }
}

/// `d` describes the condition `c`.
pub open spec fn condition_described(d: PodCondition, c: Condition) -> bool {
    &&& d.condition_type@ == c.type_@
    &&& d.status@ == c.status@
    &&& d.reason@ == opt_view(c.reason)
    &&& d.message@ == opt_view(c.message)
    &&& d.last_transition@ == utc_text(c.last_transition_time, Seq::empty())
}

/// The annotations with each value cut to 200 bytes.
pub open spec fn short_annotations(m: Seq<(String, String)>) -> Seq<(Seq<char>, Seq<char>)>
    decreases m.len(),
{
    if m.len() == 0 {
        Seq::empty()
    } else {
        short_annotations(m.drop_last()).push((m.last().0@, short_text(m.last().1@, 200)))
    }
}

/// Every annotation value can be cut to 200 bytes.
pub open spec fn annotations_cuttable(m: Option<StrMap>) -> bool {
    match m {
        Some(mm) => forall|i: int| 0 <= i < mm@.len() ==> cuttable_at(#[trigger] mm@[i].1@, 200),
        None => true,
    }
}

fn volume_strings(v: &VolumeSource) -> (r: (String, String))
    ensures
        (r.0@, r.1@) == volume_text(*v),
{
    match v {
        VolumeSource::ConfigMap { name } => (string_of("ConfigMap"), string_of(name.as_str())),
        VolumeSource::Secret { secret_name } => (string_of("Secret"), unwrap_or_empty(secret_name)),
        VolumeSource::Pvc { claim_name } => (string_of("PVC"), string_of(claim_name.as_str())),
        VolumeSource::EmptyDir => (string_of("EmptyDir"), String::new()),
        VolumeSource::HostPath { path } => (string_of("HostPath"), string_of(path.as_str())),
        VolumeSource::DownwardApi { item_paths } => (string_of("DownwardAPI"), match item_paths {
            Some(ps) => join(ps, ", "),
            None => String::new(),
        }),
        VolumeSource::Projected { source_count } => {
            let mut t = String::new();
            append_u64(&mut t, match source_count { Some(n) => *n as u64, None => 0 });
            t.append(" sources");
            (string_of("Projected"), t)
        },
        VolumeSource::Csi => (string_of("CSI"), String::new()),
        VolumeSource::Other => (string_of("Other"), String::new()),
    }
}

fn toleration_string(t: &Toleration) -> (r: String)
    ensures
        r@ == toleration_text(*t),
{
    let key = unwrap_or_str(&t.key, "*");
    let op = unwrap_or_str(&t.operator, "Equal");
    let effect = unwrap_or_str(&t.effect, "*");
    let mut s = key;
    if str_eq(op.as_str(), "Exists") {
        s.append(" op=Exists effect=");
        s.append(effect.as_str());
    } else {
        s.append("=");
        let val = unwrap_or_empty(&t.value);
        s.append(val.as_str());
        s.append(" effect=");
        s.append(effect.as_str());
    }
    s
}

pub open spec fn vdviews(v: Seq<VolumeDescribe>) -> Seq<(Seq<char>, Seq<char>, Seq<char>)> {
    v.map_values(|d: VolumeDescribe| (d.name@, d.volume_type@, d.details@))
}

pub open spec fn volume_texts(vs: Seq<Volume>) -> Seq<(Seq<char>, Seq<char>, Seq<char>)>
    decreases vs.len(),
{
    if vs.len() == 0 {
        Seq::empty()
    } else {
        let (t, d) = volume_text(vs.last().source);
        volume_texts(vs.drop_last()).push((vs.last().name@, t, d))
    }
}

fn describe_volumes(vs: &Option<Vec<Volume>>) -> (r: Vec<VolumeDescribe>)
    ensures
        vdviews(r@) == match vs { Some(v) => volume_texts(v@), None => Seq::empty() },
{
    let mut out: Vec<VolumeDescribe> = Vec::new();
    match vs {
        Some(v) => {
            let mut i: usize = 0;
            while i < v.len()
                invariant
                    i <= v@.len(),
                    vdviews(out@) == volume_texts(v@.subrange(0, i as int)),
                decreases v@.len() - i,
            {
                let ghost before = vdviews(out@);
                let (t, d) = volume_strings(&v[i].source);
                let vd = VolumeDescribe { name: string_of(v[i].name.as_str()), volume_type: t, details: d };
                out.push(vd);
                assert(vdviews(out@) =~= before.push((vd.name@, vd.volume_type@, vd.details@)));
                assert(v@.subrange(0, i + 1).drop_last() =~= v@.subrange(0, i as int));
                i = i + 1;
            }
            assert(v@.subrange(0, v@.len() as int) =~= v@);
        },
        None => {
            assert(vdviews(out@) =~= Seq::<(Seq<char>, Seq<char>, Seq<char>)>::empty());
        },
    }
    out
}

fn describe_tolerations(ts: &Option<Vec<Toleration>>) -> (r: Vec<String>)
    ensures
        views(r@) == match ts { Some(v) => toleration_texts(v@), None => Seq::empty() },
{
    let mut out: Vec<String> = Vec::new();
    match ts {
        Some(v) => {
            let mut i: usize = 0;
            while i < v.len()
                invariant
                    i <= v@.len(),
                    views(out@) == toleration_texts(v@.subrange(0, i as int)),
                decreases v@.len() - i,
            {
                let ghost before = views(out@);
                let t = toleration_string(&v[i]);
                out.push(t);
                assert(views(out@) =~= before.push(t@));
                assert(v@.subrange(0, i + 1).drop_last() =~= v@.subrange(0, i as int));
                i = i + 1;
            }
            assert(v@.subrange(0, v@.len() as int) =~= v@);
        },
        None => {
            assert(views(out@) =~= Seq::<Seq<char>>::empty());
        },
    }
    out
}

fn describe_conditions(cs: &Option<Vec<Condition>>) -> (r: Vec<PodCondition>)
    ensures
        r@.len() == match cs { Some(v) => v@.len(), None => 0 },
        forall|i: int| 0 <= i < r@.len() ==> condition_described(#[trigger] r@[i], cs.unwrap()@[i]),
{
    let mut out: Vec<PodCondition> = Vec::new();
    match cs {
        Some(v) => {
            let mut i: usize = 0;
            while i < v.len()
                invariant
                    i <= v@.len(),
                    out@.len() == i,
                    forall|k: int| 0 <= k < i ==> condition_described(#[trigger] out@[k], v@[k]),
                decreases v@.len() - i,
            {
                let c = &v[i];
                out.push(PodCondition {
                    condition_type: string_of(c.type_.as_str()),
                    status: string_of(c.status.as_str()),
                    reason: unwrap_or_empty(&c.reason),
                    message: unwrap_or_empty(&c.message),
                    last_transition: utc_string(c.last_transition_time, ""),
                });
                proof {
                    reveal_strlit("");
                    assert(""@ =~= Seq::<char>::empty());
                }
                i = i + 1;
            }
        },
        None => {},
    }
    out
}

pub fn copy_pairs(m: &Option<StrMap>) -> (r: Vec<(String, String)>)
    ensures
        pviews(r@) == match m { Some(mm) => pviews(mm@), None => Seq::empty() },
{
    let mut out: Vec<(String, String)> = Vec::new();
    match m {
        Some(mm) => {
            let mut i: usize = 0;
            while i < mm.len()
                invariant
                    i <= mm@.len(),
                    pviews(out@) == pviews(mm@.subrange(0, i as int)),
                decreases mm@.len() - i,
            {
                let ghost before = pviews(out@);
                let p = (string_of(mm[i].0.as_str()), string_of(mm[i].1.as_str()));
                out.push(p);
                assert(pviews(out@) =~= before.push((mm@[i as int].0@, mm@[i as int].1@)));
                assert(pviews(mm@.subrange(0, i + 1)) =~= pviews(mm@.subrange(0, i as int)).push((mm@[i as int].0@, mm@[i as int].1@)));
                i = i + 1;
            }
            assert(mm@.subrange(0, mm@.len() as int) =~= mm@);
        },
        None => {
            assert(pviews(out@) =~= Seq::<(Seq<char>, Seq<char>)>::empty());
        },
    }
    out
}

fn short_pairs(m: &Option<StrMap>) -> (r: Vec<(String, String)>)
    requires
        annotations_cuttable(*m),
    ensures
        pviews(r@) == match m { Some(mm) => short_annotations(mm@), None => Seq::empty() },
{
    let mut out: Vec<(String, String)> = Vec::new();
    match m {
        Some(mm) => {
            let mut i: usize = 0;
            while i < mm.len()
                invariant
                    i <= mm@.len(),
                    forall|k: int| 0 <= k < mm@.len() ==> cuttable_at(#[trigger] mm@[k].1@, 200),
                    pviews(out@) == short_annotations(mm@.subrange(0, i as int)),
                decreases mm@.len() - i,
            {
                assert(cuttable_at(mm@[i as int].1@, 200));
                let ghost before = pviews(out@);
                let p = (string_of(mm[i].0.as_str()), shorten(mm[i].1.as_str(), 200));
                out.push(p);
                assert(pviews(out@) =~= before.push((p.0@, p.1@)));
                assert(mm@.subrange(0, i + 1).drop_last() =~= mm@.subrange(0, i as int));
                i = i + 1;
            }
            assert(mm@.subrange(0, mm@.len() as int) =~= mm@);
        },
        None => {
            assert(pviews(out@) =~= Seq::<(Seq<char>, Seq<char>)>::empty());
        },
    }
    out
}

// ---- the pod ----

pub open spec fn spec_statuses(st: Option<PodStatus>, init: bool) -> Seq<ContainerStatus> {
    match st {
        Some(s) => match if init { s.init_container_statuses } else { s.container_statuses } {
            Some(v) => v@,
            None => Seq::empty(),
        },
        None => Seq::empty(),
    }
}

/// `d` describes `pod`, asked for by `name` in `namespace`.
pub open spec fn pod_described(d: PodDescribe, pod: Pod, name: Seq<char>, namespace: Seq<char>) -> bool {
    let st = pod.status;
    let phase = match st { Some(s) => opt_view_or(s.phase, "Unknown"@), None => "Unknown"@ };
    &&& d.name@ == name
    &&& d.namespace@ == namespace
    &&& d.node@ == match pod.spec { Some(sp) => opt_view_or(sp.node_name, "-"@), None => "-"@ }
    &&& d.status@ == phase
    &&& d.phase@ == phase
    &&& d.pod_ip@ == match st {
        Some(s) => match s.first_pod_ip { Some(ip) => ip@, None => opt_view_or(s.pod_ip, "-"@) },
        None => "-"@,
    }
    &&& d.host_ip@ == match st { Some(s) => opt_view_or(s.host_ip, "-"@), None => "-"@ }
    &&& d.qos_class@ == match st { Some(s) => opt_view_or(s.qos_class, "Unknown"@), None => "Unknown"@ }
    &&& d.start_time@ == match st { Some(s) => utc_text(s.start_time, "-"@), None => "-"@ }
    &&& pviews(d.labels@) == match pod.metadata.labels { Some(m) => pviews(m@), None => Seq::empty() }
    &&& pviews(d.annotations@) == match pod.metadata.annotations { Some(m) => short_annotations(m@), None => Seq::empty() }
    &&& d.conditions@.len() == match st { Some(s) => match s.conditions { Some(v) => v@.len(), None => 0 }, None => 0 }
    &&& (forall|i: int| 0 <= i < d.conditions@.len() ==>
        condition_described(#[trigger] d.conditions@[i], st.unwrap().conditions.unwrap()@[i]))
    &&& d.containers@.len() == match pod.spec { Some(sp) => sp.containers@.len(), None => 0 }
    &&& (forall|i: int| 0 <= i < d.containers@.len() ==>
        container_described(#[trigger] d.containers@[i], pod.spec.unwrap().containers@[i], spec_statuses(st, false), false))
    &&& d.init_containers@.len() == match pod.spec {
        Some(sp) => match sp.init_containers { Some(v) => v@.len(), None => 0 },
        None => 0,
    }
    &&& (forall|i: int| 0 <= i < d.init_containers@.len() ==>
        container_described(#[trigger] d.init_containers@[i], pod.spec.unwrap().init_containers.unwrap()@[i], spec_statuses(st, true), true))
    &&& vdviews(d.volumes@) == match pod.spec {
        Some(sp) => match sp.volumes { Some(v) => volume_texts(v@), None => Seq::empty() },
        None => Seq::empty(),
    }
    &&& views(d.tolerations@) == match pod.spec {
        Some(sp) => match sp.tolerations { Some(v) => toleration_texts(v@), None => Seq::empty() },
        None => Seq::empty(),
    }
    &&& d.service_account@ == match pod.spec { Some(sp) => opt_view_or(sp.service_account_name, "-"@), None => "-"@ }
    &&& d.priority_class@ == match pod.spec { Some(sp) => opt_view_or(sp.priority_class_name, "-"@), None => "-"@ }
    &&& d.restart_policy@ == match pod.spec { Some(sp) => opt_view_or(sp.restart_policy, "-"@), None => "-"@ }
    &&& d.dns_policy@ == match pod.spec { Some(sp) => opt_view_or(sp.dns_policy, "-"@), None => "-"@ }
}

fn describe_containers(cs: &Vec<Container>, sts: &Vec<ContainerStatus>, init: bool) -> (r: Vec<ContainerDescribe>)
    ensures
        r@.len() == cs@.len(),
        forall|i: int| 0 <= i < r@.len() ==> container_described(#[trigger] r@[i], cs@[i], sts@, init),
{
    let mut out: Vec<ContainerDescribe> = Vec::new();
    let mut i: usize = 0;
    while i < cs.len()
        invariant
            i <= cs@.len(),
            out@.len() == i,
            forall|k: int| 0 <= k < i ==> container_described(#[trigger] out@[k], cs@[k], sts@, init),
        decreases cs@.len() - i,
    {
        out.push(describe_container(&cs[i], sts, init));
        i = i + 1;
    }
    out
}

fn opt_or(o: &Option<String>, d: &str) -> (r: String)
    ensures
        r@ == opt_view_or(*o, d@),
{
    unwrap_or_str(o, d)
}

/// Describes `pod`, asked for by `name` in `namespace`.
pub fn describe_pod(pod: &Pod, name: String, namespace: String) -> (r: ResourceDescribe)
    requires
        annotations_cuttable(pod.metadata.annotations),
    ensures
        r.kind@ == "Pod"@,
        r.name@ == name@,
        r.namespace@ == namespace@,
        pviews(r.labels@) == match pod.metadata.labels { Some(m) => pviews(m@), None => Seq::empty() },
        pviews(r.annotations@) == match pod.metadata.annotations { Some(m) => short_annotations(m@), None => Seq::empty() },
        r.creation_timestamp@ == utc_text(pod.metadata.creation_timestamp, Seq::empty()),
        r.pod matches Some(d) && pod_described(d, *pod, name@, namespace@),
{
    let empty_sts: Vec<ContainerStatus> = Vec::new();
    let empty_cs: Vec<Container> = Vec::new();
    let none_str: Option<String> = None;
    let (sts, init_sts): (&Vec<ContainerStatus>, &Vec<ContainerStatus>) = match &pod.status {
        Some(s) => (
            match &s.container_statuses { Some(v) => v, None => &empty_sts },
            match &s.init_container_statuses { Some(v) => v, None => &empty_sts },
        ),
        None => (&empty_sts, &empty_sts),
    };
    assert(sts@ == spec_statuses(pod.status, false));
    assert(init_sts@ == spec_statuses(pod.status, true));
    let phase: String = match &pod.status { Some(s) => opt_or(&s.phase, "Unknown"), None => string_of("Unknown") };
    let pod_ip: String = match &pod.status {
        Some(s) => match &s.first_pod_ip { Some(ip) => string_of(ip.as_str()), None => opt_or(&s.pod_ip, "-") },
        None => string_of("-"),
    };
    let host_ip: String = match &pod.status { Some(s) => opt_or(&s.host_ip, "-"), None => string_of("-") };
    let qos: String = match &pod.status { Some(s) => opt_or(&s.qos_class, "Unknown"), None => string_of("Unknown") };
    let start: String = match &pod.status { Some(s) => utc_string(s.start_time, "-"), None => string_of("-") };
    let conditions = match &pod.status { Some(s) => describe_conditions(&s.conditions), None => describe_conditions(&None) };
    let (containers, init_containers, volumes, tolerations, node, sa, pc, rp, dp) = match &pod.spec {
        Some(sp) => (
            describe_containers(&sp.containers, sts, false),
            match &sp.init_containers {
                Some(ic) => describe_containers(ic, init_sts, true),
                None => describe_containers(&empty_cs, init_sts, true),
            },
            describe_volumes(&sp.volumes),
            describe_tolerations(&sp.tolerations),
            opt_or(&sp.node_name, "-"),
            opt_or(&sp.service_account_name, "-"),
            opt_or(&sp.priority_class_name, "-"),
            opt_or(&sp.restart_policy, "-"),
            opt_or(&sp.dns_policy, "-"),
        ),
        None => (
            describe_containers(&empty_cs, sts, false),
            describe_containers(&empty_cs, init_sts, true),
            describe_volumes(&None),
            describe_tolerations(&None),
            string_of("-"),
            string_of("-"),
            string_of("-"),
            string_of("-"),
            string_of("-"),
        ),
    };
    let labels = copy_pairs(&pod.metadata.labels);
    let annotations = short_pairs(&pod.metadata.annotations);
    let labels2 = copy_pairs(&pod.metadata.labels);
    let annotations2 = short_pairs(&pod.metadata.annotations);
    let d = PodDescribe {
        name: string_of(name.as_str()),
        namespace: string_of(namespace.as_str()),
        node,
        status: string_of(phase.as_str()),
        phase,
        pod_ip,
        host_ip,
        qos_class: qos,
        start_time: start,
        labels,
        annotations,
        conditions,
        containers,
        init_containers,
        volumes,
        tolerations,
        service_account: sa,
        priority_class: pc,
        restart_policy: rp,
        dns_policy: dp,
    };
    proof {
        reveal_strlit("");
        assert(""@ =~= Seq::<char>::empty());
    }
    ResourceDescribe {
        kind: string_of("Pod"),
        name,
        namespace,
        labels: labels2,
        annotations: annotations2,
        creation_timestamp: utc_string(pod.metadata.creation_timestamp, ""),
        pod: Some(d),
    }
}

/// The entries of a mapping, keys and values as strings (empty when not
/// strings), each value cut to 200 bytes.
pub open spec fn yaml_pairs(m: Seq<(String, Json)>) -> Seq<(Seq<char>, Seq<char>)>
    decreases m.len(),
{
    if m.len() == 0 {
        Seq::empty()
    } else {
        yaml_pairs(m.drop_last()).push((m.last().0@, short_text(str_or(Some(m.last().1), Seq::empty()), 200)))
    }
}

pub open spec fn yaml_map(j: Option<Json>) -> Seq<(Seq<char>, Seq<char>)> {
    match j {
        Some(Json::Object(m)) => yaml_pairs(m@),
        _ => Seq::empty(),
    }
}

pub open spec fn pairs_cuttable(j: Option<Json>) -> bool {
    match j {
        Some(Json::Object(m)) => forall|i: int| 0 <= i < m@.len() ==> cuttable_at(str_or(Some(#[trigger] m@[i].1), Seq::empty()), 200),
        _ => true,
    }
}

fn parse_yaml_map(j: Option<&Json>) -> (r: Vec<(String, String)>)
    requires
        pairs_cuttable(crate::json::deref_opt(j)),
    ensures
        pviews(r@) == yaml_map(crate::json::deref_opt(j)),
{
    let mut out: Vec<(String, String)> = Vec::new();
    match j {
        Some(Json::Object(m)) => {
            let mut i: usize = 0;
            while i < m.len()
                invariant
                    i <= m@.len(),
                    forall|k: int| 0 <= k < m@.len() ==> cuttable_at(str_or(Some(#[trigger] m@[k].1), Seq::empty()), 200),
                    pviews(out@) == yaml_pairs(m@.subrange(0, i as int)),
                decreases m@.len() - i,
            {
                let v = str_or_default(Some(&m[i].1), "");
                proof {
                    reveal_strlit("");
                    assert(""@ =~= Seq::<char>::empty());
                    assert(cuttable_at(str_or(Some(m@[i as int].1), Seq::empty()), 200));
                }
                let p = (string_of(m[i].0.as_str()), shorten(v.as_str(), 200));
                let ghost before = pviews(out@);
                out.push(p);
                assert(pviews(out@) =~= before.push((p.0@, p.1@)));
                assert(m@.subrange(0, i + 1).drop_last() =~= m@.subrange(0, i as int));
                i = i + 1;
            }
            assert(m@.subrange(0, m@.len() as int) =~= m@);
        },
        _ => {
            assert(pviews(out@) =~= Seq::<(Seq<char>, Seq<char>)>::empty());
        },
    }
    out
}

/// Describes a resource of another kind from its manifest: the labels and
/// annotations of its metadata and its creation time as written.
pub fn describe_other(kind: String, name: String, namespace: String, doc: &Json) -> (r: ResourceDescribe)
    requires
        pairs_cuttable(at(at(Some(*doc), "metadata"@), "labels"@)),
        pairs_cuttable(at(at(Some(*doc), "metadata"@), "annotations"@)),
    ensures
        r.kind@ == kind@,
        r.name@ == name@,
        r.namespace@ == namespace@,
        pviews(r.labels@) == yaml_map(at(at(Some(*doc), "metadata"@), "labels"@)),
        pviews(r.annotations@) == yaml_map(at(at(Some(*doc), "metadata"@), "annotations"@)),
        r.creation_timestamp@ == str_or(at(at(Some(*doc), "metadata"@), "creationTimestamp"@), Seq::empty()),
        r.pod is None,
{
    let meta = get(Some(doc), "metadata");
    let labels = parse_yaml_map(get(meta, "labels"));
    let annotations = parse_yaml_map(get(meta, "annotations"));
    let creation = str_or_default(get(meta, "creationTimestamp"), "");
    proof {
        reveal_strlit("");
        assert(""@ =~= Seq::<char>::empty());
    }
    ResourceDescribe { kind, name, namespace, labels, annotations, creation_timestamp: creation, pod: None }
}

} // verus!
