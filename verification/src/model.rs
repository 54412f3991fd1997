//! The parts of Kubernetes objects that the analyses read, held as plain
//! values. Maps keep the key order of the API objects they come from.
use vstd::prelude::*;

verus! {

/// A string-to-string map as an ordered list of entries. A map read from an
/// API object has distinct keys (`keys_distinct`), in the key order of the
/// object it comes from.
pub type StrMap = Vec<(String, String)>;

/// The value for `key` in the first entry that has it.
pub open spec fn map_get(m: Seq<(String, String)>, key: Seq<char>) -> Option<Seq<char>>
    decreases m.len(),
{
    if m.len() == 0 {
        None
    } else if m[0].0@ == key {
        Some(m[0].1@)
    } else {
        map_get(m.drop_first(), key)
    }
}

/// The invariant of a map read from an API object: no two entries share a
/// key (the API holds labels and annotations in a `BTreeMap`).
pub open spec fn keys_distinct(m: Seq<(String, String)>) -> bool {
    forall|i: int, j: int| 0 <= i < j < m.len() ==> #[trigger] m[i].0@ != #[trigger] m[j].0@
}

/// In a map whose keys are distinct, looking up the key of an entry gives
/// that entry's value.
pub proof fn lemma_map_get_entry(m: Seq<(String, String)>, i: int)
    requires
        keys_distinct(m),
        0 <= i < m.len(),
    ensures
        map_get(m, m[i].0@) == Some(m[i].1@),
    decreases m.len(),
{
    if i > 0 {
        assert(m[0].0@ != m[i].0@);
        let d = m.drop_first();
        assert forall|a: int, b: int| 0 <= a < b < d.len() implies #[trigger] d[a].0@ != #[trigger] d[b].0@ by {
            assert(d[a] == m[a + 1] && d[b] == m[b + 1]);
        }
        lemma_map_get_entry(d, i - 1);
        assert(d[i - 1] == m[i]);
    }
}

/// Looks `key` up in `m`.
pub fn map_lookup<'a>(m: &'a StrMap, key: &str) -> (r: Option<&'a String>)
    ensures
        match r {
            Some(v) => map_get(m@, key@) == Some(v@),
            None => map_get(m@, key@) is None,
        },
{
    let k = String::from_str(key);
    let mut i: usize = 0;
    assert(m@.subrange(0, m@.len() as int) =~= m@);
    while i < m.len()
        invariant
            k@ == key@,
            i <= m@.len(),
            map_get(m@, key@) == map_get(m@.subrange(i as int, m@.len() as int), key@),
        decreases m@.len() - i,
    {
        let ghost rest = m@.subrange(i as int, m@.len() as int);
        assert(rest.drop_first() =~= m@.subrange(i + 1, m@.len() as int));
        if m[i].0 == k {
            return Some(&m[i].1);
        }
        i = i + 1;
    }
    None
}

/// Owner reference of an object.
#[derive(Debug)]
pub struct OwnerRef {
    pub kind: String,
    pub name: String,
}

/// Object metadata.
#[derive(Debug)]
pub struct Meta {
    pub name: Option<String>,
    pub namespace: Option<String>,
    pub labels: Option<StrMap>,
    pub annotations: Option<StrMap>,
    pub owner_references: Option<Vec<OwnerRef>>,
    /// Creation time in seconds since the Unix epoch.
    pub creation_timestamp: Option<i64>,
}

/// Container security settings.
#[derive(Debug)]
pub struct SecurityContext {
    pub privileged: Option<bool>,
    pub run_as_user: Option<i64>,
    pub allow_privilege_escalation: Option<bool>,
    pub read_only_root_filesystem: Option<bool>,
    /// `capabilities.add`, when `capabilities` is set.
    pub capabilities_add: Option<Option<Vec<String>>>,
}

/// Requests and limits of a container, quantities as written.
#[derive(Debug)]
pub struct Resources {
    pub requests: Option<StrMap>,
    pub limits: Option<StrMap>,
}

/// A port a container declares.
#[derive(Debug)]
pub struct Port {
    pub container_port: i32,
    pub protocol: Option<String>,
    pub name: Option<String>,
}

/// A port given either as a number or as a name.
#[derive(Debug)]
pub enum IntOrString {
    Int(i32),
    Str(String),
}

/// What a probe checks.
#[derive(Debug)]
pub enum ProbeAction {
    HttpGet { scheme: Option<String>, port: IntOrString, path: Option<String> },
    TcpSocket { port: IntOrString },
    Exec { command: Option<Vec<String>> },
    Grpc,
    Unknown,
}

/// A liveness, readiness or startup probe.
#[derive(Debug)]
pub struct Probe {
    pub action: ProbeAction,
    pub initial_delay_seconds: Option<i32>,
    pub period_seconds: Option<i32>,
    pub timeout_seconds: Option<i32>,
}

/// A volume mount of a container.
#[derive(Debug)]
pub struct VolumeMount {
    pub name: String,
    pub mount_path: String,
    pub read_only: Option<bool>,
}

/// A container of a pod spec.
#[derive(Debug)]
pub struct Container {
    pub name: String,
    pub image: Option<String>,
    pub image_pull_policy: Option<String>,
    pub ports: Option<Vec<Port>>,
    pub resources: Option<Resources>,
    pub security_context: Option<SecurityContext>,
    pub liveness_probe: Option<Probe>,
    pub readiness_probe: Option<Probe>,
    pub startup_probe: Option<Probe>,
    /// Number of entries in `env`, when `env` is set.
    pub env_count: Option<usize>,
    pub volume_mounts: Option<Vec<VolumeMount>>,
}

/// Where a volume's data comes from, with the detail `describe` shows.
#[derive(Debug)]
pub enum VolumeSource {
    ConfigMap { name: String },
    Secret { secret_name: Option<String> },
    Pvc { claim_name: String },
    EmptyDir,
    HostPath { path: String },
    DownwardApi { item_paths: Option<Vec<String>> },
    Projected { source_count: Option<usize> },
    Csi,
    Other,
}

#[derive(Debug)]
pub struct Volume {
    pub name: String,
    pub source: VolumeSource,
}

#[derive(Debug)]
pub struct Toleration {
    pub key: Option<String>,
    pub operator: Option<String>,
    pub value: Option<String>,
    pub effect: Option<String>,
}

/// The spec of a pod.
#[derive(Debug)]
pub struct PodSpec {
    pub node_name: Option<String>,
    pub host_network: Option<bool>,
    pub host_pid: Option<bool>,
    pub host_ipc: Option<bool>,
    pub automount_service_account_token: Option<bool>,
    pub service_account_name: Option<String>,
    pub priority_class_name: Option<String>,
    pub restart_policy: Option<String>,
    pub dns_policy: Option<String>,
    pub containers: Vec<Container>,
    pub init_containers: Option<Vec<Container>>,
    pub volumes: Option<Vec<Volume>>,
    pub tolerations: Option<Vec<Toleration>>,
}

/// The state of a container.
#[derive(Debug)]
pub struct ContainerState {
    pub running: bool,
    /// The reason of the `waiting` state, when that state is set.
    pub waiting: Option<Option<String>>,
    /// The reason of the `terminated` state, when that state is set.
    pub terminated: Option<Option<String>>,
}

#[derive(Debug)]
pub struct ContainerStatus {
    pub name: String,
    pub ready: bool,
    pub restart_count: i32,
    pub image_id: String,
    pub state: Option<ContainerState>,
}

#[derive(Debug)]
pub struct Condition {
    pub type_: String,
    pub status: String,
    pub reason: Option<String>,
    pub message: Option<String>,
    /// Seconds since the Unix epoch.
    pub last_transition_time: Option<i64>,
}

#[derive(Debug)]
pub struct PodStatus {
    pub phase: Option<String>,
    pub pod_ip: Option<String>,
    /// The first entry of `podIPs`, when that list has one.
    pub first_pod_ip: Option<String>,
    pub host_ip: Option<String>,
    pub qos_class: Option<String>,
    /// Seconds since the Unix epoch.
    pub start_time: Option<i64>,
    pub conditions: Option<Vec<Condition>>,
    pub container_statuses: Option<Vec<ContainerStatus>>,
    pub init_container_statuses: Option<Vec<ContainerStatus>>,
}

/// A pod.
#[derive(Debug)]
pub struct Pod {
    pub metadata: Meta,
    pub spec: Option<PodSpec>,
    pub status: Option<PodStatus>,
}

/// `o`'s content, or the empty sequence.
pub open spec fn opt_view(o: Option<String>) -> Seq<char> {
    match o {
        Some(s) => s@,
        None => Seq::empty(),
    }
}

/// `o`'s content, or `d`.
pub open spec fn opt_view_or(o: Option<String>, d: Seq<char>) -> Seq<char> {
    match o {
        Some(s) => s@,
        None => d,
    }
}

/// A copy of `o`'s content, or the empty string.
pub fn unwrap_or_empty(o: &Option<String>) -> (r: String)
    ensures
        r@ == opt_view(*o),
{
    match o {
        Some(s) => s.clone(),
        None => String::new(),
    }
}

/// A copy of `o`'s content, or `d`.
pub fn unwrap_or_str(o: &Option<String>, d: &str) -> (r: String)
    ensures
        r@ == opt_view_or(*o, d@),
{
    match o {
        Some(s) => s.clone(),
        None => String::from_str(d),
    }
}

/// A copy of an optional string.
pub fn clone_opt(o: &Option<String>) -> (r: Option<String>)
    ensures
        match r {
            Some(s) => o.is_some() && s@ == o.unwrap()@,
            None => o.is_none(),
        },
{
    match o {
        Some(s) => Some(s.clone()),
        None => None,
    }
}

/// Versions and platform a node reports.
#[derive(Debug)]
pub struct NodeSystemInfo {
    pub kubelet_version: String,
    pub os_image: String,
    pub architecture: String,
    pub container_runtime_version: String,
    pub kernel_version: String,
}

/// An address of a node: its type and the address.
#[derive(Debug)]
pub struct NodeAddress {
    pub type_: String,
    pub address: String,
}

/// A node.
#[derive(Debug)]
pub struct Node {
    pub metadata: Meta,
    pub unschedulable: Option<bool>,
    pub conditions: Option<Vec<Condition>>,
    pub capacity: Option<StrMap>,
    pub allocatable: Option<StrMap>,
    pub addresses: Option<Vec<NodeAddress>>,
    pub node_info: Option<NodeSystemInfo>,
}

/// The name of an object's metadata, or the empty sequence.
pub open spec fn name_of(m: Meta) -> Seq<char> {
    opt_view(m.name)
}

} // verus!
