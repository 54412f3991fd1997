//! Pod security scan: flags risky pod and container settings and scores
//! the result.
use vstd::prelude::*;
use crate::model::{Pod, PodSpec, Container, SecurityContext, opt_view, opt_view_or, unwrap_or_empty, unwrap_or_str};
use crate::text::{seq_ends_with, seq_contains, str_ends_with, str_contains, str_eq};

verus! {

#[derive(Debug)]
pub struct SecurityFinding {
    pub severity: String,
    pub category: String,
    pub title: String,
    pub description: String,
    pub resource_kind: String,
    pub resource_name: String,
    pub namespace: String,
    pub remediation: String,
}

pub struct FindingView {
    pub severity: Seq<char>,
    pub category: Seq<char>,
    pub title: Seq<char>,
    pub description: Seq<char>,
    pub resource_kind: Seq<char>,
    pub resource_name: Seq<char>,
    pub namespace: Seq<char>,
    pub remediation: Seq<char>,
}

impl View for SecurityFinding {
    type V = FindingView;

    open spec fn view(&self) -> FindingView {
        FindingView {
            severity: self.severity@,
            category: self.category@,
            title: self.title@,
            description: self.description@,
            resource_kind: self.resource_kind@,
            resource_name: self.resource_name@,
            namespace: self.namespace@,
            remediation: self.remediation@,
        }
    }
}

#[derive(Debug)]
pub struct SecuritySummary {
    pub critical: u32,
    pub high: u32,
    pub medium: u32,
    pub low: u32,
    pub total_resources_scanned: u32,
    pub score: u32,
}

#[derive(Debug)]
pub struct SecurityScanResult {
    pub findings: Vec<SecurityFinding>,
    pub summary: SecuritySummary,
}

pub open spec fn fviews(v: Seq<SecurityFinding>) -> Seq<FindingView> {
    v.map_values(|f: SecurityFinding| f@)
}

/// A finding about the pod `name` in namespace `ns`.
pub open spec fn finding(sev: Seq<char>, cat: Seq<char>, title: Seq<char>, desc: Seq<char>,
    name: Seq<char>, ns: Seq<char>, remedy: Seq<char>) -> FindingView {
    FindingView {
        severity: sev,
        category: cat,
        title: title,
        description: desc,
        resource_kind: "Pod"@,
        resource_name: name,
        namespace: ns,
        remediation: remedy,
    }
}

/// `Container '<c>' in pod '<p>'<tail>`.
pub open spec fn in_pod(c: Seq<char>, p: Seq<char>, tail: Seq<char>) -> Seq<char> {
    "Container '"@ + c + "' in pod '"@ + p + tail
}

/// Findings for each added capability.
pub open spec fn caps_findings(adds: Seq<String>, c: Seq<char>, p: Seq<char>, ns: Seq<char>) -> Seq<FindingView>
    decreases adds.len(),
{
    if adds.len() == 0 {
        Seq::empty()
    } else {
        let cap = adds.last()@;
        let prev = caps_findings(adds.drop_last(), c, p, ns);
        let desc = in_pod(c, p, "' has "@ + cap + " capability"@);
        if cap == "SYS_ADMIN"@ || cap == "ALL"@ {
            prev.push(finding("critical"@, "privilege"@, "Dangerous capability: "@ + cap, desc, p, ns,
                "Remove dangerous capabilities and use minimal set"@))
        } else if cap == "NET_RAW"@ || cap == "NET_ADMIN"@ {
            prev.push(finding("high"@, "network"@, "Network capability: "@ + cap, desc, p, ns,
                "Remove network capabilities unless required"@))
        } else {
            prev
        }
    }
}

/// Findings from a container's security context.
pub open spec fn context_findings(sc: SecurityContext, c: Seq<char>, p: Seq<char>, ns: Seq<char>) -> Seq<FindingView> {
    let a = if sc.privileged == Some(true) {
        seq![finding("critical"@, "privilege"@, "Privileged container"@, in_pod(c, p, "' runs in privileged mode"@), p, ns,
            "Set securityContext.privileged to false"@)]
    } else { Seq::empty() };
    let b = if sc.run_as_user == Some(0i64) {
        seq![finding("high"@, "privilege"@, "Running as root (UID 0)"@, in_pod(c, p, "' runs as root user"@), p, ns,
            "Set securityContext.runAsNonRoot to true and specify a non-root runAsUser"@)]
    } else { Seq::empty() };
    let d = if sc.allow_privilege_escalation == Some(true) {
        seq![finding("high"@, "privilege"@, "Privilege escalation allowed"@, in_pod(c, p, "' allows privilege escalation"@), p, ns,
            "Set securityContext.allowPrivilegeEscalation to false"@)]
    } else { Seq::empty() };
    let e = if sc.read_only_root_filesystem != Some(true) {
        seq![finding("low"@, "config"@, "Writable root filesystem"@, in_pod(c, p, "' has a writable root filesystem"@), p, ns,
            "Set securityContext.readOnlyRootFilesystem to true"@)]
    } else { Seq::empty() };
    let f = match sc.capabilities_add {
        Some(Some(adds)) => caps_findings(adds@, c, p, ns),
        _ => Seq::empty(),
    };
    a + b + d + e + f
}

/// All findings about one container.
pub open spec fn container_findings(k: Container, p: Seq<char>, ns: Seq<char>) -> Seq<FindingView> {
    let c = k.name@;
    let sc_part = match k.security_context {
        Some(sc) => context_findings(sc, c, p, ns),
        None => seq![finding("medium"@, "config"@, "No security context defined"@, in_pod(c, p, "' has no security context"@), p, ns,
            "Define a securityContext with runAsNonRoot, readOnlyRootFilesystem, and drop ALL capabilities"@)],
    };
    let res_part = match k.resources {
        Some(r) => {
            let l = if r.limits is None {
                seq![finding("medium"@, "resource"@, "No resource limits"@, in_pod(c, p, "' has no resource limits set"@), p, ns,
                    "Set resources.limits for CPU and memory"@)]
            } else { Seq::empty() };
            let q = if r.requests is None {
                seq![finding("low"@, "resource"@, "No resource requests"@, in_pod(c, p, "' has no resource requests set"@), p, ns,
                    "Set resources.requests for CPU and memory"@)]
            } else { Seq::empty() };
            l + q
        },
        None => seq![finding("medium"@, "resource"@, "No resource limits or requests"@, in_pod(c, p, "' has no resource configuration"@), p, ns,
            "Set resources.limits and resources.requests for CPU and memory"@)],
    };
    let img_part = match k.image {
        Some(img) => if seq_ends_with(img@, ":latest"@) || !seq_contains(img@, ":"@) {
            seq![finding("medium"@, "image"@, "Using latest or untagged image"@,
                in_pod(c, p, "' uses image '"@ + img@ + "' without a specific tag"@), p, ns,
                "Use a specific image tag or digest instead of :latest"@)]
        } else { Seq::empty() },
        None => Seq::empty(),
    };
    let probe_part = if k.liveness_probe is None && k.readiness_probe is None {
        seq![finding("low"@, "config"@, "No health probes"@, in_pod(c, p, "' has no liveness or readiness probes"@), p, ns,
            "Add livenessProbe and readinessProbe for reliability"@)]
    } else { Seq::empty() };
    sc_part + res_part + img_part + probe_part
}

pub open spec fn containers_findings(cs: Seq<Container>, p: Seq<char>, ns: Seq<char>) -> Seq<FindingView>
    decreases cs.len(),
{
    if cs.len() == 0 {
        Seq::empty()
    } else {
        containers_findings(cs.drop_last(), p, ns) + container_findings(cs.last(), p, ns)
    }
}

/// All findings about one pod.
pub open spec fn pod_findings(pod: Pod) -> Seq<FindingView> {
    let p = opt_view(pod.metadata.name);
    let ns = opt_view_or(pod.metadata.namespace, "default"@);
    match pod.spec {
        None => Seq::empty(),
        Some(spec) => {
            let hn = if spec.host_network == Some(true) {
                seq![finding("high"@, "network"@, "Host network enabled"@,
                    "Pod '"@ + p + "' uses host network, exposing all host ports"@, p, ns,
                    "Set spec.hostNetwork to false unless absolutely required"@)]
            } else { Seq::empty() };
            let hp = if spec.host_pid == Some(true) {
                seq![finding("high"@, "privilege"@, "Host PID namespace shared"@,
                    "Pod '"@ + p + "' shares host PID namespace"@, p, ns, "Set spec.hostPID to false"@)]
            } else { Seq::empty() };
            let hi = if spec.host_ipc == Some(true) {
                seq![finding("medium"@, "privilege"@, "Host IPC namespace shared"@,
                    "Pod '"@ + p + "' shares host IPC namespace"@, p, ns, "Set spec.hostIPC to false"@)]
            } else { Seq::empty() };
            let sa = if spec.automount_service_account_token != Some(false)
                && (opt_view_or(spec.service_account_name, "default"@) == "default"@) {
                seq![finding("medium"@, "privilege"@, "Default service account with auto-mounted token"@,
                    "Pod '"@ + p + "' uses the default service account with auto-mounted token"@, p, ns,
                    "Use a dedicated service account or set automountServiceAccountToken to false"@)]
            } else { Seq::empty() };
            hn + hp + hi + containers_findings(spec.containers@, p, ns) + sa
        },
    }
}

pub open spec fn pods_findings(pods: Seq<Pod>) -> Seq<FindingView>
    decreases pods.len(),
{
    if pods.len() == 0 {
        Seq::empty()
    } else {
        pods_findings(pods.drop_last()) + pod_findings(pods.last())
    }
}

/// Number of findings with severity `sev`.
pub open spec fn count_sev(fs: Seq<FindingView>, sev: Seq<char>) -> nat
    decreases fs.len(),
{
    if fs.len() == 0 {
        0
    } else {
        count_sev(fs.drop_last(), sev) + if fs.last().severity == sev { 1nat } else { 0nat }
    }
}

/// The score: 100 minus the weighted findings as a share of
/// `weight_per_resource` points per resource, never below 0.
pub open spec fn score_spec(c: nat, h: nat, m: nat, l: nat, total: nat, weight_per_resource: nat) -> nat {
    let weighted = c * 10 + h * 5 + m * 2 + l;
    let max_possible = (if total > 1 { total } else { 1 }) * weight_per_resource;
    if weighted >= max_possible {
        0
    } else {
        let s = (((max_possible - weighted) * 100) as nat / max_possible) as nat;
        if s > 100 { 100 } else { s }
    }
}

/// The `u32` arithmetic of the score does not overflow.
pub open spec fn score_fits(c: nat, h: nat, m: nat, l: nat, total: nat, weight_per_resource: nat) -> bool {
    let max_possible = (if total > 1 { total } else { 1 }) * weight_per_resource;
    &&& c * 10 <= u32::MAX
    &&& c * 10 + h * 5 <= u32::MAX
    &&& c * 10 + h * 5 + m * 2 <= u32::MAX
    &&& c * 10 + h * 5 + m * 2 + l <= u32::MAX
    &&& max_possible <= u32::MAX
    &&& (c * 10 + h * 5 + m * 2 + l < max_possible ==> (max_possible - (c * 10 + h * 5 + m * 2 + l)) * 100 <= u32::MAX)
}

/// Appends one finding.
fn push_finding(fs: &mut Vec<SecurityFinding>, sev: &str, cat: &str, title: String, desc: String,
    name: &String, ns: &String, remedy: &str)
    ensures
        fviews(final(fs)@) == fviews(old(fs)@).push(finding(sev@, cat@, title@, desc@, name@, ns@, remedy@)),
{
    let f = SecurityFinding {
        severity: String::from_str(sev),
        category: String::from_str(cat),
        title,
        description: desc,
        resource_kind: String::from_str("Pod"),
        resource_name: name.clone(),
        namespace: ns.clone(),
        remediation: String::from_str(remedy),
    };
    fs.push(f);
    assert(fviews(final(fs)@) =~= fviews(old(fs)@).push(finding(sev@, cat@, title@, desc@, name@, ns@, remedy@)));
}

/// `Container '<c>' in pod '<p>'<tail>`.
fn in_pod_exec(c: &String, p: &String, tail: &str) -> (r: String)
    ensures
        r@ == in_pod(c@, p@, tail@),
{
    let mut s = String::from_str("Container '");
    s.append(c.as_str());
    s.append("' in pod '");
    s.append(p.as_str());
    s.append(tail);
    assert(s@ =~= in_pod(c@, p@, tail@));
    s
}

/// `<a><b><c>`.
fn cat3(a: &str, b: &str, c: &str) -> (r: String)
    ensures
        r@ == a@ + b@ + c@,
{
    let mut s = String::from_str(a);
    s.append(b);
    s.append(c);
    s
}

fn check_caps(adds: &Vec<String>, c: &String, p: &String, ns: &String, fs: &mut Vec<SecurityFinding>)
    ensures
        fviews(final(fs)@) == fviews(old(fs)@) + caps_findings(adds@, c@, p@, ns@),
{
    let mut i: usize = 0;
    assert(fviews(fs@) =~= fviews(old(fs)@) + caps_findings(adds@.subrange(0, 0), c@, p@, ns@));
    while i < adds.len()
        invariant
            i <= adds@.len(),
            fviews(fs@) == fviews(old(fs)@) + caps_findings(adds@.subrange(0, i as int), c@, p@, ns@),
        decreases adds@.len() - i,
    {
        let cap = &adds[i];
        let ghost before = fviews(fs@);
        let ghost sub = adds@.subrange(0, i + 1);
        assert(sub.drop_last() =~= adds@.subrange(0, i as int));
        assert(sub.last() == *cap);
        let desc_tail = cat3("' has ", cap.as_str(), " capability");
        if str_eq(cap.as_str(), "SYS_ADMIN") || str_eq(cap.as_str(), "ALL") {
            let desc = in_pod_exec(c, p, desc_tail.as_str());
            let mut title = String::from_str("Dangerous capability: ");
            title.append(cap.as_str());
            push_finding(fs, "critical", "privilege", title, desc, p, ns, "Remove dangerous capabilities and use minimal set");
        } else if str_eq(cap.as_str(), "NET_RAW") || str_eq(cap.as_str(), "NET_ADMIN") {
            let desc = in_pod_exec(c, p, desc_tail.as_str());
            let mut title = String::from_str("Network capability: ");
            title.append(cap.as_str());
            push_finding(fs, "high", "network", title, desc, p, ns, "Remove network capabilities unless required");
        }
        i = i + 1;
        assert(fviews(fs@) =~= fviews(old(fs)@) + caps_findings(adds@.subrange(0, i as int), c@, p@, ns@));
    }
    assert(adds@.subrange(0, i as int) =~= adds@);
}

fn check_context(sc: &SecurityContext, c: &String, p: &String, ns: &String, fs: &mut Vec<SecurityFinding>)
    ensures
        fviews(final(fs)@) == fviews(old(fs)@) + context_findings(*sc, c@, p@, ns@),
{
    let ghost s0 = fviews(fs@);
    if sc.privileged == Some(true) {
        push_finding(fs, "critical", "privilege", String::from_str("Privileged container"),
            in_pod_exec(c, p, "' runs in privileged mode"), p, ns, "Set securityContext.privileged to false");
    }
    let ghost s1 = fviews(fs@);
    if sc.run_as_user == Some(0i64) {
        push_finding(fs, "high", "privilege", String::from_str("Running as root (UID 0)"),
            in_pod_exec(c, p, "' runs as root user"), p, ns,
            "Set securityContext.runAsNonRoot to true and specify a non-root runAsUser");
    }
    let ghost s2 = fviews(fs@);
    if sc.allow_privilege_escalation == Some(true) {
        push_finding(fs, "high", "privilege", String::from_str("Privilege escalation allowed"),
            in_pod_exec(c, p, "' allows privilege escalation"), p, ns,
            "Set securityContext.allowPrivilegeEscalation to false");
    }
    let ghost s3 = fviews(fs@);
    if sc.read_only_root_filesystem != Some(true) {
        push_finding(fs, "low", "config", String::from_str("Writable root filesystem"),
            in_pod_exec(c, p, "' has a writable root filesystem"), p, ns,
            "Set securityContext.readOnlyRootFilesystem to true");
    }
    let ghost s4 = fviews(fs@);
    match &sc.capabilities_add {
        Some(Some(adds)) => check_caps(adds, c, p, ns, fs),
        _ => {},
    }
    assert(fviews(fs@) =~= fviews(old(fs)@) + context_findings(*sc, c@, p@, ns@));
}

fn check_container(k: &Container, p: &String, ns: &String, fs: &mut Vec<SecurityFinding>)
    ensures
        fviews(final(fs)@) == fviews(old(fs)@) + container_findings(*k, p@, ns@),
{
    let c = &k.name;
    match &k.security_context {
        Some(sc) => check_context(sc, c, p, ns, fs),
        None => push_finding(fs, "medium", "config", String::from_str("No security context defined"),
            in_pod_exec(c, p, "' has no security context"), p, ns,
            "Define a securityContext with runAsNonRoot, readOnlyRootFilesystem, and drop ALL capabilities"),
    }
    let ghost a = fviews(fs@);
    match &k.resources {
        Some(r) => {
            if r.limits.is_none() {
                push_finding(fs, "medium", "resource", String::from_str("No resource limits"),
                    in_pod_exec(c, p, "' has no resource limits set"), p, ns, "Set resources.limits for CPU and memory");
            }
            if r.requests.is_none() {
                push_finding(fs, "low", "resource", String::from_str("No resource requests"),
                    in_pod_exec(c, p, "' has no resource requests set"), p, ns, "Set resources.requests for CPU and memory");
            }
        },
        None => push_finding(fs, "medium", "resource", String::from_str("No resource limits or requests"),
            in_pod_exec(c, p, "' has no resource configuration"), p, ns,
            "Set resources.limits and resources.requests for CPU and memory"),
    }
    let ghost b = fviews(fs@);
    match &k.image {
        Some(img) => {
            if str_ends_with(img.as_str(), ":latest") || !str_contains(img.as_str(), ":") {
                let tail = cat3("' uses image '", img.as_str(), "' without a specific tag");
                push_finding(fs, "medium", "image", String::from_str("Using latest or untagged image"),
                    in_pod_exec(c, p, tail.as_str()), p, ns, "Use a specific image tag or digest instead of :latest");
            }
        },
        None => {},
    }
    let ghost d = fviews(fs@);
    if k.liveness_probe.is_none() && k.readiness_probe.is_none() {
        push_finding(fs, "low", "config", String::from_str("No health probes"),
            in_pod_exec(c, p, "' has no liveness or readiness probes"), p, ns,
            "Add livenessProbe and readinessProbe for reliability");
    }
    assert(fviews(fs@) =~= fviews(old(fs)@) + container_findings(*k, p@, ns@));
}

fn check_pod(pod: &Pod, fs: &mut Vec<SecurityFinding>)
    ensures
        fviews(final(fs)@) == fviews(old(fs)@) + pod_findings(*pod),
{
    let p = unwrap_or_empty(&pod.metadata.name);
    let ns = unwrap_or_str(&pod.metadata.namespace, "default");
    match &pod.spec {
        None => {
            assert(fviews(fs@) =~= fviews(old(fs)@) + pod_findings(*pod));
        },
        Some(spec) => {
            if spec.host_network == Some(true) {
                push_finding(fs, "high", "network", String::from_str("Host network enabled"),
                    cat3("Pod '", p.as_str(), "' uses host network, exposing all host ports"), &p, &ns,
                    "Set spec.hostNetwork to false unless absolutely required");
            }
            if spec.host_pid == Some(true) {
                push_finding(fs, "high", "privilege", String::from_str("Host PID namespace shared"),
                    cat3("Pod '", p.as_str(), "' shares host PID namespace"), &p, &ns, "Set spec.hostPID to false");
            }
            if spec.host_ipc == Some(true) {
                push_finding(fs, "medium", "privilege", String::from_str("Host IPC namespace shared"),
                    cat3("Pod '", p.as_str(), "' shares host IPC namespace"), &p, &ns, "Set spec.hostIPC to false");
            }
            let ghost before = fviews(fs@);
            let mut i: usize = 0;
            assert(containers_findings(spec.containers@.subrange(0, 0), p@, ns@) =~= Seq::<FindingView>::empty());
            assert(fviews(fs@) =~= before + containers_findings(spec.containers@.subrange(0, 0), p@, ns@));
            while i < spec.containers.len()
                invariant
                    i <= spec.containers@.len(),
                    fviews(fs@) == before + containers_findings(spec.containers@.subrange(0, i as int), p@, ns@),
                decreases spec.containers@.len() - i,
            {
                check_container(&spec.containers[i], &p, &ns, fs);
                let ghost sub = spec.containers@.subrange(0, i + 1);
                assert(sub.drop_last() =~= spec.containers@.subrange(0, i as int));
                i = i + 1;
                assert(fviews(fs@) =~= before + containers_findings(spec.containers@.subrange(0, i as int), p@, ns@));
            }
            assert(spec.containers@.subrange(0, i as int) =~= spec.containers@);
            let is_default = match &spec.service_account_name {
                Some(sa) => str_eq(sa.as_str(), "default"),
                None => true,
            };
            if spec.automount_service_account_token != Some(false) && is_default {
                push_finding(fs, "medium", "privilege", String::from_str("Default service account with auto-mounted token"),
                    cat3("Pod '", p.as_str(), "' uses the default service account with auto-mounted token"), &p, &ns,
                    "Use a dedicated service account or set automountServiceAccountToken to false");
            }
            assert(fviews(fs@) =~= fviews(old(fs)@) + pod_findings(*pod));
        },
    }
}

/// Scans `pods` and returns their findings, pod by pod in order.
pub fn scan_pods(pods: &Vec<Pod>) -> (r: Vec<SecurityFinding>)
    ensures
        fviews(r@) == pods_findings(pods@),
{
    let mut fs: Vec<SecurityFinding> = Vec::new();
    let mut i: usize = 0;
    assert(fviews(fs@) =~= pods_findings(pods@.subrange(0, 0)));
    while i < pods.len()
        invariant
            i <= pods@.len(),
            fviews(fs@) == pods_findings(pods@.subrange(0, i as int)),
        decreases pods@.len() - i,
    {
        check_pod(&pods[i], &mut fs);
        let ghost sub = pods@.subrange(0, i + 1);
        assert(sub.drop_last() =~= pods@.subrange(0, i as int));
        i = i + 1;
    }
    assert(pods@.subrange(0, i as int) =~= pods@);
    fs
}

/// Counts the findings of each severity: critical, high, medium, low.
pub fn count_severities(fs: &Vec<SecurityFinding>) -> (r: (usize, usize, usize, usize))
    ensures
        r.0 == count_sev(fviews(fs@), "critical"@),
        r.1 == count_sev(fviews(fs@), "high"@),
        r.2 == count_sev(fviews(fs@), "medium"@),
        r.3 == count_sev(fviews(fs@), "low"@),
{
    proof {
        reveal_strlit("critical");
        reveal_strlit("high");
        reveal_strlit("medium");
        reveal_strlit("low");
    }
    let mut c: usize = 0;
    let mut h: usize = 0;
    let mut m: usize = 0;
    let mut l: usize = 0;
    let mut i: usize = 0;
    while i < fs.len()
        invariant
            i <= fs@.len(),
            c == count_sev(fviews(fs@.subrange(0, i as int)), "critical"@),
            h == count_sev(fviews(fs@.subrange(0, i as int)), "high"@),
            m == count_sev(fviews(fs@.subrange(0, i as int)), "medium"@),
            l == count_sev(fviews(fs@.subrange(0, i as int)), "low"@),
            c + h + m + l <= i,
        decreases fs@.len() - i,
    {
        let ghost sub = fviews(fs@.subrange(0, i + 1));
        assert(sub.drop_last() =~= fviews(fs@.subrange(0, i as int)));
        assert(sub.last() == fs@[i as int]@);
        proof {
            reveal_strlit("critical");
            reveal_strlit("high");
            reveal_strlit("medium");
            reveal_strlit("low");
            assert("critical"@.len() == 8);
            assert("high"@.len() == 4);
            assert("medium"@.len() == 6);
            assert("low"@.len() == 3);
        }
        let sev = fs[i].severity.as_str();
        if str_eq(sev, "critical") {
            c = c + 1;
        } else if str_eq(sev, "high") {
            h = h + 1;
        } else if str_eq(sev, "medium") {
            m = m + 1;
        } else if str_eq(sev, "low") {
            l = l + 1;
        }
        i = i + 1;
    }
    assert(fs@.subrange(0, i as int) =~= fs@);
    (c, h, m, l)
}

/// The score, or `None` when its `u32` arithmetic overflows.
pub fn score_checked(c: usize, h: usize, m: usize, l: usize, total: usize, weight_per_resource: u32) -> (r: Option<u32>)
    requires
        weight_per_resource >= 1,
    ensures
        match r {
            Some(s) => score_fits(c as nat, h as nat, m as nat, l as nat, total as nat, weight_per_resource as nat)
                && s == score_spec(c as nat, h as nat, m as nat, l as nat, total as nat, weight_per_resource as nat),
            None => !score_fits(c as nat, h as nat, m as nat, l as nat, total as nat, weight_per_resource as nat),
        },
{
    let max32: u64 = u32::MAX as u64;
    let t: u64 = if total > 1 { total as u64 } else { 1 };
    if c as u64 > max32 / 10 || h as u64 > max32 || m as u64 > max32 || l as u64 > max32 || t > max32 {
        proof {
            if t > max32 {
                assert(t * weight_per_resource >= t) by (nonlinear_arith)
                    requires weight_per_resource >= 1, t >= 0;
            }
        }
        return None;
    }
    let cw = c as u64 * 10;
    let hw = h as u64 * 5;
    let mw = m as u64 * 2;
    let lw = l as u64;
    assert(t * weight_per_resource <= max32 * max32) by (nonlinear_arith)
        requires t <= max32, weight_per_resource <= max32;
    let mp = t * weight_per_resource as u64;
    if cw > max32 || cw + hw > max32 || cw + hw + mw > max32
        || cw + hw + mw + lw > max32 || mp > max32 {
        return None;
    }
    let weighted = cw + hw + mw + lw;
    if weighted >= mp {
        return Some(0);
    }
    if (mp - weighted) * 100 > max32 {
        return None;
    }
    let s = (mp - weighted) * 100 / mp;
    Some(if s > 100 { 100 } else { s as u32 })
}

/// Scans `pods` and summarizes: `None` exactly when the score's `u32`
/// arithmetic would overflow.
pub fn scan_security(pods: &Vec<Pod>) -> (r: Option<SecurityScanResult>)
    ensures
        ({
            let fs = pods_findings(pods@);
            let (c, h, m, l) = (count_sev(fs, "critical"@), count_sev(fs, "high"@), count_sev(fs, "medium"@), count_sev(fs, "low"@));
            match r {
                Some(res) => {
                    &&& fviews(res.findings@) == fs
                    &&& pods@.len() <= u32::MAX
                    &&& score_fits(c, h, m, l, pods@.len(), 20)
                    &&& res.summary.critical == c
                    &&& res.summary.high == h
                    &&& res.summary.medium == m
                    &&& res.summary.low == l
                    &&& res.summary.total_resources_scanned == pods@.len()
                    &&& res.summary.score == score_spec(c, h, m, l, pods@.len(), 20)
                },
                None => pods@.len() > u32::MAX || !score_fits(c, h, m, l, pods@.len(), 20),
            }
        }),
{
    let findings = scan_pods(pods);
    let (c, h, m, l) = count_severities(&findings);
    if pods.len() > u32::MAX as usize {
        return None;
    }
    match score_checked(c, h, m, l, pods.len(), 20) {
        None => None,
        Some(score) => {
            Some(SecurityScanResult {
                findings,
                summary: SecuritySummary {
                    critical: c as u32,
                    high: h as u32,
                    medium: m as u32,
                    low: l as u32,
                    total_resources_scanned: pods.len() as u32,
                    score,
                },
            })
        },
    }
}


// ---- what the scan promises ----

proof fn lemma_concat_contains<A>(a: Seq<A>, b: Seq<A>, x: A)
    ensures
        (a.contains(x) || b.contains(x)) ==> (a + b).contains(x),
{
    if a.contains(x) {
        let i = choose|i: int| 0 <= i < a.len() && a[i] == x;
        assert((a + b)[i] == x);
    } else if b.contains(x) {
        let i = choose|i: int| 0 <= i < b.len() && b[i] == x;
        assert((a + b)[a.len() + i] == x);
    }
}

proof fn lemma_caps_contains(adds: Seq<String>, c: Seq<char>, p: Seq<char>, ns: Seq<char>, k: int)
    requires
        0 <= k < adds.len(),
        adds[k]@ == "SYS_ADMIN"@ || adds[k]@ == "ALL"@,
    ensures
        caps_findings(adds, c, p, ns).contains(finding("critical"@, "privilege"@, "Dangerous capability: "@ + adds[k]@,
            in_pod(c, p, "' has "@ + adds[k]@ + " capability"@), p, ns, "Remove dangerous capabilities and use minimal set"@)),
    decreases adds.len(),
{
    let x = finding("critical"@, "privilege"@, "Dangerous capability: "@ + adds[k]@,
        in_pod(c, p, "' has "@ + adds[k]@ + " capability"@), p, ns, "Remove dangerous capabilities and use minimal set"@);
    let r = caps_findings(adds, c, p, ns);
    let prev = caps_findings(adds.drop_last(), c, p, ns);
    if k == adds.len() - 1 {
        assert(r == prev.push(x));
        assert(r[prev.len() as int] == x);
    } else {
        assert(adds.drop_last()[k] == adds[k]);
        lemma_caps_contains(adds.drop_last(), c, p, ns, k);
        let i = choose|i: int| 0 <= i < prev.len() && prev[i] == x;
        assert(r[i] == x);
    }
}

proof fn lemma_containers_contains(cs: Seq<Container>, p: Seq<char>, ns: Seq<char>, j: int, x: FindingView)
    requires
        0 <= j < cs.len(),
        container_findings(cs[j], p, ns).contains(x),
    ensures
        containers_findings(cs, p, ns).contains(x),
    decreases cs.len(),
{
    let d = cs.drop_last();
    if j == cs.len() - 1 {
        lemma_concat_contains(containers_findings(d, p, ns), container_findings(cs.last(), p, ns), x);
    } else {
        assert(d[j] == cs[j]);
        lemma_containers_contains(d, p, ns, j, x);
        lemma_concat_contains(containers_findings(d, p, ns), container_findings(cs.last(), p, ns), x);
    }
}

proof fn lemma_pods_contains(pods: Seq<Pod>, i: int, x: FindingView)
    requires
        0 <= i < pods.len(),
        pod_findings(pods[i]).contains(x),
    ensures
        pods_findings(pods).contains(x),
    decreases pods.len(),
{
    let d = pods.drop_last();
    if i < pods.len() - 1 {
        assert(d[i] == pods[i]);
        lemma_pods_contains(d, i, x);
    }
    lemma_concat_contains(pods_findings(d), pod_findings(pods.last()), x);
}

proof fn lemma_count_positive(fs: Seq<FindingView>, x: FindingView)
    requires
        fs.contains(x),
    ensures
        count_sev(fs, x.severity) >= 1,
    decreases fs.len(),
{
    let d = fs.drop_last();
    if fs.last() != x {
        let i = choose|i: int| 0 <= i < fs.len() && fs[i] == x;
        assert(i < fs.len() - 1);
        assert(d[i] == x);
        lemma_count_positive(d, x);
    }
}

/// A container that adds the capability `SYS_ADMIN` or `ALL` makes the
/// security scan report, for that container, a critical `privilege`
/// finding `Dangerous capability: <cap>`, which counts among the critical
/// findings.
pub proof fn law_dangerous_capability_reported(pods: Seq<Pod>, i: int, j: int, k: int)
    requires
        0 <= i < pods.len(),
        pods[i].spec is Some,
        0 <= j < pods[i].spec.unwrap().containers@.len(),
        pods[i].spec.unwrap().containers@[j].security_context is Some,
        pods[i].spec.unwrap().containers@[j].security_context.unwrap().capabilities_add matches Some(Some(adds))
            && 0 <= k < adds@.len() && (adds@[k]@ == "SYS_ADMIN"@ || adds@[k]@ == "ALL"@),
    ensures
        ({
            let cont = pods[i].spec.unwrap().containers@[j];
            let cap = cont.security_context.unwrap().capabilities_add.unwrap().unwrap()@[k]@;
            let p = opt_view(pods[i].metadata.name);
            let ns = opt_view_or(pods[i].metadata.namespace, "default"@);
            &&& pods_findings(pods).contains(FindingView {
                    severity: "critical"@,
                    category: "privilege"@,
                    title: "Dangerous capability: "@ + cap,
                    description: "Container '"@ + cont.name@ + "' in pod '"@ + p + "' has "@ + cap + " capability"@,
                    resource_kind: "Pod"@,
                    resource_name: p,
                    namespace: ns,
                    remediation: "Remove dangerous capabilities and use minimal set"@,
                })
            &&& count_sev(pods_findings(pods), "critical"@) >= 1
        }),
{
    let pod = pods[i];
    let spec = pod.spec.unwrap();
    let cont = spec.containers@[j];
    let sc = cont.security_context.unwrap();
    let adds = sc.capabilities_add.unwrap().unwrap();
    let cap = adds@[k]@;
    let p = opt_view(pod.metadata.name);
    let ns = opt_view_or(pod.metadata.namespace, "default"@);
    let c = cont.name@;
    let x = finding("critical"@, "privilege"@, "Dangerous capability: "@ + cap,
        in_pod(c, p, "' has "@ + cap + " capability"@), p, ns, "Remove dangerous capabilities and use minimal set"@);
    lemma_caps_contains(adds@, c, p, ns, k);
    let cf = context_findings(sc, c, p, ns);
    let caps = caps_findings(adds@, c, p, ns);
    assert(cf.contains(x)) by {
        let ci = choose|ci: int| 0 <= ci < caps.len() && caps[ci] == x;
        assert(cf[cf.len() - caps.len() + ci] == x);
    }
    let k_all = container_findings(cont, p, ns);
    assert(k_all.contains(x)) by {
        let ci = choose|ci: int| 0 <= ci < cf.len() && cf[ci] == x;
        assert(k_all[ci] == x);
    }
    lemma_containers_contains(spec.containers@, p, ns, j, x);
    let pf = pod_findings(pod);
    let cs_f = containers_findings(spec.containers@, p, ns);
    assert(pf.contains(x)) by {
        let ci = choose|ci: int| 0 <= ci < cs_f.len() && cs_f[ci] == x;
        let hn = if spec.host_network == Some(true) { 1int } else { 0int };
        let hp = if spec.host_pid == Some(true) { 1int } else { 0int };
        let hi = if spec.host_ipc == Some(true) { 1int } else { 0int };
        assert(pf[hn + hp + hi + ci] == x);
    }
    lemma_pods_contains(pods, i, x);
    assert(in_pod(c, p, "' has "@ + cap + " capability"@) == "Container '"@ + c + "' in pod '"@ + p + "' has "@ + cap + " capability"@) by {
        assert(in_pod(c, p, "' has "@ + cap + " capability"@) =~= "Container '"@ + c + "' in pod '"@ + p + "' has "@ + cap + " capability"@);
    }
    lemma_count_positive(pods_findings(pods), x);
}

proof fn lemma_container_to_pods(pods: Seq<Pod>, i: int, j: int, x: FindingView)
    requires
        0 <= i < pods.len(),
        pods[i].spec is Some,
        0 <= j < pods[i].spec.unwrap().containers@.len(),
        container_findings(pods[i].spec.unwrap().containers@[j], opt_view(pods[i].metadata.name),
            opt_view_or(pods[i].metadata.namespace, "default"@)).contains(x),
    ensures
        pods_findings(pods).contains(x),
{
    let pod = pods[i];
    let spec = pod.spec.unwrap();
    let p = opt_view(pod.metadata.name);
    let ns = opt_view_or(pod.metadata.namespace, "default"@);
    lemma_containers_contains(spec.containers@, p, ns, j, x);
    let pf = pod_findings(pod);
    let cs_f = containers_findings(spec.containers@, p, ns);
    assert(pf.contains(x)) by {
        let ci = choose|ci: int| 0 <= ci < cs_f.len() && cs_f[ci] == x;
        let hn = if spec.host_network == Some(true) { 1int } else { 0int };
        let hp = if spec.host_pid == Some(true) { 1int } else { 0int };
        let hi = if spec.host_ipc == Some(true) { 1int } else { 0int };
        assert(pf[hn + hp + hi + ci] == x);
    }
    lemma_pods_contains(pods, i, x);
}

/// A container that runs privileged, as root (UID 0), or with privilege
/// escalation allowed makes the security scan report it: a critical
/// `Privileged container`, a high `Running as root (UID 0)`, a high
/// `Privilege escalation allowed` finding, all of category `privilege`.
pub proof fn law_privileged_settings_reported(pods: Seq<Pod>, i: int, j: int)
    requires
        0 <= i < pods.len(),
        pods[i].spec is Some,
        0 <= j < pods[i].spec.unwrap().containers@.len(),
        pods[i].spec.unwrap().containers@[j].security_context is Some,
    ensures
        ({
            let cont = pods[i].spec.unwrap().containers@[j];
            let sc = cont.security_context.unwrap();
            let p = opt_view(pods[i].metadata.name);
            let ns = opt_view_or(pods[i].metadata.namespace, "default"@);
            let who = "Container '"@ + cont.name@ + "' in pod '"@ + p;
            &&& sc.privileged == Some(true) ==> pods_findings(pods).contains(finding("critical"@, "privilege"@,
                    "Privileged container"@, who + "' runs in privileged mode"@, p, ns,
                    "Set securityContext.privileged to false"@))
            &&& sc.privileged == Some(true) ==> count_sev(pods_findings(pods), "critical"@) >= 1
            &&& sc.run_as_user == Some(0i64) ==> pods_findings(pods).contains(finding("high"@, "privilege"@,
                    "Running as root (UID 0)"@, who + "' runs as root user"@, p, ns,
                    "Set securityContext.runAsNonRoot to true and specify a non-root runAsUser"@))
            &&& sc.allow_privilege_escalation == Some(true) ==> pods_findings(pods).contains(finding("high"@, "privilege"@,
                    "Privilege escalation allowed"@, who + "' allows privilege escalation"@, p, ns,
                    "Set securityContext.allowPrivilegeEscalation to false"@))
        }),
{
    let pod = pods[i];
    let cont = pod.spec.unwrap().containers@[j];
    let sc = cont.security_context.unwrap();
    let p = opt_view(pod.metadata.name);
    let ns = opt_view_or(pod.metadata.namespace, "default"@);
    let c = cont.name@;
    let cf = context_findings(sc, c, p, ns);
    let kf = container_findings(cont, p, ns);
    let na: int = if sc.privileged == Some(true) { 1 } else { 0 };
    let nb: int = if sc.run_as_user == Some(0i64) { 1 } else { 0 };
    if sc.privileged == Some(true) {
        let x = finding("critical"@, "privilege"@, "Privileged container"@, in_pod(c, p, "' runs in privileged mode"@), p, ns,
            "Set securityContext.privileged to false"@);
        assert(kf[0] == x);
        lemma_container_to_pods(pods, i, j, x);
        lemma_count_positive(pods_findings(pods), x);
        assert(in_pod(c, p, "' runs in privileged mode"@) =~= "Container '"@ + c + "' in pod '"@ + p + "' runs in privileged mode"@);
    }
    if sc.run_as_user == Some(0i64) {
        let x = finding("high"@, "privilege"@, "Running as root (UID 0)"@, in_pod(c, p, "' runs as root user"@), p, ns,
            "Set securityContext.runAsNonRoot to true and specify a non-root runAsUser"@);
        assert(kf[na] == x);
        lemma_container_to_pods(pods, i, j, x);
        assert(in_pod(c, p, "' runs as root user"@) =~= "Container '"@ + c + "' in pod '"@ + p + "' runs as root user"@);
    }
    if sc.allow_privilege_escalation == Some(true) {
        let x = finding("high"@, "privilege"@, "Privilege escalation allowed"@, in_pod(c, p, "' allows privilege escalation"@), p, ns,
            "Set securityContext.allowPrivilegeEscalation to false"@);
        assert(kf[na + nb] == x);
        lemma_container_to_pods(pods, i, j, x);
        assert(in_pod(c, p, "' allows privilege escalation"@) =~= "Container '"@ + c + "' in pod '"@ + p + "' allows privilege escalation"@);
    }
}

/// A pod that uses the host network, or shares the host PID or IPC
/// namespace, makes the security scan report it: a high `Host network
/// enabled`, a high `Host PID namespace shared`, a medium `Host IPC
/// namespace shared` finding.
pub proof fn law_host_namespaces_reported(pods: Seq<Pod>, i: int)
    requires
        0 <= i < pods.len(),
        pods[i].spec is Some,
    ensures
        ({
            let spec = pods[i].spec.unwrap();
            let p = opt_view(pods[i].metadata.name);
            let ns = opt_view_or(pods[i].metadata.namespace, "default"@);
            &&& spec.host_network == Some(true) ==> pods_findings(pods).contains(finding("high"@, "network"@,
                    "Host network enabled"@, "Pod '"@ + p + "' uses host network, exposing all host ports"@, p, ns,
                    "Set spec.hostNetwork to false unless absolutely required"@))
            &&& spec.host_pid == Some(true) ==> pods_findings(pods).contains(finding("high"@, "privilege"@,
                    "Host PID namespace shared"@, "Pod '"@ + p + "' shares host PID namespace"@, p, ns,
                    "Set spec.hostPID to false"@))
            &&& spec.host_ipc == Some(true) ==> pods_findings(pods).contains(finding("medium"@, "privilege"@,
                    "Host IPC namespace shared"@, "Pod '"@ + p + "' shares host IPC namespace"@, p, ns,
                    "Set spec.hostIPC to false"@))
        }),
{
    let pod = pods[i];
    let spec = pod.spec.unwrap();
    let p = opt_view(pod.metadata.name);
    let ns = opt_view_or(pod.metadata.namespace, "default"@);
    let pf = pod_findings(pod);
    let hn: int = if spec.host_network == Some(true) { 1 } else { 0 };
    let hp: int = if spec.host_pid == Some(true) { 1 } else { 0 };
    if spec.host_network == Some(true) {
        let x = finding("high"@, "network"@, "Host network enabled"@,
            "Pod '"@ + p + "' uses host network, exposing all host ports"@, p, ns,
            "Set spec.hostNetwork to false unless absolutely required"@);
        assert(pf[0] == x);
        lemma_pods_contains(pods, i, x);
    }
    if spec.host_pid == Some(true) {
        let x = finding("high"@, "privilege"@, "Host PID namespace shared"@,
            "Pod '"@ + p + "' shares host PID namespace"@, p, ns, "Set spec.hostPID to false"@);
        assert(pf[hn] == x);
        lemma_pods_contains(pods, i, x);
    }
    if spec.host_ipc == Some(true) {
        let x = finding("medium"@, "privilege"@, "Host IPC namespace shared"@,
            "Pod '"@ + p + "' shares host IPC namespace"@, p, ns, "Set spec.hostIPC to false"@);
        assert(pf[hn + hp] == x);
        lemma_pods_contains(pods, i, x);
    }
}

} // verus!
