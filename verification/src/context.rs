//! Kubeconfig contexts, reuse of a connected client, the choice of a cloud
//! CLI to get a token from when an auth plugin is missing, and the advice
//! shown when a cluster cannot be reached.
use vstd::prelude::*;
use crate::text::{views, dec_repr, occurs_at, seq_contains, string_of, str_eq, str_contains, chars_of, string_from_range, append_u64, last_index, rfind_char, lowercase, to_lower};
use crate::model::{opt_view, unwrap_or_empty, clone_opt};
use crate::benchmark::opt_seq;

verus! {

/// A context of the kubeconfig as the context list shows it.
#[derive(Debug)]
pub struct K8sContext {
    pub name: String,
    pub cluster: String,
    pub user: String,
    pub namespace: Option<String>,
    pub is_active: bool,
}

/// The body of a kubeconfig context.
#[derive(Debug)]
pub struct ContextRef {
    pub cluster: String,
    pub user: Option<String>,
    pub namespace: Option<String>,
}

/// A named kubeconfig context.
#[derive(Debug)]
pub struct NamedContext {
    pub name: String,
    pub context: Option<ContextRef>,
}

/// `k` lists the context `c` when the current context is `current`.
pub open spec fn context_of(k: K8sContext, c: NamedContext, current: Option<String>) -> bool {
    &&& k.name@ == c.name@
    &&& k.cluster@ == (match c.context { Some(r) => r.cluster@, None => Seq::empty() })
    &&& k.user@ == (match c.context { Some(r) => opt_view(r.user), None => Seq::empty() })
    &&& opt_seq(k.namespace) == (match c.context { Some(r) => opt_seq(r.namespace), None => None })
    &&& k.is_active == (c.name@ == opt_view(current))
}

/// The contexts of a kubeconfig, in order, marking the current one.
pub fn list_contexts(contexts: &Vec<NamedContext>, current: &Option<String>) -> (r: Vec<K8sContext>)
    ensures
        r@.len() == contexts@.len(),
        forall|i: int| 0 <= i < contexts@.len() ==> context_of(#[trigger] r@[i], contexts@[i], *current),
{
    let cur = unwrap_or_empty(current);
    let mut out: Vec<K8sContext> = Vec::new();
    let mut i: usize = 0;
    while i < contexts.len()
        invariant
            i <= contexts@.len(),
            cur@ == opt_view(*current),
            out@.len() == i,
            forall|j: int| 0 <= j < i ==> context_of(#[trigger] out@[j], contexts@[j], *current),
        decreases contexts@.len() - i,
    {
        let c = &contexts[i];
        let (cluster, user, namespace) = match &c.context {
            Some(r) => (r.cluster.clone(), unwrap_or_empty(&r.user), clone_opt(&r.namespace)),
            None => (String::new(), String::new(), None),
        };
        let k = K8sContext {
            name: c.name.clone(),
            cluster,
            user,
            namespace,
            is_active: str_eq(c.name.as_str(), cur.as_str()),
        };
        out.push(k);
        i = i + 1;
    }
    out
}

/// The current context of a kubeconfig; `No current context set` when it
/// names none.
pub fn get_current_context(current: Option<String>) -> (r: Result<String, String>)
    ensures
        match r {
            Ok(s) => current matches Some(c) && s@ == c@,
            Err(e) => current is None && e@ == "No current context set"@,
        },
{
    match current {
        Some(c) => Ok(c),
        None => Err(string_of("No current context set")),
    }
}

/// How long a connected client is reused: 45 minutes, in nanoseconds.
pub const MAX_CLIENT_AGE_NANOS: u128 = 2_700_000_000_000;

/// How long a discovery of API resources is reused: 5 minutes, in nanoseconds.
pub const DISCOVERY_MAX_AGE_NANOS: u128 = 300_000_000_000;

/// Whether something cached for context `cached`, `elapsed_nanos` old, may
/// serve a request for context `requested`: same context, and younger
/// than `max_age_nanos`.
pub fn cache_reusable(cached: &str, requested: &str, elapsed_nanos: u128, max_age_nanos: u128) -> (r: bool)
    ensures
        r == (cached@ == requested@ && elapsed_nanos < max_age_nanos),
{
    str_eq(cached, requested) && elapsed_nanos < max_age_nanos
}

/// Whether a failure to build a client config comes from a missing exec
/// auth plugin, which a token from a cloud CLI can stand in for.
pub fn exec_plugin_failed(err: &str) -> (r: bool)
    ensures
        r == (seq_contains(err@, "No such file"@) || seq_contains(err@, "exec"@)),
{
    str_contains(err, "No such file") || str_contains(err, "exec")
}

/// Which cloud CLI to ask for a token.
#[derive(Debug, PartialEq, Eq, Structural)]
pub enum TokenSource {
    Gcloud,
    Aws,
    Azure,
    /// Each of them in turn.
    AnyCli,
}

/// The CLI for a context and the user it names: GKE by `gke_` in either,
/// EKS by `eks`, AKS by `aks` or an `azure` user.
pub open spec fn token_source_of(context: Seq<char>, user: Seq<char>) -> TokenSource {
    if seq_contains(context, "gke_"@) || seq_contains(user, "gke_"@) {
        TokenSource::Gcloud
    } else if seq_contains(context, "eks"@) || seq_contains(user, "eks"@) {
        TokenSource::Aws
    } else if seq_contains(context, "aks"@) || seq_contains(user, "aks"@) || seq_contains(user, "azure"@) {
        TokenSource::Azure
    } else {
        TokenSource::AnyCli
    }
}

/// Chooses the cloud CLI to get a token from.
pub fn token_source(context: &str, user: &str) -> (r: TokenSource)
    ensures
        r == token_source_of(context@, user@),
{
    if str_contains(context, "gke_") || str_contains(user, "gke_") {
        TokenSource::Gcloud
    } else if str_contains(context, "eks") || str_contains(user, "eks") {
        TokenSource::Aws
    } else if str_contains(context, "aks") || str_contains(user, "aks") || str_contains(user, "azure") {
        TokenSource::Azure
    } else {
        TokenSource::AnyCli
    }
}

/// The EKS cluster named by a context: the part after its last `/`.
pub open spec fn aws_cluster_of(context: Seq<char>) -> Seq<char> {
    match last_index(context, '/') {
        Some(i) => context.subrange(i + 1, context.len() as int),
        None => context,
    }
}

/// The EKS cluster name of a context such as
/// `arn:aws:eks:region:account:cluster/name`.
pub fn aws_cluster_name(context: &str) -> (r: String)
    ensures
        r@ == aws_cluster_of(context@),
{
    let v = chars_of(context);
    let n = v.len();
    match rfind_char(&v, '/') {
        Some(i) => string_from_range(&v, i + 1, n),
        None => string_of(context),
    }
}

/// The first place at or after `i` where `needle` occurs in `hay`.
pub open spec fn occurrence_from(hay: Seq<char>, needle: Seq<char>, i: int) -> Option<int>
    decreases hay.len() + 1 - i,
{
    if i < 0 || i > hay.len() {
        None
    } else if occurs_at(hay, needle, i) {
        Some(i)
    } else {
        occurrence_from(hay, needle, i + 1)
    }
}

/// The first place `needle` occurs in `hay`.
pub open spec fn first_occurrence(hay: Seq<char>, needle: Seq<char>) -> Option<int> {
    occurrence_from(hay, needle, 0)
}

/// The first `c` in `s` at or after `from`.
pub open spec fn next_index(s: Seq<char>, c: char, from: int) -> Option<int>
    decreases s.len() - from,
{
    if from < 0 || from >= s.len() {
        None
    } else if s[from] == c {
        Some(from)
    } else {
        next_index(s, c, from + 1)
    }
}

/// The token in the JSON an `aws eks get-token` prints: the string that
/// follows the key `"token"`, when it is not empty.
pub open spec fn aws_token_of(out: Seq<char>) -> Option<Seq<char>> {
    match first_occurrence(out, "\"token\""@) {
        Some(k) => match next_index(out, '"', k + 7) {
            Some(a) => match next_index(out, '"', a + 1) {
                Some(b) => if b > a + 1 { Some(out.subrange(a + 1, b)) } else { None },
                None => None,
            },
            None => None,
        },
        None => None,
    }
}

fn find_from(v: &Vec<char>, c: char, from: usize) -> (r: Option<usize>)
    requires
        from <= v@.len(),
    ensures
        match r {
            Some(i) => next_index(v@, c, from as int) == Some(i as int) && from <= i < v@.len(),
            None => next_index(v@, c, from as int) is None,
        },
{
    let mut i = from;
    while i < v.len()
        invariant
            from <= i <= v@.len(),
            next_index(v@, c, from as int) == next_index(v@, c, i as int),
        decreases v@.len() - i,
    {
        if v[i] == c {
            return Some(i);
        }
        i = i + 1;
    }
    None
}

fn occurs_here(v: &Vec<char>, n: &Vec<char>, i: usize) -> (r: bool)
    requires
        i <= v@.len(),
    ensures
        r == occurs_at(v@, n@, i as int),
{
    let vl = v.len();
    if n.len() > vl - i {
        return false;
    }
    let mut k: usize = 0;
    while k < n.len()
        invariant
            vl == v@.len(),
            i + n@.len() <= v@.len(),
            k <= n@.len(),
            forall|t: int| 0 <= t < k ==> v@[i + t] == n@[t],
        decreases n@.len() - k,
    {
        if v[i + k] != n[k] {
            assert(v@.subrange(i as int, i + n@.len())[k as int] != n@[k as int]);
            return false;
        }
        k = k + 1;
    }
    assert(v@.subrange(i as int, i + n@.len()) =~= n@);
    true
}

fn find_sub(v: &Vec<char>, n: &Vec<char>) -> (r: Option<usize>)
    ensures
        match r {
            Some(i) => first_occurrence(v@, n@) == Some(i as int) && occurs_at(v@, n@, i as int),
            None => first_occurrence(v@, n@) is None,
        },
{
    let vl = v.len();
    let mut i: usize = 0;
    while i < vl
        invariant
            vl == v@.len(),
            i <= vl,
            first_occurrence(v@, n@) == occurrence_from(v@, n@, i as int),
        decreases vl - i,
    {
        if occurs_here(v, n, i) {
            return Some(i);
        }
        i = i + 1;
    }
    if occurs_here(v, n, vl) {
        return Some(vl);
    }
    assert(occurrence_from(v@, n@, vl + 1) is None);
    None
}

/// Reads the token out of what `aws eks get-token --output json` prints.
pub fn parse_aws_token(out: &str) -> (r: Option<String>)
    ensures
        opt_seq(r) == aws_token_of(out@),
{
    let v = chars_of(out);
    let vl = v.len();
    let key = chars_of("\"token\"");
    proof {
        reveal_strlit("\"token\"");
        assert(key@.len() == 7);
    }
    let k = match find_sub(&v, &key) {
        Some(k) => k,
        None => return None,
    };
    let start = k + 7;
    let a = match find_from(&v, '"', start) {
        Some(a) => a,
        None => return None,
    };
    let b = match find_from(&v, '"', a + 1) {
        Some(b) => b,
        None => return None,
    };
    if b > a + 1 {
        Some(string_from_range(&v, a + 1, b))
    } else {
        None
    }
}

/// A character with the Unicode `White_Space` property, which `str::trim`
/// removes: the 25 code points U+0009 to U+000D, U+0020, U+0085, U+00A0,
/// U+1680, U+2000 to U+200A, U+2028, U+2029, U+202F, U+205F and U+3000.
pub open spec fn is_white_space(c: char) -> bool {
    ('\u{9}' <= c && c <= '\u{d}') || c == ' ' || c == '\u{85}' || c == '\u{a0}' || c == '\u{1680}'
        || ('\u{2000}' <= c && c <= '\u{200a}') || c == '\u{2028}' || c == '\u{2029}' || c == '\u{202f}'
        || c == '\u{205f}' || c == '\u{3000}'
}

/// `s` without its leading white space.
pub open spec fn trimmed_start(s: Seq<char>) -> Seq<char>
    decreases s.len(),
{
    if s.len() > 0 && is_white_space(s[0]) { trimmed_start(s.drop_first()) } else { s }
}

/// `s` without its trailing white space.
pub open spec fn trimmed_end(s: Seq<char>) -> Seq<char>
    decreases s.len(),
{
    if s.len() > 0 && is_white_space(s.last()) { trimmed_end(s.drop_last()) } else { s }
}

/// What `str::trim` gives for `s`: `s` without leading and trailing white
/// space.
pub open spec fn trimmed(s: Seq<char>) -> Seq<char> {
    trimmed_end(trimmed_start(s))
}

fn is_white_space_exec(c: char) -> (r: bool)
    ensures
        r == is_white_space(c),
{
    ('\u{9}' <= c && c <= '\u{d}') || c == ' ' || c == '\u{85}' || c == '\u{a0}' || c == '\u{1680}'
        || ('\u{2000}' <= c && c <= '\u{200a}') || c == '\u{2028}' || c == '\u{2029}' || c == '\u{202f}'
        || c == '\u{205f}' || c == '\u{3000}'
}

proof fn lemma_trimmed_start(s: Seq<char>, a: int)
    requires
        0 <= a <= s.len(),
        forall|i: int| 0 <= i < a ==> is_white_space(#[trigger] s[i]),
        a < s.len() ==> !is_white_space(s[a]),
    ensures
        trimmed_start(s) == s.subrange(a, s.len() as int),
    decreases a,
{
    if a == 0 {
        assert(s.subrange(0, s.len() as int) =~= s);
    } else {
        let d = s.drop_first();
        assert forall|i: int| 0 <= i < a - 1 implies is_white_space(#[trigger] d[i]) by {
            assert(d[i] == s[i + 1]);
        }
        if a < s.len() {
            assert(d[a - 1] == s[a]);
        }
        lemma_trimmed_start(d, a - 1);
        assert(d.subrange(a - 1, d.len() as int) =~= s.subrange(a, s.len() as int));
    }
}

proof fn lemma_trimmed_end(t: Seq<char>, b: int)
    requires
        0 <= b <= t.len(),
        forall|i: int| b <= i < t.len() ==> is_white_space(#[trigger] t[i]),
        b > 0 ==> !is_white_space(t[b - 1]),
    ensures
        trimmed_end(t) == t.subrange(0, b),
    decreases t.len() - b,
{
    if b == t.len() {
        assert(t.subrange(0, b) =~= t);
    } else {
        let d = t.drop_last();
        assert forall|i: int| b <= i < d.len() implies is_white_space(#[trigger] d[i]) by {
            assert(d[i] == t[i]);
        }
        if b > 0 {
            assert(d[b - 1] == t[b - 1]);
        }
        assert(is_white_space(t.last()));
        lemma_trimmed_end(d, b);
        assert(d.subrange(0, b) =~= t.subrange(0, b));
    }
}

/// `s` without its leading and trailing white space, as `str::trim` gives
/// it, copied into a `String`.
pub(crate) fn trim_text(s: &str) -> (r: String)
    ensures
        r@ == trimmed(s@),
{
    let v = chars_of(s);
    let n = v.len();
    let mut a: usize = 0;
    while a < n && is_white_space_exec(v[a])
        invariant
            a <= n == v@.len(),
            forall|i: int| 0 <= i < a ==> is_white_space(#[trigger] v@[i]),
        decreases n - a,
    {
        a = a + 1;
    }
    let mut b: usize = n;
    while b > a && is_white_space_exec(v[b - 1])
        invariant
            a <= b <= n == v@.len(),
            forall|i: int| b <= i < n ==> is_white_space(#[trigger] v@[i]),
        decreases b - a,
    {
        b = b - 1;
    }
    proof {
        lemma_trimmed_start(v@, a as int);
        let t = v@.subrange(a as int, n as int);
        assert forall|i: int| b - a <= i < t.len() implies is_white_space(#[trigger] t[i]) by {
            assert(t[i] == v@[a + i]);
        }
        if b > a {
            assert(t[b - a - 1] == v@[b - 1]);
        }
        lemma_trimmed_end(t, b - a);
        assert(t.subrange(0, b - a) =~= v@.subrange(a as int, b as int));
    }
    string_from_range(&v, a, b)
}

/// The token a cloud CLI printed, without surrounding white space; `empty`
/// as the error when nothing is left.
pub fn cli_token(output: &str, empty: &str) -> (r: Result<String, String>)
    ensures
        match r {
            Ok(t) => t@ == trimmed(output@) && t@.len() > 0,
            Err(e) => trimmed(output@).len() == 0 && e@ == empty@,
        },
{
    let t = trim_text(output);
    if t.as_str().is_empty() {
        Err(string_of(empty))
    } else {
        Ok(t)
    }
}


/// The platform the advice is for.
#[derive(Debug, Clone, Copy, PartialEq, Eq, Structural)]
pub enum Platform {
    MacOs,
    Windows,
    Other,
}

/// How to install the GKE auth plugin on platform `p`.
pub open spec fn gke_hint(p: Platform) -> Seq<char> {
    match p {
        Platform::MacOs => "gcloud components install gke-gcloud-auth-plugin  (or: brew install google-cloud-sdk)"@,
        Platform::Windows => "gcloud components install gke-gcloud-auth-plugin"@,
        Platform::Other => "sudo apt-get install google-cloud-cli-gke-gcloud-auth-plugin  (or: gcloud components install gke-gcloud-auth-plugin)"@,
    }
}

/// How to install the GKE auth plugin on platform `p`.
pub fn gke_install_hint(p: Platform) -> (r: &'static str)
    ensures
        r@ == gke_hint(p),
{
    match p {
        Platform::MacOs => "gcloud components install gke-gcloud-auth-plugin  (or: brew install google-cloud-sdk)",
        Platform::Windows => "gcloud components install gke-gcloud-auth-plugin",
        Platform::Other => "sudo apt-get install google-cloud-cli-gke-gcloud-auth-plugin  (or: gcloud components install gke-gcloud-auth-plugin)",
    }
}

/// How to install the EKS auth plugin on platform `p`.
pub open spec fn eks_hint(p: Platform) -> Seq<char> {
    match p {
        Platform::MacOs => "brew install aws-iam-authenticator  (or: curl -o aws-iam-authenticator https://amazon-eks.s3.us-west-2.amazonaws.com/...)"@,
        Platform::Windows => "choco install aws-iam-authenticator  (or download from AWS docs)"@,
        Platform::Other => "curl -Lo aws-iam-authenticator https://amazon-eks.s3.us-west-2.amazonaws.com/... && chmod +x aws-iam-authenticator && sudo mv aws-iam-authenticator /usr/local/bin/"@,
    }
}

/// How to install the EKS auth plugin on platform `p`.
pub fn eks_install_hint(p: Platform) -> (r: &'static str)
    ensures
        r@ == eks_hint(p),
{
    match p {
        Platform::MacOs => "brew install aws-iam-authenticator  (or: curl -o aws-iam-authenticator https://amazon-eks.s3.us-west-2.amazonaws.com/...)",
        Platform::Windows => "choco install aws-iam-authenticator  (or download from AWS docs)",
        Platform::Other => "curl -Lo aws-iam-authenticator https://amazon-eks.s3.us-west-2.amazonaws.com/... && chmod +x aws-iam-authenticator && sudo mv aws-iam-authenticator /usr/local/bin/",
    }
}

/// How to install the AKS auth plugin on platform `p`.
pub open spec fn aks_hint(p: Platform) -> Seq<char> {
    match p {
        Platform::MacOs => "brew install Azure/kubelogin/kubelogin  (or: az aks install-cli)"@,
        Platform::Windows => "az aks install-cli  (or: choco install kubelogin)"@,
        Platform::Other => "az aks install-cli  (or: sudo snap install kubelogin)"@,
    }
}

/// How to install the AKS auth plugin on platform `p`.
pub fn aks_install_hint(p: Platform) -> (r: &'static str)
    ensures
        r@ == aks_hint(p),
{
    match p {
        Platform::MacOs => "brew install Azure/kubelogin/kubelogin  (or: az aks install-cli)",
        Platform::Windows => "az aks install-cli  (or: choco install kubelogin)",
        Platform::Other => "az aks install-cli  (or: sudo snap install kubelogin)",
    }
}

/// The kind of a connection failure by its lowercased message: 0 when the
/// server cannot be reached, 1 unauthenticated, 2 forbidden, 3 a TLS
/// problem, 4 anything else.
pub open spec fn failure_kind(low: Seq<char>) -> nat {
    if seq_contains(low, "connect"@) || seq_contains(low, "connection refused"@) || seq_contains(low, "timed out"@)
        || seq_contains(low, "dns"@) || seq_contains(low, "resolve"@) {
        0
    } else if seq_contains(low, "401"@) || seq_contains(low, "unauthorized"@) {
        1
    } else if seq_contains(low, "403"@) || seq_contains(low, "forbidden"@) {
        2
    } else if seq_contains(low, "certificate"@) || seq_contains(low, "tls"@) || seq_contains(low, "ssl"@) {
        3
    } else {
        4
    }
}

fn failure_kind_exec(low: &str) -> (r: u8)
    ensures
        r as nat == failure_kind(low@),
{
    if str_contains(low, "connect") || str_contains(low, "connection refused") || str_contains(low, "timed out")
        || str_contains(low, "dns") || str_contains(low, "resolve") {
        0
    } else if str_contains(low, "401") || str_contains(low, "unauthorized") {
        1
    } else if str_contains(low, "403") || str_contains(low, "forbidden") {
        2
    } else if str_contains(low, "certificate") || str_contains(low, "tls") || str_contains(low, "ssl") {
        3
    } else {
        4
    }
}

/// The headline for a failure of kind `k` on context `ctx`.
pub open spec fn failure_title(ctx: Seq<char>, k: nat) -> Seq<char> {
    if k == 0 {
        "Connection failed to cluster '"@ + ctx + "'"@
    } else if k == 1 {
        "Authentication failed for cluster '"@ + ctx + "'"@
    } else if k == 2 {
        "Access denied to cluster '"@ + ctx + "'"@
    } else if k == 3 {
        "TLS/Certificate error for cluster '"@ + ctx + "'"@
    } else {
        "Failed to connect to cluster '"@ + ctx + "'"@
    }
}

/// The steps advised for a failure of kind `k` on context `ctx`.
pub open spec fn failure_steps(ctx: Seq<char>, p: Platform, k: nat) -> Seq<Seq<char>> {
    if k == 0 {
        seq![
            "Check if the cluster API server is reachable (VPN connected? Private cluster?)"@,
            "Verify auth plugin is installed:\n  "@ + gke_hint(p) + "\n  "@ + eks_hint(p) + "\n  "@ + aks_hint(p),
            "Re-authenticate and refresh credentials:\n  GKE: gcloud auth login && gcloud container clusters get-credentials <CLUSTER> --region <REGION> --project <PROJECT>\n  EKS: aws sso login --profile <PROFILE>\n  AKS: az login && az aks get-credentials --resource-group <RG> --name <CLUSTER>"@,
            "Check firewall or proxy settings are not blocking the connection"@,
            "Test with kubectl: kubectl --context "@ + ctx + " get namespaces"@,
        ]
    } else if k == 1 {
        seq![
            "Your token has expired. Re-authenticate:\n  GKE: gcloud auth login\n  EKS: aws sso login --profile <PROFILE>\n  AKS: az login"@,
            "Refresh kubeconfig credentials:\n  GKE: gcloud container clusters get-credentials <CLUSTER> --region <REGION> --project <PROJECT>\n  EKS: aws eks update-kubeconfig --name <CLUSTER> --region <REGION>\n  AKS: az aks get-credentials --resource-group <RG> --name <CLUSTER>"@,
            "Check if your account has RBAC access to the cluster"@,
            "Test with kubectl: kubectl --context "@ + ctx + " auth whoami"@,
        ]
    } else if k == 2 {
        seq![
            "Your credentials are valid but you lack permissions on this cluster"@,
            "Ask your cluster admin to grant you the appropriate RBAC role"@,
            "Check your permissions: kubectl --context "@ + ctx + " auth can-i --list"@,
        ]
    } else if k == 3 {
        seq![
            "The cluster's CA certificate may be invalid or expired"@,
            "Refresh your kubeconfig to get updated certificates:\n  GKE: gcloud container clusters get-credentials <CLUSTER> --region <REGION>\n  EKS: aws eks update-kubeconfig --name <CLUSTER>\n  AKS: az aks get-credentials --resource-group <RG> --name <CLUSTER>"@,
            "If using a corporate proxy, ensure its CA cert is trusted by your OS"@,
        ]
    } else {
        seq![
            "Test with kubectl: kubectl --context "@ + ctx + " get namespaces"@,
            "Check your kubeconfig: kubectl config view"@,
            "Re-authenticate if needed:\n  GKE: gcloud auth login\n  EKS: aws sso login\n  AKS: az login"@,
        ]
    }
}

/// Steps numbered from 1, each on a line of its own: `\n1. ...`.
pub open spec fn numbered(steps: Seq<Seq<char>>) -> Seq<char>
    decreases steps.len(),
{
    if steps.len() == 0 {
        Seq::empty()
    } else {
        numbered(steps.drop_last()) + "\n"@ + dec_repr(steps.len()) + ". "@ + steps.last()
    }
}

/// The message shown when context `ctx` cannot be reached with error
/// `err`: a headline, the error, and numbered steps to fix it.
pub open spec fn connection_error_text(ctx: Seq<char>, err: Seq<char>, p: Platform) -> Seq<char> {
    let k = failure_kind(lowercase(err));
    failure_title(ctx, k) + "\n\nError: "@ + err + "\n\nHow to fix:"@ + numbered(failure_steps(ctx, p, k))
}

fn failure_steps_exec(ctx: &str, p: Platform, k: u8) -> (r: Vec<String>)
    requires
        k <= 4,
    ensures
        views(r@) == failure_steps(ctx@, p, k as nat),
{
    let mut v: Vec<String> = Vec::new();
    if k == 0 {
        {
            let mut s = String::new();
            s.append("Check if the cluster API server is reachable (VPN connected? Private cluster?)");
            v.push(s);
        }
        {
            let mut s = String::new();
            s.append("Verify auth plugin is installed:\n  ");
            s.append(gke_install_hint(p));
            s.append("\n  ");
            s.append(eks_install_hint(p));
            s.append("\n  ");
            s.append(aks_install_hint(p));
            v.push(s);
        }
        {
            let mut s = String::new();
            s.append("Re-authenticate and refresh credentials:\n  GKE: gcloud auth login && gcloud container clusters get-credentials <CLUSTER> --region <REGION> --project <PROJECT>\n  EKS: aws sso login --profile <PROFILE>\n  AKS: az login && az aks get-credentials --resource-group <RG> --name <CLUSTER>");
            v.push(s);
        }
        {
            let mut s = String::new();
            s.append("Check firewall or proxy settings are not blocking the connection");
            v.push(s);
        }
        {
            let mut s = String::new();
            s.append("Test with kubectl: kubectl --context ");
            s.append(ctx);
            s.append(" get namespaces");
            v.push(s);
        }
        assert(views(v@) =~= failure_steps(ctx@, p, k as nat));
    } else if k == 1 {
        {
            let mut s = String::new();
            s.append("Your token has expired. Re-authenticate:\n  GKE: gcloud auth login\n  EKS: aws sso login --profile <PROFILE>\n  AKS: az login");
            v.push(s);
        }
        {
            let mut s = String::new();
            s.append("Refresh kubeconfig credentials:\n  GKE: gcloud container clusters get-credentials <CLUSTER> --region <REGION> --project <PROJECT>\n  EKS: aws eks update-kubeconfig --name <CLUSTER> --region <REGION>\n  AKS: az aks get-credentials --resource-group <RG> --name <CLUSTER>");
            v.push(s);
        }
        {
            let mut s = String::new();
            s.append("Check if your account has RBAC access to the cluster");
            v.push(s);
        }
        {
            let mut s = String::new();
            s.append("Test with kubectl: kubectl --context ");
            s.append(ctx);
            s.append(" auth whoami");
            v.push(s);
        }
        assert(views(v@) =~= failure_steps(ctx@, p, k as nat));
    } else if k == 2 {
        {
            let mut s = String::new();
            s.append("Your credentials are valid but you lack permissions on this cluster");
            v.push(s);
        }
        {
            let mut s = String::new();
            s.append("Ask your cluster admin to grant you the appropriate RBAC role");
            v.push(s);
        }
        {
            let mut s = String::new();
            s.append("Check your permissions: kubectl --context ");
            s.append(ctx);
            s.append(" auth can-i --list");
            v.push(s);
        }
        assert(views(v@) =~= failure_steps(ctx@, p, k as nat));
    } else if k == 3 {
        {
            let mut s = String::new();
            s.append("The cluster's CA certificate may be invalid or expired");
            v.push(s);
        }
        {
            let mut s = String::new();
            s.append("Refresh your kubeconfig to get updated certificates:\n  GKE: gcloud container clusters get-credentials <CLUSTER> --region <REGION>\n  EKS: aws eks update-kubeconfig --name <CLUSTER>\n  AKS: az aks get-credentials --resource-group <RG> --name <CLUSTER>");
            v.push(s);
        }
        {
            let mut s = String::new();
            s.append("If using a corporate proxy, ensure its CA cert is trusted by your OS");
            v.push(s);
        }
        assert(views(v@) =~= failure_steps(ctx@, p, k as nat));
    } else {
        {
            let mut s = String::new();
            s.append("Test with kubectl: kubectl --context ");
            s.append(ctx);
            s.append(" get namespaces");
            v.push(s);
        }
        {
            let mut s = String::new();
            s.append("Check your kubeconfig: kubectl config view");
            v.push(s);
        }
        {
            let mut s = String::new();
            s.append("Re-authenticate if needed:\n  GKE: gcloud auth login\n  EKS: aws sso login\n  AKS: az login");
            v.push(s);
        }
        assert(views(v@) =~= failure_steps(ctx@, p, k as nat));
    }
    v
}

fn failure_title_exec(ctx: &str, k: u8) -> (r: String)
    requires
        k <= 4,
    ensures
        r@ == failure_title(ctx@, k as nat),
{
    let mut s = String::new();
    if k == 0 {
        s.append("Connection failed to cluster '");
    } else if k == 1 {
        s.append("Authentication failed for cluster '");
    } else if k == 2 {
        s.append("Access denied to cluster '");
    } else if k == 3 {
        s.append("TLS/Certificate error for cluster '");
    } else {
        s.append("Failed to connect to cluster '");
    }
    s.append(ctx);
    s.append("'");
    s
}

/// The message shown when context `context_name` cannot be reached with
/// error `err`, advice given for platform `p`.
pub fn format_connection_error(context_name: &str, err: &str, p: Platform) -> (r: String)
    ensures
        r@ == connection_error_text(context_name@, err@, p),
{
    let low = to_lower(err);
    let k = failure_kind_exec(low.as_str());
    let steps = failure_steps_exec(context_name, p, k);
    let mut msg = failure_title_exec(context_name, k);
    msg.append("\n\nError: ");
    msg.append(err);
    msg.append("\n\nHow to fix:");
    let ghost head = msg@;
    let mut i: usize = 0;
    proof {
        assert(steps@.subrange(0, 0) =~= Seq::<String>::empty());
        assert(views(steps@.subrange(0, 0)) =~= Seq::<Seq<char>>::empty());
        assert(msg@ =~= head + numbered(views(steps@.subrange(0, 0))));
    }
    while i < steps.len()
        invariant
            i <= steps@.len(),
            msg@ == head + numbered(views(steps@.subrange(0, i as int))),
        decreases steps@.len() - i,
    {
        let ghost prev = views(steps@.subrange(0, i as int));
        msg.append("\n");
        append_u64(&mut msg, (i + 1) as u64);
        msg.append(". ");
        msg.append(steps[i].as_str());
        proof {
            let cur = views(steps@.subrange(0, i + 1));
            assert(cur.drop_last() =~= prev);
            assert(cur.last() == steps@[i as int]@);
            assert(cur.len() == i + 1);
            assert(msg@ =~= head + numbered(cur));
        }
        i = i + 1;
    }
    proof {
        assert(steps@.subrange(0, steps@.len() as int) =~= steps@);
    }
    msg
}

} // verus!
