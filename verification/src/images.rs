//! Container image scan: where each image comes from, static findings
//! about its tag, pull policy, base and registry, vulnerability counts from
//! a scanner report, and risk scores.
use vstd::prelude::*;
use crate::json::{Json, at, array_of, str_of, str_or, get, as_array, as_str, str_or_default};
use crate::model::{Pod, Container, ContainerStatus, StrMap, opt_view, opt_view_or, unwrap_or_empty, unwrap_or_str};
use crate::order::{Ordered, sort_ordered, sort_stable};
use crate::summary::{short_message, cuttable, short_message_exec};
use crate::text::{first_index, last_index, seq_contains, views, string_of, str_eq, str_contains, chars_of,
    string_from_range, rfind_char, find_char, str_has_char, lowercase, uppercase, to_lower, to_upper, join_seq,
    vec_has, clone_strings};

verus! {

#[derive(Debug)]
pub struct ImageFinding {
    pub severity: String,
    pub title: String,
    pub description: String,
}

#[derive(Debug)]
pub struct CveDetail {
    pub id: String,
    pub severity: String,
    pub pkg_name: String,
    pub installed_version: String,
    pub fixed_version: String,
    pub title: String,
}

#[derive(Debug)]
pub struct CveSummary {
    pub critical: usize,
    pub high: usize,
    pub medium: usize,
    pub low: usize,
    pub unknown: usize,
    pub total: usize,
    pub top_cves: Vec<CveDetail>,
}

#[derive(Debug)]
pub struct ContainerImageInfo {
    pub container_name: String,
    pub image: String,
    pub image_id: String,
    pub registry: String,
    pub repository: String,
    pub tag: String,
    pub pull_policy: String,
    pub pod_name: String,
    pub findings: Vec<ImageFinding>,
}

#[derive(Debug)]
pub struct UniqueImage {
    pub image: String,
    pub registry: String,
    pub repository: String,
    pub tag: String,
    pub used_by: Vec<String>,
    pub pod_count: usize,
    pub findings: Vec<ImageFinding>,
    pub risk_score: u32,
    pub cve_summary: Option<CveSummary>,
    pub trivy_scanned: bool,
    pub trivy_error: Option<String>,
}

#[derive(Debug)]
pub struct ImageScanResult {
    pub workload_name: String,
    pub workload_kind: String,
    pub namespace: String,
    pub total_images: usize,
    pub unique_images: usize,
    pub total_findings: usize,
    pub critical_count: usize,
    pub high_count: usize,
    pub medium_count: usize,
    pub low_count: usize,
    pub images: Vec<UniqueImage>,
    pub all_containers: Vec<ContainerImageInfo>,
    pub overall_risk: u32,
    pub trivy_available: bool,
}

pub struct ImageFindingView {
    pub severity: Seq<char>,
    pub title: Seq<char>,
    pub description: Seq<char>,
}

impl View for ImageFinding {
    type V = ImageFindingView;

    open spec fn view(&self) -> ImageFindingView {
        ImageFindingView { severity: self.severity@, title: self.title@, description: self.description@ }
    }
}

pub open spec fn ifviews(v: Seq<ImageFinding>) -> Seq<ImageFindingView> {
    v.map_values(|f: ImageFinding| f@)
}

// ---- image references ----

/// The image reference and tag: after the last `@` a digest, else after
/// the last `:` unless a `/` follows it, else `latest`.
pub open spec fn ref_and_tag(s: Seq<char>) -> (Seq<char>, Seq<char>) {
    match last_index(s, '@') {
        Some(i) => (s.subrange(0, i), s.subrange(i + 1, s.len() as int)),
        None => match last_index(s, ':') {
            Some(i) => {
                let after = s.subrange(i + 1, s.len() as int);
                if after.contains('/') { (s, "latest"@) } else { (s.subrange(0, i), after) }
            },
            None => (s, "latest"@),
        },
    }
}

/// Registry, repository and tag of an image: a first path part that
/// names a host (or any first part of three or more) is the registry,
/// else the image is on Docker Hub, under `library/` when unqualified.
pub open spec fn image_parts(s: Seq<char>) -> (Seq<char>, Seq<char>, Seq<char>) {
    let (r, tag) = ref_and_tag(s);
    match first_index(r, '/') {
        None => ("docker.io"@, "library/"@ + r, tag),
        Some(i) => {
            let first = r.subrange(0, i);
            let rest = r.subrange(i + 1, r.len() as int);
            if rest.contains('/') || first.contains('.') || first.contains(':') {
                (first, rest, tag)
            } else {
                ("docker.io"@, r, tag)
            }
        },
    }
}

proof fn lemma_last_index_none(s: Seq<char>, c: char)
    requires
        !s.contains(c),
    ensures
        last_index(s, c) is None,
    decreases s.len(),
{
    if s.len() > 0 {
        assert(s.last() == s[s.len() - 1]);
        assert(!s.drop_last().contains(c)) by {
            assert forall|i: int| 0 <= i < s.drop_last().len() implies s.drop_last()[i] != c by {
                assert(s.drop_last()[i] == s[i]);
            }
        }
        lemma_last_index_none(s.drop_last(), c);
    }
}

proof fn lemma_last_index_append(a: Seq<char>, b: Seq<char>, c: char)
    requires
        !b.contains(c),
    ensures
        last_index(a + b, c) == last_index(a, c),
    decreases b.len(),
{
    if b.len() == 0 {
        assert(a + b =~= a);
    } else {
        assert((a + b).last() == b[b.len() - 1]);
        assert((a + b).drop_last() =~= a + b.drop_last());
        assert(!b.drop_last().contains(c)) by {
            assert forall|i: int| 0 <= i < b.drop_last().len() implies b.drop_last()[i] != c by {
                assert(b.drop_last()[i] == b[i]);
            }
        }
        lemma_last_index_append(a, b.drop_last(), c);
    }
}

proof fn lemma_first_index_after(a: Seq<char>, b: Seq<char>, c: char)
    requires
        !a.contains(c),
        b.len() > 0,
        b[0] == c,
    ensures
        first_index(a + b, c) == Some(a.len() as int),
    decreases a.len(),
{
    if a.len() == 0 {
        assert(a + b =~= b);
    } else {
        assert((a + b)[0] == a[0]);
        assert((a + b).drop_first() =~= a.drop_first() + b);
        assert(!a.drop_first().contains(c)) by {
            assert forall|i: int| 0 <= i < a.drop_first().len() implies a.drop_first()[i] != c by {
                assert(a.drop_first()[i] == a[i + 1]);
            }
        }
        lemma_first_index_after(a.drop_first(), b, c);
    }
}

/// An image written `registry/path:tag`, where the registry names a host
/// (it holds a `.`) and no part holds a character that separates another,
/// splits into exactly that registry, path and tag.
pub proof fn law_registry_path_tag_splits(r: Seq<char>, p: Seq<char>, t: Seq<char>)
    requires
        r.contains('.'),
        !r.contains('/') && !r.contains(':') && !r.contains('@'),
        !p.contains(':') && !p.contains('@'),
        !t.contains('/') && !t.contains(':') && !t.contains('@'),
    ensures
        image_parts(r + seq!['/'] + p + seq![':'] + t) == (r, p, t),
{
    let rp = r + seq!['/'] + p;
    let x = rp + seq![':'];
    let s = x + t;
    assert(!s.contains('@')) by {
        assert forall|i: int| 0 <= i < s.len() implies s[i] != '@' by {
            if i < r.len() {
                assert(s[i] == r[i]);
            } else if i == r.len() {
                assert(s[i] == '/');
            } else if i < r.len() + 1 + p.len() {
                assert(s[i] == p[i - r.len() - 1]);
            } else if i == r.len() + 1 + p.len() {
                assert(s[i] == ':');
            } else {
                assert(s[i] == t[i - r.len() - 2 - p.len()]);
            }
        }
    }
    lemma_last_index_none(s, '@');
    lemma_last_index_append(x, t, ':');
    assert(x.last() == ':');
    assert(x.drop_last() =~= rp);
    assert(last_index(x, ':') == Some(rp.len() as int));
    assert(s.subrange(rp.len() + 1int, s.len() as int) =~= t);
    assert(s.subrange(0, rp.len() as int) =~= rp);
    assert(ref_and_tag(s) == (rp, t));
    assert(rp =~= r + (seq!['/'] + p));
    lemma_first_index_after(r, seq!['/'] + p, '/');
    assert(rp.subrange(0, r.len() as int) =~= r);
    assert(rp.subrange(r.len() + 1int, rp.len() as int) =~= p);
}

/// Splits an image into registry, repository and tag.
pub fn parse_image(full_image: &str) -> (r: (String, String, String))
    ensures
        (r.0@, r.1@, r.2@) == image_parts(full_image@),
{
    let v = chars_of(full_image);
    let n = v.len();
    let (rv, tag): (Vec<char>, String) = match rfind_char(&v, '@') {
        Some(i) => {
            let r = chars_of(string_from_range(&v, 0, i).as_str());
            (r, string_from_range(&v, i + 1, n))
        },
        None => match rfind_char(&v, ':') {
            Some(i) => {
                let after = string_from_range(&v, i + 1, n);
                if str_has_char(after.as_str(), '/') {
                    (chars_of(full_image), string_of("latest"))
                } else {
                    (chars_of(string_from_range(&v, 0, i).as_str()), after)
                }
            },
            None => (chars_of(full_image), string_of("latest")),
        },
    };
    assert((rv@, tag@) == ref_and_tag(full_image@));
    let rn = rv.len();
    match find_char(&rv, '/') {
        None => {
            let mut repo = string_of("library/");
            let whole = string_from_range(&rv, 0, rn);
            assert(rv@.subrange(0, rn as int) =~= rv@);
            repo.append(whole.as_str());
            (string_of("docker.io"), repo, tag)
        },
        Some(i) => {
            let first = string_from_range(&rv, 0, i);
            let rest = string_from_range(&rv, i + 1, rn);
            if str_has_char(rest.as_str(), '/') || str_has_char(first.as_str(), '.') || str_has_char(first.as_str(), ':') {
                (first, rest, tag)
            } else {
                assert(rv@.subrange(0, rn as int) =~= rv@);
                (string_of("docker.io"), string_from_range(&rv, 0, rn), tag)
            }
        },
    }
}

// ---- static findings ----

/// Base images past their end of life: a pattern and what it means.
pub open spec fn eol_list() -> Seq<(Seq<char>, Seq<char>)> {
    seq![
        ("python:2"@, "Python 2 is end-of-life"@),
        ("node:8"@, "Node.js 8 is end-of-life"@),
        ("node:10"@, "Node.js 10 is end-of-life"@),
        ("node:12"@, "Node.js 12 is end-of-life"@),
        ("node:14"@, "Node.js 14 is end-of-life"@),
        ("node:15"@, "Node.js 15 is end-of-life"@),
        ("ubuntu:14"@, "Ubuntu 14.04 is end-of-life"@),
        ("ubuntu:16"@, "Ubuntu 16.04 is end-of-life"@),
        ("ubuntu:18"@, "Ubuntu 18.04 end of standard support"@),
        ("debian:8"@, "Debian 8 is end-of-life"@),
        ("debian:9"@, "Debian 9 is end-of-life"@),
        ("centos:6"@, "CentOS 6 is end-of-life"@),
        ("centos:7"@, "CentOS 7 is end-of-life"@),
        ("centos:8"@, "CentOS 8 is end-of-life"@),
        ("alpine:3.12"@, "Alpine 3.12 is unsupported"@),
        ("alpine:3.13"@, "Alpine 3.13 is unsupported"@),
    ]
}

/// The first end-of-life pattern found in the lowercased image, or in it
/// followed by `:` and the tag.
pub open spec fn eol_match(list: Seq<(Seq<char>, Seq<char>)>, lower: Seq<char>, tag: Seq<char>) -> Option<Seq<char>>
    decreases list.len(),
{
    if list.len() == 0 {
        None
    } else if seq_contains(lower, list[0].0) || seq_contains(lower + ":"@ + tag, list[0].0) {
        Some(list[0].1)
    } else {
        eol_match(list.drop_first(), lower, tag)
    }
}

pub open spec fn ifinding(sev: Seq<char>, title: Seq<char>, desc: Seq<char>) -> ImageFindingView {
    ImageFindingView { severity: sev, title: title, description: desc }
}

/// The static findings about an image.
pub open spec fn image_findings(image: Seq<char>, tag: Seq<char>, pull_policy: Seq<char>, registry: Seq<char>) -> Seq<ImageFindingView> {
    (if tag == "latest"@ {
        seq![ifinding("high"@, "Using :latest tag"@,
            "Mutable tag \u{2014} deployments are non-reproducible. Pin to a specific version or digest."@)]
    } else { Seq::empty() })
    + (if tag.len() == 0 {
        seq![ifinding("high"@, "No image tag specified"@, "Defaults to :latest. Always specify an explicit tag."@)]
    } else { Seq::empty() })
    + (if pull_policy == "Never"@ {
        seq![ifinding("medium"@, "Pull policy: Never"@, "Image will never be pulled. Ensure it exists on all nodes."@)]
    } else { Seq::empty() })
    + (match eol_match(eol_list(), lowercase(image), tag) {
        Some(msg) => seq![ifinding("critical"@, "End-of-life base image"@, msg + ". Upgrade to a supported version."@)],
        None => Seq::empty(),
    })
    + (if registry == "docker.io"@ {
        seq![ifinding("info"@, "Docker Hub registry"@, "Consider a private registry for production to avoid rate limits."@)]
    } else { Seq::empty() })
}

fn make_ifinding(sev: &str, title: &str, desc: String) -> (r: ImageFinding)
    ensures
        r@ == ifinding(sev@, title@, desc@),
{
    ImageFinding { severity: string_of(sev), title: string_of(title), description: desc }
}

fn push_ifinding(v: &mut Vec<ImageFinding>, f: ImageFinding)
    ensures
        ifviews(final(v)@) == ifviews(old(v)@).push(f@),
{
    v.push(f);
    assert(ifviews(final(v)@) =~= ifviews(old(v)@).push(f@));
}

fn eol_patterns() -> (r: Vec<(&'static str, &'static str)>)
    ensures
        r@.map_values(|p: (&str, &str)| (p.0@, p.1@)) == eol_list(),
{
    let mut v: Vec<(&'static str, &'static str)> = Vec::new();
    v.push(("python:2", "Python 2 is end-of-life"));
    v.push(("node:8", "Node.js 8 is end-of-life"));
    v.push(("node:10", "Node.js 10 is end-of-life"));
    v.push(("node:12", "Node.js 12 is end-of-life"));
    v.push(("node:14", "Node.js 14 is end-of-life"));
    v.push(("node:15", "Node.js 15 is end-of-life"));
    v.push(("ubuntu:14", "Ubuntu 14.04 is end-of-life"));
    v.push(("ubuntu:16", "Ubuntu 16.04 is end-of-life"));
    v.push(("ubuntu:18", "Ubuntu 18.04 end of standard support"));
    v.push(("debian:8", "Debian 8 is end-of-life"));
    v.push(("debian:9", "Debian 9 is end-of-life"));
    v.push(("centos:6", "CentOS 6 is end-of-life"));
    v.push(("centos:7", "CentOS 7 is end-of-life"));
    v.push(("centos:8", "CentOS 8 is end-of-life"));
    v.push(("alpine:3.12", "Alpine 3.12 is unsupported"));
    v.push(("alpine:3.13", "Alpine 3.13 is unsupported"));
    assert(v@.map_values(|p: (&str, &str)| (p.0@, p.1@)) =~= eol_list());
    v
}

fn find_eol(lower: &str, tag: &str) -> (r: Option<&'static str>)
    ensures
        match r {
            Some(m) => eol_match(eol_list(), lower@, tag@) == Some(m@),
            None => eol_match(eol_list(), lower@, tag@) is None,
        },
{
    let pats = eol_patterns();
    let ghost pv = pats@.map_values(|p: (&str, &str)| (p.0@, p.1@));
    let mut with_tag = string_of(lower);
    with_tag.append(":");
    with_tag.append(tag);
    let mut i: usize = 0;
    assert(pv.subrange(0, pv.len() as int) =~= pv);
    while i < pats.len()
        invariant
            i <= pats@.len(),
            pv == pats@.map_values(|p: (&str, &str)| (p.0@, p.1@)),
            pv == eol_list(),
            with_tag@ == lower@ + ":"@ + tag@,
            eol_match(eol_list(), lower@, tag@) == eol_match(pv.subrange(i as int, pv.len() as int), lower@, tag@),
        decreases pats@.len() - i,
    {
        let ghost rest = pv.subrange(i as int, pv.len() as int);
        assert(rest.drop_first() =~= pv.subrange(i + 1, pv.len() as int));
        assert(rest[0] == (pats@[i as int].0@, pats@[i as int].1@));
        let (pat, msg) = pats[i];
        if str_contains(lower, pat) || str_contains(with_tag.as_str(), pat) {
            return Some(msg);
        }
        i = i + 1;
    }
    None
}

/// The static findings about an image, its tag, pull policy and registry.
pub fn analyze_image(image: &str, tag: &str, pull_policy: &str, registry: &str) -> (r: Vec<ImageFinding>)
    ensures
        ifviews(r@) == image_findings(image@, tag@, pull_policy@, registry@),
{
    let mut findings: Vec<ImageFinding> = Vec::new();
    let ghost p1 = if tag@ == "latest"@ {
        seq![ifinding("high"@, "Using :latest tag"@,
            "Mutable tag \u{2014} deployments are non-reproducible. Pin to a specific version or digest."@)]
    } else { Seq::<ImageFindingView>::empty() };
    let ghost p2 = if tag@.len() == 0 {
        seq![ifinding("high"@, "No image tag specified"@, "Defaults to :latest. Always specify an explicit tag."@)]
    } else { Seq::<ImageFindingView>::empty() };
    let ghost p3 = if pull_policy@ == "Never"@ {
        seq![ifinding("medium"@, "Pull policy: Never"@, "Image will never be pulled. Ensure it exists on all nodes."@)]
    } else { Seq::<ImageFindingView>::empty() };
    let ghost p4 = match eol_match(eol_list(), lowercase(image@), tag@) {
        Some(msg) => seq![ifinding("critical"@, "End-of-life base image"@, msg + ". Upgrade to a supported version."@)],
        None => Seq::<ImageFindingView>::empty(),
    };
    if str_eq(tag, "latest") {
        push_ifinding(&mut findings, make_ifinding("high", "Using :latest tag",
            string_of("Mutable tag \u{2014} deployments are non-reproducible. Pin to a specific version or digest.")));
    }
    assert(ifviews(findings@) =~= p1);
    if tag.unicode_len() == 0 {
        push_ifinding(&mut findings, make_ifinding("high", "No image tag specified",
            string_of("Defaults to :latest. Always specify an explicit tag.")));
    }
    assert(ifviews(findings@) =~= p1 + p2);
    if str_eq(pull_policy, "Never") {
        push_ifinding(&mut findings, make_ifinding("medium", "Pull policy: Never",
            string_of("Image will never be pulled. Ensure it exists on all nodes.")));
    }
    assert(ifviews(findings@) =~= p1 + p2 + p3);
    let lower = to_lower(image);
    match find_eol(lower.as_str(), tag) {
        Some(msg) => {
            let mut d = string_of(msg);
            d.append(". Upgrade to a supported version.");
            push_ifinding(&mut findings, make_ifinding("critical", "End-of-life base image", d));
        },
        None => {},
    }
    assert(ifviews(findings@) =~= p1 + p2 + p3 + p4);
    if str_eq(registry, "docker.io") {
        push_ifinding(&mut findings, make_ifinding("info", "Docker Hub registry",
            string_of("Consider a private registry for production to avoid rate limits.")));
    }
    assert(ifviews(findings@) =~= image_findings(image@, tag@, pull_policy@, registry@));
    findings
}

// ---- scanner reports ----

pub struct CveView {
    pub id: Seq<char>,
    pub severity: Seq<char>,
    pub pkg_name: Seq<char>,
    pub installed_version: Seq<char>,
    pub fixed_version: Seq<char>,
    pub title: Seq<char>,
}

impl View for CveDetail {
    type V = CveView;

    open spec fn view(&self) -> CveView {
        CveView {
            id: self.id@,
            severity: self.severity@,
            pkg_name: self.pkg_name@,
            installed_version: self.installed_version@,
            fixed_version: self.fixed_version@,
            title: self.title@,
        }
    }
}

pub open spec fn cviews(v: Seq<CveDetail>) -> Seq<CveView> {
    v.map_values(|c: CveDetail| c@)
}

pub open spec fn opt_array(j: Option<Json>) -> Seq<Json> {
    match array_of(j) {
        Some(a) => a,
        None => Seq::empty(),
    }
}

/// The vulnerabilities of each result, in order.
pub open spec fn vulns_in(results: Seq<Json>) -> Seq<Json>
    decreases results.len(),
{
    if results.len() == 0 {
        Seq::empty()
    } else {
        vulns_in(results.drop_last()) + opt_array(at(Some(results.last()), "Vulnerabilities"@))
    }
}

/// Every vulnerability of a scanner report.
pub open spec fn report_vulns(j: Json) -> Seq<Json> {
    vulns_in(opt_array(at(Some(j), "Results"@)))
}

pub open spec fn vuln_severity(v: Json) -> Seq<char> {
    uppercase(str_or(at(Some(v), "Severity"@), "UNKNOWN"@))
}

pub open spec fn vuln_title(v: Json) -> Seq<char> {
    match str_of(at(Some(v), "Title"@)) {
        Some(t) => t,
        None => str_or(at(Some(v), "Description"@), Seq::empty()),
    }
}

pub open spec fn vuln_view(v: Json) -> CveView {
    CveView {
        id: str_or(at(Some(v), "VulnerabilityID"@), Seq::empty()),
        severity: lowercase(vuln_severity(v)),
        pkg_name: str_or(at(Some(v), "PkgName"@), Seq::empty()),
        installed_version: str_or(at(Some(v), "InstalledVersion"@), Seq::empty()),
        fixed_version: str_or(at(Some(v), "FixedVersion"@), Seq::empty()),
        title: short_message(vuln_title(v)),
    }
}

pub open spec fn count_vuln_sev(vs: Seq<Json>, sev: Seq<char>) -> nat
    decreases vs.len(),
{
    if vs.len() == 0 {
        0
    } else {
        count_vuln_sev(vs.drop_last(), sev) + if vuln_severity(vs.last()) == sev { 1nat } else { 0nat }
    }
}

pub open spec fn is_graded(sev: Seq<char>) -> bool {
    sev == "CRITICAL"@ || sev == "HIGH"@ || sev == "MEDIUM"@ || sev == "LOW"@
}

pub open spec fn count_vuln_other(vs: Seq<Json>) -> nat
    decreases vs.len(),
{
    if vs.len() == 0 {
        0
    } else {
        count_vuln_other(vs.drop_last()) + if !is_graded(vuln_severity(vs.last())) { 1nat } else { 0nat }
    }
}

/// The rank of a severity: critical first.
pub open spec fn sev_rank(s: Seq<char>) -> nat {
    if s == "critical"@ { 0 } else if s == "high"@ { 1 } else if s == "medium"@ { 2 } else if s == "low"@ { 3 } else { 4 }
}

impl Ordered for CveDetail {
    open spec fn before(a: CveDetail, b: CveDetail) -> bool {
        sev_rank(a.severity@) < sev_rank(b.severity@)
    }

    proof fn lemma_asymmetric(a: CveDetail, b: CveDetail) {
    }

    proof fn lemma_not_before_transitive(a: CveDetail, b: CveDetail, c: CveDetail) {
    }

    fn is_before(&self, other: &CveDetail) -> (r: bool) {
        rank(self.severity.as_str()) < rank(other.severity.as_str())
    }
}

fn rank(s: &str) -> (r: u8)
    ensures
        r == sev_rank(s@),
{
    if str_eq(s, "critical") { 0 } else if str_eq(s, "high") { 1 } else if str_eq(s, "medium") { 2 } else if str_eq(s, "low") { 3 } else { 4 }
}

/// Every title of a report can be shortened.
pub open spec fn titles_cuttable(vs: Seq<Json>) -> bool {
    forall|i: int| 0 <= i < vs.len() ==> cuttable(vuln_title(#[trigger] vs[i]))
}

pub struct CveSummaryView {
    pub critical: nat,
    pub high: nat,
    pub medium: nat,
    pub low: nat,
    pub unknown: nat,
    pub total: nat,
}

/// The counts of a report's vulnerabilities by severity.
pub open spec fn report_counts(vs: Seq<Json>) -> CveSummaryView {
    let c = count_vuln_sev(vs, "CRITICAL"@);
    let h = count_vuln_sev(vs, "HIGH"@);
    let m = count_vuln_sev(vs, "MEDIUM"@);
    let l = count_vuln_sev(vs, "LOW"@);
    let u = count_vuln_other(vs);
    CveSummaryView { critical: c, high: h, medium: m, low: l, unknown: u, total: c + h + m + l + u }
}

pub open spec fn summary_counts(s: CveSummary) -> CveSummaryView {
    CveSummaryView { critical: s.critical as nat, high: s.high as nat, medium: s.medium as nat, low: s.low as nat,
        unknown: s.unknown as nat, total: s.total as nat }
}

fn vuln_detail(v: &Json) -> (r: CveDetail)
    requires
        cuttable(vuln_title(*v)),
    ensures
        r@ == vuln_view(*v),
{
    let sev = to_upper(str_or_default(get(Some(v), "Severity"), "UNKNOWN").as_str());
    let title_raw: String = match as_str(get(Some(v), "Title")) {
        Some(t) => string_of(t.as_str()),
        None => str_or_default(get(Some(v), "Description"), ""),
    };
    proof {
        reveal_strlit("");
    }
    assert(title_raw@ == vuln_title(*v));
    let id = str_or_default(get(Some(v), "VulnerabilityID"), "");
    assert(id@ == str_or(at(Some(*v), "VulnerabilityID"@), Seq::empty()));
    let lsev = to_lower(sev.as_str());
    assert(lsev@ == lowercase(vuln_severity(*v)));
    let pkg_name = str_or_default(get(Some(v), "PkgName"), "");
    let installed_version = str_or_default(get(Some(v), "InstalledVersion"), "");
    let fixed_version = str_or_default(get(Some(v), "FixedVersion"), "");
    let title = short_message_exec(title_raw.as_str());
    assert(pkg_name@ == str_or(at(Some(*v), "PkgName"@), Seq::empty()));
    assert(installed_version@ == str_or(at(Some(*v), "InstalledVersion"@), Seq::empty()));
    assert(fixed_version@ == str_or(at(Some(*v), "FixedVersion"@), Seq::empty()));
    assert(title@ == short_message(vuln_title(*v)));
    CveDetail { id, severity: lsev, pkg_name, installed_version, fixed_version, title }
}

/// The vulnerabilities of a scanner report (`Results[].Vulnerabilities[]`)
/// counted by severity, with the twenty most severe, most severe first.
pub fn summarize_report(j: &Json) -> (r: CveSummary)
    requires
        titles_cuttable(report_vulns(*j)),
        report_vulns(*j).len() <= usize::MAX,
    ensures
        summary_counts(r) == report_counts(report_vulns(*j)),
        exists|u: Seq<CveDetail>| #![trigger sort_ordered(u)]
            cviews(u) == report_vulns(*j).map_values(|v: Json| vuln_view(v))
            && r.top_cves@ == sort_ordered(u).take(if u.len() > 20 { 20 } else { u.len() as int }),
{
    let ghost vs = report_vulns(*j);
    let mut c: usize = 0;
    let mut h: usize = 0;
    let mut m: usize = 0;
    let mut l: usize = 0;
    let mut o: usize = 0;
    let mut details: Vec<CveDetail> = Vec::new();
    let results = as_array(get(Some(j), "Results"));
    match results {
        Some(rs) => {
            let mut i: usize = 0;
            while i < rs.len()
                invariant
                    i <= rs@.len(),
                    vs == vulns_in(rs@),
                    titles_cuttable(vs),
                    vs.len() <= usize::MAX,
                    ({
                        let done = vulns_in(rs@.subrange(0, i as int));
                        &&& c == count_vuln_sev(done, "CRITICAL"@)
                        &&& h == count_vuln_sev(done, "HIGH"@)
                        &&& m == count_vuln_sev(done, "MEDIUM"@)
                        &&& l == count_vuln_sev(done, "LOW"@)
                        &&& o == count_vuln_other(done)
                        &&& c + h + m + l + o == done.len()
                        &&& cviews(details@) == done.map_values(|v: Json| vuln_view(v))
                        &&& vs.subrange(0, done.len() as int) == done
                    }),
                decreases rs@.len() - i,
            {
                let ghost done0 = vulns_in(rs@.subrange(0, i as int));
                assert(rs@.subrange(0, i + 1).drop_last() =~= rs@.subrange(0, i as int));
                let vulns = as_array(get(Some(&rs[i]), "Vulnerabilities"));
                match vulns {
                    Some(vv) => {
                        proof {
                            lemma_vulns_prefix(rs@, i as int + 1);
                        }
                        let mut k: usize = 0;
                        while k < vv.len()
                            invariant
                                k <= vv@.len(),
                                vs == vulns_in(rs@),
                                titles_cuttable(vs),
                                vs.len() <= usize::MAX,
                                done0.len() + vv@.len() <= vs.len(),
                                vs.subrange(0, (done0.len() + vv@.len()) as int) == done0 + vv@,
                                ({
                                    let done = done0 + vv@.subrange(0, k as int);
                                    &&& c == count_vuln_sev(done, "CRITICAL"@)
                                    &&& h == count_vuln_sev(done, "HIGH"@)
                                    &&& m == count_vuln_sev(done, "MEDIUM"@)
                                    &&& l == count_vuln_sev(done, "LOW"@)
                                    &&& o == count_vuln_other(done)
                                    &&& c + h + m + l + o == done.len()
                                    &&& cviews(details@) == done.map_values(|v: Json| vuln_view(v))
                                }),
                            decreases vv@.len() - k,
                        {
                            let ghost done = done0 + vv@.subrange(0, k as int);
                            let ghost next = done0 + vv@.subrange(0, k + 1);
                            assert(next.drop_last() =~= done);
                            assert(next.last() == vv@[k as int]);
                            assert(vs[done0.len() + k] == vv@[k as int]) by {
                                assert((done0 + vv@)[done0.len() + k] == vv@[k as int]);
                            }
                            let v = &vv[k];
                            let detail = vuln_detail(v);
                            let sev = detail.severity.as_str();
                            let up = to_upper(str_or_default(get(Some(v), "Severity"), "UNKNOWN").as_str());
                            let u = up.as_str();
                            if str_eq(u, "CRITICAL") {
                                c = c + 1;
                            } else if str_eq(u, "HIGH") {
                                h = h + 1;
                            } else if str_eq(u, "MEDIUM") {
                                m = m + 1;
                            } else if str_eq(u, "LOW") {
                                l = l + 1;
                            } else {
                                o = o + 1;
                            }
                            proof {
                                reveal_strlit("CRITICAL");
                                reveal_strlit("HIGH");
                                reveal_strlit("MEDIUM");
                                reveal_strlit("LOW");
                                assert("CRITICAL"@.len() == 8);
                                assert("HIGH"@.len() == 4);
                                assert("MEDIUM"@.len() == 6);
                                assert("LOW"@.len() == 3);
                            }
                            let ghost before = cviews(details@);
                            details.push(detail);
                            assert(cviews(details@) =~= before.push(vuln_view(vv@[k as int])));
                            assert(next.map_values(|v: Json| vuln_view(v)) =~= before.push(vuln_view(vv@[k as int])));
                            k = k + 1;
                        }
                        assert(vv@.subrange(0, vv@.len() as int) =~= vv@);
                        assert(vulns_in(rs@.subrange(0, i + 1)) =~= done0 + vv@);
                    },
                    None => {
                        assert(vulns_in(rs@.subrange(0, i + 1)) =~= done0);
                    },
                }
                i = i + 1;
            }
            assert(rs@.subrange(0, rs@.len() as int) =~= rs@);
        },
        None => {
            assert(cviews(details@) =~= vs.map_values(|v: Json| vuln_view(v)));
        },
    }
    let ghost u = details@;
    let mut top = sort_stable(details);
    proof {
        crate::order::law_sort_is_ordered(u);
    }
    top.truncate(20);
    assert(top@ =~= sort_ordered(u).take(if u.len() > 20 { 20 } else { u.len() as int }));
    CveSummary { critical: c, high: h, medium: m, low: l, unknown: o, total: c + h + m + l + o, top_cves: top }
}

proof fn lemma_vulns_prefix(rs: Seq<Json>, i: int)
    requires
        0 <= i <= rs.len(),
    ensures
        vulns_in(rs).subrange(0, vulns_in(rs.subrange(0, i)).len() as int) == vulns_in(rs.subrange(0, i)),
        vulns_in(rs.subrange(0, i)).len() <= vulns_in(rs).len(),
    decreases rs.len() - i,
{
    if i < rs.len() {
        lemma_vulns_prefix(rs, i + 1);
        let a = vulns_in(rs.subrange(0, i));
        let b = vulns_in(rs.subrange(0, i + 1));
        assert(rs.subrange(0, i + 1).drop_last() =~= rs.subrange(0, i));
        assert(b.subrange(0, a.len() as int) =~= a);
        assert(vulns_in(rs).subrange(0, a.len() as int) =~= vulns_in(rs).subrange(0, b.len() as int).subrange(0, a.len() as int));
    } else {
        assert(rs.subrange(0, i) =~= rs);
        assert(vulns_in(rs).subrange(0, vulns_in(rs).len() as int) =~= vulns_in(rs));
    }
}

/// The summary of a scanner report that parsed, or the parse error.
pub fn parse_trivy_json(parsed: Result<Json, String>) -> (r: Result<CveSummary, String>)
    requires
        parsed matches Ok(j) ==> titles_cuttable(report_vulns(j)) && report_vulns(j).len() <= usize::MAX,
    ensures
        match parsed {
            Ok(j) => r matches Ok(s) && summary_counts(s) == report_counts(report_vulns(j))
                && exists|u: Seq<CveDetail>| #![trigger sort_ordered(u)]
                    cviews(u) == report_vulns(j).map_values(|v: Json| vuln_view(v))
                    && s.top_cves@ == sort_ordered(u).take(if u.len() > 20 { 20 } else { u.len() as int }),
            Err(e) => r matches Err(msg) && msg@ == "Failed to parse trivy JSON: "@ + e@,
        },
{
    match parsed {
        Ok(j) => Ok(summarize_report(&j)),
        Err(e) => {
            let mut msg = string_of("Failed to parse trivy JSON: ");
            msg.append(e.as_str());
            Err(msg)
        },
    }
}

// ---- the images of a workload ----

/// A container (or init container) of a pod as the scan sees it.
pub struct ContainerRef {
    pub name: Seq<char>,
    pub image: Seq<char>,
    pub pull_policy: Seq<char>,
    pub pod_name: Seq<char>,
    pub image_id: Seq<char>,
}

/// The image id the last status of container `name` reports, else empty.
pub open spec fn status_image_id(sts: Seq<ContainerStatus>, name: Seq<char>) -> Seq<char>
    decreases sts.len(),
{
    if sts.len() == 0 {
        Seq::empty()
    } else if sts.last().name@ == name {
        sts.last().image_id@
    } else {
        status_image_id(sts.drop_last(), name)
    }
}

pub open spec fn pod_statuses(p: Pod) -> Seq<ContainerStatus> {
    match p.status {
        Some(st) => match st.container_statuses {
            Some(v) => v@,
            None => Seq::empty(),
        },
        None => Seq::empty(),
    }
}

pub open spec fn container_refs(cs: Seq<Container>, pod_name: Seq<char>, sts: Seq<ContainerStatus>, init: bool) -> Seq<ContainerRef>
    decreases cs.len(),
{
    if cs.len() == 0 {
        Seq::empty()
    } else {
        let c = cs.last();
        container_refs(cs.drop_last(), pod_name, sts, init).push(ContainerRef {
            name: if init { c.name@ + " (init)"@ } else { c.name@ },
            image: opt_view(c.image),
            pull_policy: opt_view_or(c.image_pull_policy, "IfNotPresent"@),
            pod_name: pod_name,
            image_id: if init { Seq::empty() } else { status_image_id(sts, c.name@) },
        })
    }
}

pub open spec fn pod_refs(p: Pod) -> Seq<ContainerRef> {
    let pod_name = opt_view(p.metadata.name);
    match p.spec {
        Some(spec) => container_refs(spec.containers@, pod_name, pod_statuses(p), false)
            + match spec.init_containers {
                Some(ic) => container_refs(ic@, pod_name, Seq::empty(), true),
                None => Seq::empty(),
            },
        None => Seq::empty(),
    }
}

/// Every container of the pods, pod by pod, init containers after the
/// others.
pub open spec fn all_refs(pods: Seq<Pod>) -> Seq<ContainerRef>
    decreases pods.len(),
{
    if pods.len() == 0 {
        Seq::empty()
    } else {
        all_refs(pods.drop_last()) + pod_refs(pods.last())
    }
}

pub struct ContainerInfoView {
    pub container_name: Seq<char>,
    pub image: Seq<char>,
    pub image_id: Seq<char>,
    pub registry: Seq<char>,
    pub repository: Seq<char>,
    pub tag: Seq<char>,
    pub pull_policy: Seq<char>,
    pub pod_name: Seq<char>,
    pub findings: Seq<ImageFindingView>,
}

impl View for ContainerImageInfo {
    type V = ContainerInfoView;

    open spec fn view(&self) -> ContainerInfoView {
        ContainerInfoView {
            container_name: self.container_name@,
            image: self.image@,
            image_id: self.image_id@,
            registry: self.registry@,
            repository: self.repository@,
            tag: self.tag@,
            pull_policy: self.pull_policy@,
            pod_name: self.pod_name@,
            findings: ifviews(self.findings@),
        }
    }
}

pub open spec fn infoviews(v: Seq<ContainerImageInfo>) -> Seq<ContainerInfoView> {
    v.map_values(|c: ContainerImageInfo| c@)
}

pub open spec fn info_of(r: ContainerRef) -> ContainerInfoView {
    let (registry, repository, tag) = image_parts(r.image);
    ContainerInfoView {
        container_name: r.name,
        image: r.image,
        image_id: r.image_id,
        registry,
        repository,
        tag,
        pull_policy: r.pull_policy,
        pod_name: r.pod_name,
        findings: image_findings(r.image, tag, r.pull_policy, registry),
    }
}

pub struct ScanView {
    pub counts: CveSummaryView,
    pub top: Seq<CveView>,
}

pub struct UniqueView {
    pub image: Seq<char>,
    pub registry: Seq<char>,
    pub repository: Seq<char>,
    pub tag: Seq<char>,
    pub used_by: Seq<Seq<char>>,
    pub pod_count: nat,
    pub findings: Seq<ImageFindingView>,
    pub risk_score: u32,
    pub cve: Option<ScanView>,
    pub trivy_scanned: bool,
    pub trivy_error: Option<Seq<char>>,
}

pub open spec fn scan_view(s: CveSummary) -> ScanView {
    ScanView { counts: summary_counts(s), top: cviews(s.top_cves@) }
}

impl View for UniqueImage {
    type V = UniqueView;

    open spec fn view(&self) -> UniqueView {
        UniqueView {
            image: self.image@,
            registry: self.registry@,
            repository: self.repository@,
            tag: self.tag@,
            used_by: views(self.used_by@),
            pod_count: self.pod_count as nat,
            findings: ifviews(self.findings@),
            risk_score: self.risk_score,
            cve: match self.cve_summary { Some(s) => Some(scan_view(s)), None => None },
            trivy_scanned: self.trivy_scanned,
            trivy_error: match self.trivy_error { Some(e) => Some(e@), None => None },
        }
    }
}

pub open spec fn uviews(v: Seq<UniqueImage>) -> Seq<UniqueView> {
    v.map_values(|u: UniqueImage| u@)
}

pub open spec fn image_pos(us: Seq<UniqueView>, image: Seq<char>) -> Option<int>
    decreases us.len(),
{
    if us.len() == 0 {
        None
    } else if us[0].image == image {
        Some(0)
    } else {
        match image_pos(us.drop_first(), image) {
            Some(k) => Some(k + 1),
            None => None,
        }
    }
}

/// The images after container `r`: its image counted once more and its
/// name added to the image's users, a new image taking the container's
/// parts and findings.
pub open spec fn add_ref(us: Seq<UniqueView>, r: ContainerRef) -> Seq<UniqueView> {
    match image_pos(us, r.image) {
        Some(k) => us.update(k, UniqueView {
            used_by: if us[k].used_by.contains(r.name) { us[k].used_by } else { us[k].used_by.push(r.name) },
            pod_count: us[k].pod_count + 1,
            ..us[k]
        }),
        None => {
            let i = info_of(r);
            us.push(UniqueView {
                image: r.image,
                registry: i.registry,
                repository: i.repository,
                tag: i.tag,
                used_by: seq![r.name],
                pod_count: 1,
                findings: i.findings,
                risk_score: 0,
                cve: None,
                trivy_scanned: false,
                trivy_error: None,
            })
        },
    }
}

pub open spec fn unique_images(rs: Seq<ContainerRef>) -> Seq<UniqueView>
    decreases rs.len(),
{
    if rs.len() == 0 {
        Seq::empty()
    } else {
        add_ref(unique_images(rs.drop_last()), rs.last())
    }
}

pub open spec fn ref_of(c: Container, pod_name: Seq<char>, sts: Seq<ContainerStatus>, init: bool) -> ContainerRef {
    ContainerRef {
        name: if init { c.name@ + " (init)"@ } else { c.name@ },
        image: opt_view(c.image),
        pull_policy: opt_view_or(c.image_pull_policy, "IfNotPresent"@),
        pod_name: pod_name,
        image_id: if init { Seq::empty() } else { status_image_id(sts, c.name@) },
    }
}

fn find_image_id(sts: &Vec<ContainerStatus>, name: &str) -> (r: String)
    ensures
        r@ == status_image_id(sts@, name@),
{
    let mut i: usize = sts.len();
    assert(sts@.subrange(0, sts@.len() as int) =~= sts@);
    while i > 0
        invariant
            i <= sts@.len(),
            status_image_id(sts@, name@) == status_image_id(sts@.subrange(0, i as int), name@),
        decreases i,
    {
        let ghost pre = sts@.subrange(0, i as int);
        assert(pre.drop_last() =~= sts@.subrange(0, i - 1));
        if str_eq(sts[i - 1].name.as_str(), name) {
            return string_of(sts[i - 1].image_id.as_str());
        }
        i = i - 1;
    }
    String::new()
}

fn clone_findings(v: &Vec<ImageFinding>) -> (r: Vec<ImageFinding>)
    ensures
        ifviews(r@) == ifviews(v@),
{
    let mut out: Vec<ImageFinding> = Vec::new();
    let mut i: usize = 0;
    while i < v.len()
        invariant
            i <= v@.len(),
            ifviews(out@) == ifviews(v@.subrange(0, i as int)),
        decreases v@.len() - i,
    {
        let f = ImageFinding {
            severity: string_of(v[i].severity.as_str()),
            title: string_of(v[i].title.as_str()),
            description: string_of(v[i].description.as_str()),
        };
        let ghost before = ifviews(out@);
        out.push(f);
        assert(ifviews(out@) =~= before.push(f@));
        assert(ifviews(v@.subrange(0, i + 1)) =~= ifviews(v@.subrange(0, i as int)).push(v@[i as int]@));
        i = i + 1;
    }
    assert(v@.subrange(0, v@.len() as int) =~= v@);
    out
}

proof fn lemma_image_pos(us: Seq<UniqueView>, image: Seq<char>, k: int)
    requires
        0 <= k <= us.len(),
        forall|t: int| 0 <= t < k ==> us[t].image != image,
    ensures
        k < us.len() && us[k].image == image ==> image_pos(us, image) == Some(k),
        k == us.len() ==> image_pos(us, image) is None,
    decreases k,
{
    if k > 0 {
        lemma_image_pos(us.drop_first(), image, k - 1);
    }
}

fn find_image(us: &Vec<UniqueImage>, image: &str) -> (r: Option<usize>)
    ensures
        match r {
            Some(k) => image_pos(uviews(us@), image@) == Some(k as int) && k < us@.len(),
            None => image_pos(uviews(us@), image@) is None,
        },
{
    let ghost uv = uviews(us@);
    let mut k: usize = 0;
    while k < us.len()
        invariant
            k <= us@.len(),
            uv == uviews(us@),
            forall|t: int| 0 <= t < k ==> uv[t].image != image@,
        decreases us@.len() - k,
    {
        if str_eq(us[k].image.as_str(), image) {
            proof {
                assert(uv[k as int].image == image@);
                lemma_image_pos(uv, image@, k as int);
            }
            return Some(k);
        }
        k = k + 1;
    }
    proof {
        lemma_image_pos(uv, image@, uv.len() as int);
    }
    None
}

pub open spec fn counts_bounded(us: Seq<UniqueView>, bound: nat) -> bool {
    forall|i: int| 0 <= i < us.len() ==> (#[trigger] us[i]).pod_count <= bound
}

fn add_container(c: &Container, pod_name: &String, sts: &Vec<ContainerStatus>, init: bool,
    infos: &mut Vec<ContainerImageInfo>, uniques: &mut Vec<UniqueImage>)
    requires
        counts_bounded(uviews(old(uniques)@), old(infos)@.len()),
    ensures
        infoviews(final(infos)@) == infoviews(old(infos)@).push(info_of(ref_of(*c, pod_name@, sts@, init))),
        uviews(final(uniques)@) == add_ref(uviews(old(uniques)@), ref_of(*c, pod_name@, sts@, init)),
        counts_bounded(uviews(final(uniques)@), final(infos)@.len()),
{
    let ghost r = ref_of(*c, pod_name@, sts@, init);
    let image = unwrap_or_empty(&c.image);
    let (registry, repository, tag) = parse_image(image.as_str());
    let pull_policy = unwrap_or_str(&c.image_pull_policy, "IfNotPresent");
    let findings = analyze_image(image.as_str(), tag.as_str(), pull_policy.as_str(), registry.as_str());
    let name: String = if init {
        let mut n = string_of(c.name.as_str());
        n.append(" (init)");
        n
    } else {
        string_of(c.name.as_str())
    };
    let image_id: String = if init { String::new() } else { find_image_id(sts, c.name.as_str()) };
    let info = ContainerImageInfo {
        container_name: string_of(name.as_str()),
        image: string_of(image.as_str()),
        image_id,
        registry: string_of(registry.as_str()),
        repository: string_of(repository.as_str()),
        tag: string_of(tag.as_str()),
        pull_policy: string_of(pull_policy.as_str()),
        pod_name: string_of(pod_name.as_str()),
        findings: clone_findings(&findings),
    };
    assert(info@ == info_of(r));
    let ghost i0 = infoviews(infos@);
    infos.push(info);
    assert(infoviews(infos@) =~= i0.push(info_of(r)));
    let ghost u0 = uviews(uniques@);
    match find_image(uniques, image.as_str()) {
        Some(k) => {
            let n_infos = infos.len();
            let mut e = uniques.remove(k);
            assert(e@ == u0[k as int]);
            assert(e.pod_count <= i0.len());
            let ghost ub = views(e.used_by@);
            if !vec_has(&e.used_by, name.as_str()) {
                e.used_by.push(name);
                assert(views(e.used_by@) =~= ub.push(r.name));
            }
            e.pod_count = e.pod_count + 1;
            let ghost expect = UniqueView {
                used_by: if u0[k as int].used_by.contains(r.name) { u0[k as int].used_by } else { u0[k as int].used_by.push(r.name) },
                pod_count: u0[k as int].pod_count + 1,
                ..u0[k as int]
            };
            assert(e@ == expect);
            uniques.insert(k, e);
            proof {
                assert(uviews(uniques@) =~= add_ref(u0, r));
                assert forall|i: int| 0 <= i < uviews(uniques@).len() implies (#[trigger] uviews(uniques@)[i]).pod_count <= infos@.len() by {
                    if i != k {
                        assert(uviews(uniques@)[i] == u0[i]);
                    }
                }
            }
        },
        None => {
            let mut used_by: Vec<String> = Vec::new();
            used_by.push(name);
            let u = UniqueImage {
                image,
                registry,
                repository,
                tag,
                used_by,
                pod_count: 1,
                findings,
                risk_score: 0,
                cve_summary: None,
                trivy_scanned: false,
                trivy_error: None,
            };
            proof {
                assert(views(u.used_by@) =~= seq![r.name]);
            }
            uniques.push(u);
            proof {
                assert(uviews(uniques@) =~= add_ref(u0, r));
                assert forall|i: int| 0 <= i < uviews(uniques@).len() implies (#[trigger] uviews(uniques@)[i]).pod_count <= infos@.len() by {
                    if i < u0.len() {
                        assert(uviews(uniques@)[i] == u0[i]);
                    }
                }
            }
        },
    }
}

/// Every container of `pods` as the scan reports it, and each distinct
/// image with its users, before any scanner runs.
pub fn collect_images(pods: &Vec<Pod>) -> (r: (Vec<ContainerImageInfo>, Vec<UniqueImage>))
    ensures
        infoviews(r.0@) == all_refs(pods@).map_values(|x: ContainerRef| info_of(x)),
        uviews(r.1@) == unique_images(all_refs(pods@)),
{
    let mut infos: Vec<ContainerImageInfo> = Vec::new();
    let mut uniques: Vec<UniqueImage> = Vec::new();
    let empty_sts: Vec<ContainerStatus> = Vec::new();
    let mut p: usize = 0;
    assert(infoviews(infos@) =~= all_refs(Seq::<Pod>::empty()).map_values(|x: ContainerRef| info_of(x)));
    assert(uviews(uniques@) =~= unique_images(Seq::<ContainerRef>::empty()));
    while p < pods.len()
        invariant
            p <= pods@.len(),
            empty_sts@.len() == 0,
            infoviews(infos@) == all_refs(pods@.subrange(0, p as int)).map_values(|x: ContainerRef| info_of(x)),
            uviews(uniques@) == unique_images(all_refs(pods@.subrange(0, p as int))),
            counts_bounded(uviews(uniques@), infos@.len()),
        decreases pods@.len() - p,
    {
        let ghost sub = pods@.subrange(0, p + 1);
        assert(sub.drop_last() =~= pods@.subrange(0, p as int));
        let pod = &pods[p];
        let pod_name = unwrap_or_empty(&pod.metadata.name);
        let ghost done = all_refs(pods@.subrange(0, p as int));
        let sts: &Vec<ContainerStatus> = match &pod.status {
            Some(st) => match &st.container_statuses {
                Some(v) => v,
                None => &empty_sts,
            },
            None => &empty_sts,
        };
        assert(sts@ == pod_statuses(*pod));
        match &pod.spec {
            Some(spec) => {
                let mut k: usize = 0;
                while k < spec.containers.len()
                    invariant
                        k <= spec.containers@.len(),
                        infoviews(infos@) == (done + container_refs(spec.containers@.subrange(0, k as int), pod_name@, sts@, false))
                            .map_values(|x: ContainerRef| info_of(x)),
                        uviews(uniques@) == unique_images(done + container_refs(spec.containers@.subrange(0, k as int), pod_name@, sts@, false)),
                        counts_bounded(uviews(uniques@), infos@.len()),
                    decreases spec.containers@.len() - k,
                {
                    let ghost csub = spec.containers@.subrange(0, k + 1);
                    assert(csub.drop_last() =~= spec.containers@.subrange(0, k as int));
                    let ghost before = done + container_refs(spec.containers@.subrange(0, k as int), pod_name@, sts@, false);
                    let ghost after = done + container_refs(csub, pod_name@, sts@, false);
                    assert(after =~= before.push(ref_of(spec.containers@[k as int], pod_name@, sts@, false)));
                    assert(after.drop_last() =~= before);
                    add_container(&spec.containers[k], &pod_name, sts, false, &mut infos, &mut uniques);
                    assert(infoviews(infos@) =~= after.map_values(|x: ContainerRef| info_of(x)));
                    k = k + 1;
                }
                assert(spec.containers@.subrange(0, spec.containers@.len() as int) =~= spec.containers@);
                let ghost mid = done + container_refs(spec.containers@, pod_name@, sts@, false);
                match &spec.init_containers {
                    Some(ic) => {
                        let mut k: usize = 0;
                        while k < ic.len()
                            invariant
                                k <= ic@.len(),
                                empty_sts@.len() == 0,
                                infoviews(infos@) == (mid + container_refs(ic@.subrange(0, k as int), pod_name@, empty_sts@, true))
                                    .map_values(|x: ContainerRef| info_of(x)),
                                uviews(uniques@) == unique_images(mid + container_refs(ic@.subrange(0, k as int), pod_name@, empty_sts@, true)),
                                counts_bounded(uviews(uniques@), infos@.len()),
                            decreases ic@.len() - k,
                        {
                            let ghost csub = ic@.subrange(0, k + 1);
                            assert(csub.drop_last() =~= ic@.subrange(0, k as int));
                            let ghost before = mid + container_refs(ic@.subrange(0, k as int), pod_name@, empty_sts@, true);
                            let ghost after = mid + container_refs(csub, pod_name@, empty_sts@, true);
                            assert(after =~= before.push(ref_of(ic@[k as int], pod_name@, empty_sts@, true)));
                            assert(after.drop_last() =~= before);
                            add_container(&ic[k], &pod_name, &empty_sts, true, &mut infos, &mut uniques);
                            assert(infoviews(infos@) =~= after.map_values(|x: ContainerRef| info_of(x)));
                            k = k + 1;
                        }
                        assert(ic@.subrange(0, ic@.len() as int) =~= ic@);
                        assert(container_refs(ic@, pod_name@, empty_sts@, true) == container_refs(ic@, pod_name@, Seq::empty(), true)) by {
                            assert(empty_sts@ =~= Seq::<ContainerStatus>::empty());
                        }
                        assert(all_refs(sub) =~= mid + container_refs(ic@, pod_name@, empty_sts@, true));
                    },
                    None => {
                        assert(all_refs(sub) =~= mid);
                    },
                }
            },
            None => {
                assert(all_refs(sub) =~= done);
            },
        }
        p = p + 1;
    }
    assert(pods@.subrange(0, pods@.len() as int) =~= pods@);
    (infos, uniques)
}

/// Records the outcome of scanning `img`: the report's summary, or the error.
pub fn record_scan(img: &mut UniqueImage, result: Result<CveSummary, String>)
    ensures
        final(img)@ == (match result {
            Ok(s) => UniqueView { trivy_scanned: true, cve: Some(scan_view(s)), ..old(img)@ },
            Err(e) => UniqueView { trivy_scanned: false, trivy_error: Some(e@), ..old(img)@ },
        }),
{
    match result {
        Ok(s) => {
            img.trivy_scanned = true;
            img.cve_summary = Some(s);
        },
        Err(e) => {
            img.trivy_scanned = false;
            img.trivy_error = Some(e);
        },
    }
}

// ---- risk ----

pub open spec fn points(sev: Seq<char>) -> nat {
    if sev == "critical"@ { 30 } else if sev == "high"@ { 20 } else if sev == "medium"@ { 8 } else if sev == "low"@ { 3 } else { 0 }
}

pub open spec fn static_points(fs: Seq<ImageFindingView>) -> nat
    decreases fs.len(),
{
    if fs.len() == 0 { 0 } else { static_points(fs.drop_last()) + points(fs.last().severity) }
}

pub open spec fn count_ifsev(fs: Seq<ImageFindingView>, sev: Seq<char>) -> nat
    decreases fs.len(),
{
    if fs.len() == 0 { 0 } else { count_ifsev(fs.drop_last(), sev) + if fs.last().severity == sev { 1nat } else { 0nat } }
}

/// A count as the `u32` it is cast to.
pub open spec fn as32(n: nat) -> nat {
    n % 0x1_0000_0000
}

/// The unbounded risk points of an image: its static findings, plus its
/// vulnerabilities weighted when it was scanned.
pub open spec fn raw_risk(u: UniqueView) -> nat {
    static_points(u.findings) + match u.cve {
        Some(s) => as32(s.counts.critical) * 15 + as32(s.counts.high) * 5 + as32(s.counts.medium) * 2 + as32(s.counts.low),
        None => 0,
    }
}

pub open spec fn risk_of(u: UniqueView) -> u32 {
    if raw_risk(u) > 100 { 100 } else { raw_risk(u) as u32 }
}

/// The findings an image contributes by severity: its vulnerability
/// counts when scanned, else its static findings.
pub open spec fn image_counts(u: UniqueView) -> (nat, nat, nat, nat) {
    match u.cve {
        Some(s) => (s.counts.critical, s.counts.high, s.counts.medium, s.counts.low),
        None => (count_ifsev(u.findings, "critical"@), count_ifsev(u.findings, "high"@),
            count_ifsev(u.findings, "medium"@), count_ifsev(u.findings, "low"@)),
    }
}

pub open spec fn total_counts(us: Seq<UniqueView>) -> (nat, nat, nat, nat)
    decreases us.len(),
{
    if us.len() == 0 {
        (0, 0, 0, 0)
    } else {
        let (c, h, m, l) = total_counts(us.drop_last());
        let (c2, h2, m2, l2) = image_counts(us.last());
        (c + c2, h + h2, m + m2, l + l2)
    }
}

/// The arithmetic of the scan fits its integer types.
pub open spec fn scan_fits(us: Seq<UniqueView>) -> bool {
    let (c, h, m, l) = total_counts(us);
    &&& forall|i: int| 0 <= i < us.len() ==> raw_risk(#[trigger] us[i]) <= u32::MAX
    &&& c + h + m + l <= usize::MAX
}

pub open spec fn with_risk(u: UniqueView) -> UniqueView {
    UniqueView { risk_score: risk_of(u), ..u }
}

impl Ordered for UniqueImage {
    open spec fn before(a: UniqueImage, b: UniqueImage) -> bool {
        a.risk_score > b.risk_score
    }

    proof fn lemma_asymmetric(a: UniqueImage, b: UniqueImage) {
    }

    proof fn lemma_not_before_transitive(a: UniqueImage, b: UniqueImage, c: UniqueImage) {
    }

    fn is_before(&self, other: &UniqueImage) -> (r: bool) {
        self.risk_score > other.risk_score
    }
}

pub open spec fn max_risk(us: Seq<UniqueView>) -> u32
    decreases us.len(),
{
    if us.len() == 0 {
        0
    } else {
        let m = max_risk(us.drop_last());
        if risk_of(us.last()) > m { risk_of(us.last()) } else { m }
    }
}

fn static_score(fs: &Vec<ImageFinding>) -> (r: Option<u64>)
    ensures
        match r {
            Some(x) => x == static_points(ifviews(fs@)) && x <= u32::MAX,
            None => static_points(ifviews(fs@)) > u32::MAX,
        },
{
    let mut s: u64 = 0;
    let mut i: usize = 0;
    while i < fs.len()
        invariant
            i <= fs@.len(),
            s == static_points(ifviews(fs@.subrange(0, i as int))),
            s <= u32::MAX,
        decreases fs@.len() - i,
    {
        let ghost sub = ifviews(fs@.subrange(0, i + 1));
        assert(sub.drop_last() =~= ifviews(fs@.subrange(0, i as int)));
        let sev = fs[i].severity.as_str();
        let p: u64 = if str_eq(sev, "critical") { 30 } else if str_eq(sev, "high") { 20 } else if str_eq(sev, "medium") { 8 } else if str_eq(sev, "low") { 3 } else { 0 };
        s = s + p;
        i = i + 1;
        if s > u32::MAX as u64 {
            proof {
                lemma_static_prefix(ifviews(fs@), i as int);
                assert(ifviews(fs@.subrange(0, i as int)) =~= ifviews(fs@).subrange(0, i as int));
            }
            return None;
        }
    }
    assert(fs@.subrange(0, fs@.len() as int) =~= fs@);
    Some(s)
}

proof fn lemma_static_prefix(fs: Seq<ImageFindingView>, i: int)
    requires
        0 <= i <= fs.len(),
    ensures
        static_points(fs.subrange(0, i)) <= static_points(fs),
    decreases fs.len() - i,
{
    if i < fs.len() {
        lemma_static_prefix(fs, i + 1);
        assert(fs.subrange(0, i + 1).drop_last() =~= fs.subrange(0, i));
    } else {
        assert(fs.subrange(0, i) =~= fs);
    }
}

fn count_static(fs: &Vec<ImageFinding>) -> (r: (usize, usize, usize, usize))
    ensures
        r.0 == count_ifsev(ifviews(fs@), "critical"@),
        r.1 == count_ifsev(ifviews(fs@), "high"@),
        r.2 == count_ifsev(ifviews(fs@), "medium"@),
        r.3 == count_ifsev(ifviews(fs@), "low"@),
{
    let mut c: usize = 0;
    let mut h: usize = 0;
    let mut m: usize = 0;
    let mut l: usize = 0;
    let mut i: usize = 0;
    while i < fs.len()
        invariant
            i <= fs@.len(),
            c + h + m + l <= i,
            c == count_ifsev(ifviews(fs@.subrange(0, i as int)), "critical"@),
            h == count_ifsev(ifviews(fs@.subrange(0, i as int)), "high"@),
            m == count_ifsev(ifviews(fs@.subrange(0, i as int)), "medium"@),
            l == count_ifsev(ifviews(fs@.subrange(0, i as int)), "low"@),
        decreases fs@.len() - i,
    {
        let ghost sub = ifviews(fs@.subrange(0, i + 1));
        assert(sub.drop_last() =~= ifviews(fs@.subrange(0, i as int)));
        proof {
            reveal_strlit("critical");
            reveal_strlit("high");
            reveal_strlit("medium");
            reveal_strlit("low");
            assert("critical"@.len() == 8);
            assert("high"@.len() == 4);
            assert("medium"@.len() == 6);
            assert("low"@.len() == 3);
        }
        let sev = fs[i].severity.as_str();
        if str_eq(sev, "critical") {
            c = c + 1;
        } else if str_eq(sev, "high") {
            h = h + 1;
        } else if str_eq(sev, "medium") {
            m = m + 1;
        } else if str_eq(sev, "low") {
            l = l + 1;
        }
        i = i + 1;
    }
    assert(fs@.subrange(0, fs@.len() as int) =~= fs@);
    (c, h, m, l)
}

/// Sets each image's risk score and sums the findings by severity, with
/// the highest risk; `None` exactly when that arithmetic overflows.
fn score_images(images: &mut Vec<UniqueImage>) -> (r: Option<(usize, usize, usize, usize, u32)>)
    ensures
        match r {
            Some((c, h, m, l, overall)) => {
                let us = uviews(old(images)@);
                &&& scan_fits(us)
                &&& (c as nat, h as nat, m as nat, l as nat) == total_counts(us)
                &&& overall == max_risk(us)
                &&& uviews(final(images)@) == us.map_values(|x: UniqueView| with_risk(x))
            },
            None => !scan_fits(uviews(old(images)@)),
        },
{
    let ghost us = uviews(images@);
    let mut c: usize = 0;
    let mut h: usize = 0;
    let mut m: usize = 0;
    let mut l: usize = 0;
    let mut overall: u32 = 0;
    let mut i: usize = 0;
    while i < images.len()
        invariant
            i <= images@.len(),
            us == uviews(old(images)@),
            images@.len() == us.len(),
            forall|t: int| 0 <= t < i ==> #[trigger] uviews(images@)[t] == with_risk(us[t]),
            forall|t: int| i <= t < images@.len() ==> #[trigger] uviews(images@)[t] == us[t],
            forall|t: int| 0 <= t < i ==> raw_risk(#[trigger] us[t]) <= u32::MAX,
            (c as nat, h as nat, m as nat, l as nat) == total_counts(us.subrange(0, i as int)),
            c + h + m + l <= usize::MAX,
            overall == max_risk(us.subrange(0, i as int)),
        decreases images@.len() - i,
    {
        let ghost sub = us.subrange(0, i + 1);
        assert(sub.drop_last() =~= us.subrange(0, i as int));
        assert(uviews(images@)[i as int] == us[i as int]);
        let st = match static_score(&images[i].findings) {
            Some(x) => x,
            None => {
                assert(!scan_fits(us)) by {
                    assert(raw_risk(us[i as int]) > u32::MAX);
                }
                return None;
            },
        };
        let (c2, h2, m2, l2): (usize, usize, usize, usize);
        let mut score: u64 = st;
        match &images[i].cve_summary {
            Some(cve) => {
                let add: u64 = (cve.critical as u64 % 0x1_0000_0000) * 15 + (cve.high as u64 % 0x1_0000_0000) * 5
                    + (cve.medium as u64 % 0x1_0000_0000) * 2 + (cve.low as u64 % 0x1_0000_0000);
                score = score + add;
                c2 = cve.critical;
                h2 = cve.high;
                m2 = cve.medium;
                l2 = cve.low;
            },
            None => {
                let (a, b, d, e) = count_static(&images[i].findings);
                c2 = a;
                h2 = b;
                m2 = d;
                l2 = e;
            },
        }
        assert(score == raw_risk(us[i as int]));
        assert((c2 as nat, h2 as nat, m2 as nat, l2 as nat) == image_counts(us[i as int]));
        if score > u32::MAX as u64 {
            assert(!scan_fits(us)) by {
                assert(raw_risk(us[i as int]) > u32::MAX);
            }
            return None;
        }
        if c as u128 + h as u128 + m as u128 + l as u128 + c2 as u128 + h2 as u128 + m2 as u128 + l2 as u128 > usize::MAX as u128 {
            proof {
                lemma_counts_grow(us, i as int + 1);
                assert(sub.last() == us[i as int]);
                let (a, b, d, e) = total_counts(sub);
                assert(a + b + d + e > usize::MAX);
            }
            assert(!scan_fits(us));
            return None;
        }
        c = c + c2;
        h = h + h2;
        m = m + m2;
        l = l + l2;
        let risk: u32 = if score > 100 { 100 } else { score as u32 };
        if risk > overall {
            overall = risk;
        }
        let ghost before = images@;
        images[i].risk_score = risk;
        proof {
            assert forall|t: int| 0 <= t < images@.len() && t != i implies #[trigger] uviews(images@)[t] == uviews(before)[t] by {}
            assert(uviews(images@)[i as int] == with_risk(us[i as int]));
        }
        i = i + 1;
    }
    assert(us.subrange(0, us.len() as int) =~= us);
    assert(uviews(images@) =~= us.map_values(|x: UniqueView| with_risk(x)));
    Some((c, h, m, l, overall))
}

/// Scores the images, sums what they found, and sorts them by risk, most
/// at risk first. `None` exactly when that arithmetic overflows.
pub fn finish_scan(workload_name: &str, workload_kind: &str, namespace: &str, all_containers: Vec<ContainerImageInfo>,
    images: Vec<UniqueImage>, trivy_available: bool) -> (r: Option<ImageScanResult>)
    ensures
        match r {
            Some(res) => {
                let us = uviews(images@);
                let (c, h, m, l) = total_counts(us);
                &&& scan_fits(us)
                &&& res.workload_name@ == workload_name@
                &&& res.workload_kind@ == workload_kind@
                &&& res.namespace@ == namespace@
                &&& res.total_images == all_containers@.len()
                &&& res.unique_images == images@.len()
                &&& res.critical_count == c && res.high_count == h && res.medium_count == m && res.low_count == l
                &&& res.total_findings == c + h + m + l
                &&& infoviews(res.all_containers@) == infoviews(all_containers@)
                &&& exists|u: Seq<UniqueImage>| #![trigger sort_ordered(u)]
                    uviews(u) == us.map_values(|x: UniqueView| with_risk(x)) && res.images@ == sort_ordered(u)
                &&& res.overall_risk == max_risk(us)
                &&& res.trivy_available == trivy_available
            },
            None => !scan_fits(uviews(images@)),
        },
{
    let ghost us = uviews(images@);
    let n = images.len();
    let mut imgs = images;
    match score_images(&mut imgs) {
        None => None,
        Some((c, h, m, l, overall)) => {
            let ghost u = imgs@;
            let total_images = all_containers.len();
            let sorted = sort_stable(imgs);
            assert(sorted@ == sort_ordered(u));
            Some(ImageScanResult {
                workload_name: string_of(workload_name),
                workload_kind: string_of(workload_kind),
                namespace: string_of(namespace),
                total_images,
                unique_images: n,
                total_findings: c + h + m + l,
                critical_count: c,
                high_count: h,
                medium_count: m,
                low_count: l,
                images: sorted,
                all_containers,
                overall_risk: overall,
                trivy_available,
            })
        },
    }
}

proof fn lemma_counts_grow(us: Seq<UniqueView>, i: int)
    requires
        0 <= i <= us.len(),
    ensures
        ({
            let (c, h, m, l) = total_counts(us.subrange(0, i));
            let (c2, h2, m2, l2) = total_counts(us);
            c + h + m + l <= c2 + h2 + m2 + l2
        }),
    decreases us.len() - i,
{
    if i < us.len() {
        lemma_counts_grow(us, i + 1);
        assert(us.subrange(0, i + 1).drop_last() =~= us.subrange(0, i));
    } else {
        assert(us.subrange(0, i) =~= us);
    }
}

/// Labels as a label selector: `key=value` pairs joined by `,`.
pub open spec fn selector_of(labels: Option<StrMap>) -> Seq<char> {
    match labels {
        Some(m) => join_seq(crate::netpol::pair_texts(m@), ","@),
        None => Seq::empty(),
    }
}

/// Renders match labels as a label selector, `k=v` pairs joined by `,`.
pub fn get_selector(labels: &Option<StrMap>) -> (r: String)
    ensures
        r@ == selector_of(*labels),
{
    match labels {
        Some(m) => {
            let mut parts: Vec<String> = Vec::new();
            let mut i: usize = 0;
            while i < m.len()
                invariant
                    i <= m@.len(),
                    views(parts@) == crate::netpol::pair_texts(m@.subrange(0, i as int)),
                decreases m@.len() - i,
            {
                let ghost sub = m@.subrange(0, i + 1);
                assert(sub.drop_last() =~= m@.subrange(0, i as int));
                let mut s = string_of(m[i].0.as_str());
                s.append("=");
                s.append(m[i].1.as_str());
                let ghost before = parts@;
                parts.push(s);
                assert(views(parts@) =~= views(before).push(s@));
                i = i + 1;
            }
            assert(m@.subrange(0, m@.len() as int) =~= m@);
            crate::text::join(&parts, ",")
        },
        None => {
            let r = String::new();
            r
        },
    }
}


// ---- what the image checks promise ----

/// The end-of-life base images the scan knows, as patterns of the image
/// reference, in the order in which it checks them.
pub open spec fn documented_eol_order() -> Seq<Seq<char>> {
    seq![
        "python:2"@, "node:8"@, "node:10"@, "node:12"@, "node:14"@, "node:15"@,
        "ubuntu:14"@, "ubuntu:16"@, "ubuntu:18"@, "debian:8"@, "debian:9"@,
        "centos:6"@, "centos:7"@, "centos:8"@, "alpine:3.12"@, "alpine:3.13"@,
    ]
}

/// Why the base image that `pattern` picks out is reported.
pub open spec fn documented_eol_reason(pattern: Seq<char>) -> Seq<char> {
    if pattern == "python:2"@ { "Python 2 is end-of-life"@ }
    else if pattern == "node:8"@ { "Node.js 8 is end-of-life"@ }
    else if pattern == "node:10"@ { "Node.js 10 is end-of-life"@ }
    else if pattern == "node:12"@ { "Node.js 12 is end-of-life"@ }
    else if pattern == "node:14"@ { "Node.js 14 is end-of-life"@ }
    else if pattern == "node:15"@ { "Node.js 15 is end-of-life"@ }
    else if pattern == "ubuntu:14"@ { "Ubuntu 14.04 is end-of-life"@ }
    else if pattern == "ubuntu:16"@ { "Ubuntu 16.04 is end-of-life"@ }
    else if pattern == "ubuntu:18"@ { "Ubuntu 18.04 end of standard support"@ }
    else if pattern == "debian:8"@ { "Debian 8 is end-of-life"@ }
    else if pattern == "debian:9"@ { "Debian 9 is end-of-life"@ }
    else if pattern == "centos:6"@ { "CentOS 6 is end-of-life"@ }
    else if pattern == "centos:7"@ { "CentOS 7 is end-of-life"@ }
    else if pattern == "centos:8"@ { "CentOS 8 is end-of-life"@ }
    else if pattern == "alpine:3.12"@ { "Alpine 3.12 is unsupported"@ }
    else { "Alpine 3.13 is unsupported"@ }
}

/// The image (lower-cased), or it followed by `:` and the tag, holds `pattern`.
pub open spec fn shows_pattern(lower: Seq<char>, tag: Seq<char>, pattern: Seq<char>) -> bool {
    seq_contains(lower, pattern) || seq_contains(lower + ":"@ + tag, pattern)
}

proof fn lemma_eol_first(list: Seq<(Seq<char>, Seq<char>)>, lower: Seq<char>, tag: Seq<char>, i: int)
    requires
        0 <= i < list.len(),
        shows_pattern(lower, tag, list[i].0),
        forall|j: int| 0 <= j < i ==> !shows_pattern(lower, tag, #[trigger] list[j].0),
    ensures
        eol_match(list, lower, tag) == Some(list[i].1),
    decreases list.len(),
{
    if i > 0 {
        let d = list.drop_first();
        assert(!shows_pattern(lower, tag, list[0].0));
        assert forall|j: int| 0 <= j < i - 1 implies !shows_pattern(lower, tag, #[trigger] d[j].0) by {
            assert(d[j] == list[j + 1]);
        }
        assert(d[i - 1] == list[i]);
        lemma_eol_first(d, lower, tag, i - 1);
    }
}

/// The patterns and reasons listed above are, entry by entry, those the
/// scan checks.
proof fn lemma_eol_tables_agree()
    ensures
        eol_list().len() == documented_eol_order().len(),
        forall|k: int| 0 <= k < eol_list().len()
            ==> #[trigger] eol_list()[k] == (documented_eol_order()[k], documented_eol_reason(documented_eol_order()[k])),
{
    let t = eol_list();
    let order = documented_eol_order();
    reveal_strlit("python:2");
    reveal_strlit("node:8");
    reveal_strlit("node:10");
    reveal_strlit("node:12");
    reveal_strlit("node:14");
    reveal_strlit("node:15");
    reveal_strlit("ubuntu:14");
    reveal_strlit("ubuntu:16");
    reveal_strlit("ubuntu:18");
    reveal_strlit("debian:8");
    reveal_strlit("debian:9");
    reveal_strlit("centos:6");
    reveal_strlit("centos:7");
    reveal_strlit("centos:8");
    reveal_strlit("alpine:3.12");
    reveal_strlit("alpine:3.13");
    assert(t[0] == (order[0], documented_eol_reason(order[0])));
    assert("node:8"@.len() != "python:2"@.len());
    assert(t[1] == (order[1], documented_eol_reason(order[1])));
    assert("node:10"@.len() != "python:2"@.len());
    assert("node:10"@.len() != "node:8"@.len());
    assert(t[2] == (order[2], documented_eol_reason(order[2])));
    assert("node:12"@.len() != "python:2"@.len());
    assert("node:12"@.len() != "node:8"@.len());
    assert("node:12"@[6] != "node:10"@[6]);
    assert(t[3] == (order[3], documented_eol_reason(order[3])));
    assert("node:14"@.len() != "python:2"@.len());
    assert("node:14"@.len() != "node:8"@.len());
    assert("node:14"@[6] != "node:10"@[6]);
    assert("node:14"@[6] != "node:12"@[6]);
    assert(t[4] == (order[4], documented_eol_reason(order[4])));
    assert("node:15"@.len() != "python:2"@.len());
    assert("node:15"@.len() != "node:8"@.len());
    assert("node:15"@[6] != "node:10"@[6]);
    assert("node:15"@[6] != "node:12"@[6]);
    assert("node:15"@[6] != "node:14"@[6]);
    assert(t[5] == (order[5], documented_eol_reason(order[5])));
    assert("ubuntu:14"@.len() != "python:2"@.len());
    assert("ubuntu:14"@.len() != "node:8"@.len());
    assert("ubuntu:14"@.len() != "node:10"@.len());
    assert("ubuntu:14"@.len() != "node:12"@.len());
    assert("ubuntu:14"@.len() != "node:14"@.len());
    assert("ubuntu:14"@.len() != "node:15"@.len());
    assert(t[6] == (order[6], documented_eol_reason(order[6])));
    assert("ubuntu:16"@.len() != "python:2"@.len());
    assert("ubuntu:16"@.len() != "node:8"@.len());
    assert("ubuntu:16"@.len() != "node:10"@.len());
    assert("ubuntu:16"@.len() != "node:12"@.len());
    assert("ubuntu:16"@.len() != "node:14"@.len());
    assert("ubuntu:16"@.len() != "node:15"@.len());
    assert("ubuntu:16"@[8] != "ubuntu:14"@[8]);
    assert(t[7] == (order[7], documented_eol_reason(order[7])));
    assert("ubuntu:18"@.len() != "python:2"@.len());
    assert("ubuntu:18"@.len() != "node:8"@.len());
    assert("ubuntu:18"@.len() != "node:10"@.len());
    assert("ubuntu:18"@.len() != "node:12"@.len());
    assert("ubuntu:18"@.len() != "node:14"@.len());
    assert("ubuntu:18"@.len() != "node:15"@.len());
    assert("ubuntu:18"@[8] != "ubuntu:14"@[8]);
    assert("ubuntu:18"@[8] != "ubuntu:16"@[8]);
    assert(t[8] == (order[8], documented_eol_reason(order[8])));
    assert("debian:8"@[0] != "python:2"@[0]);
    assert("debian:8"@.len() != "node:8"@.len());
    assert("debian:8"@.len() != "node:10"@.len());
    assert("debian:8"@.len() != "node:12"@.len());
    assert("debian:8"@.len() != "node:14"@.len());
    assert("debian:8"@.len() != "node:15"@.len());
    assert("debian:8"@.len() != "ubuntu:14"@.len());
    assert("debian:8"@.len() != "ubuntu:16"@.len());
    assert("debian:8"@.len() != "ubuntu:18"@.len());
    assert(t[9] == (order[9], documented_eol_reason(order[9])));
    assert("debian:9"@[0] != "python:2"@[0]);
    assert("debian:9"@.len() != "node:8"@.len());
    assert("debian:9"@.len() != "node:10"@.len());
    assert("debian:9"@.len() != "node:12"@.len());
    assert("debian:9"@.len() != "node:14"@.len());
    assert("debian:9"@.len() != "node:15"@.len());
    assert("debian:9"@.len() != "ubuntu:14"@.len());
    assert("debian:9"@.len() != "ubuntu:16"@.len());
    assert("debian:9"@.len() != "ubuntu:18"@.len());
    assert("debian:9"@[7] != "debian:8"@[7]);
    assert(t[10] == (order[10], documented_eol_reason(order[10])));
    assert("centos:6"@[0] != "python:2"@[0]);
    assert("centos:6"@.len() != "node:8"@.len());
    assert("centos:6"@.len() != "node:10"@.len());
    assert("centos:6"@.len() != "node:12"@.len());
    assert("centos:6"@.len() != "node:14"@.len());
    assert("centos:6"@.len() != "node:15"@.len());
    assert("centos:6"@.len() != "ubuntu:14"@.len());
    assert("centos:6"@.len() != "ubuntu:16"@.len());
    assert("centos:6"@.len() != "ubuntu:18"@.len());
    assert("centos:6"@[0] != "debian:8"@[0]);
    assert("centos:6"@[0] != "debian:9"@[0]);
    assert(t[11] == (order[11], documented_eol_reason(order[11])));
    assert("centos:7"@[0] != "python:2"@[0]);
    assert("centos:7"@.len() != "node:8"@.len());
    assert("centos:7"@.len() != "node:10"@.len());
    assert("centos:7"@.len() != "node:12"@.len());
    assert("centos:7"@.len() != "node:14"@.len());
    assert("centos:7"@.len() != "node:15"@.len());
    assert("centos:7"@.len() != "ubuntu:14"@.len());
    assert("centos:7"@.len() != "ubuntu:16"@.len());
    assert("centos:7"@.len() != "ubuntu:18"@.len());
    assert("centos:7"@[0] != "debian:8"@[0]);
    assert("centos:7"@[0] != "debian:9"@[0]);
    assert("centos:7"@[7] != "centos:6"@[7]);
    assert(t[12] == (order[12], documented_eol_reason(order[12])));
    assert("centos:8"@[0] != "python:2"@[0]);
    assert("centos:8"@.len() != "node:8"@.len());
    assert("centos:8"@.len() != "node:10"@.len());
    assert("centos:8"@.len() != "node:12"@.len());
    assert("centos:8"@.len() != "node:14"@.len());
    assert("centos:8"@.len() != "node:15"@.len());
    assert("centos:8"@.len() != "ubuntu:14"@.len());
    assert("centos:8"@.len() != "ubuntu:16"@.len());
    assert("centos:8"@.len() != "ubuntu:18"@.len());
    assert("centos:8"@[0] != "debian:8"@[0]);
    assert("centos:8"@[0] != "debian:9"@[0]);
    assert("centos:8"@[7] != "centos:6"@[7]);
    assert("centos:8"@[7] != "centos:7"@[7]);
    assert(t[13] == (order[13], documented_eol_reason(order[13])));
    assert("alpine:3.12"@.len() != "python:2"@.len());
    assert("alpine:3.12"@.len() != "node:8"@.len());
    assert("alpine:3.12"@.len() != "node:10"@.len());
    assert("alpine:3.12"@.len() != "node:12"@.len());
    assert("alpine:3.12"@.len() != "node:14"@.len());
    assert("alpine:3.12"@.len() != "node:15"@.len());
    assert("alpine:3.12"@.len() != "ubuntu:14"@.len());
    assert("alpine:3.12"@.len() != "ubuntu:16"@.len());
    assert("alpine:3.12"@.len() != "ubuntu:18"@.len());
    assert("alpine:3.12"@.len() != "debian:8"@.len());
    assert("alpine:3.12"@.len() != "debian:9"@.len());
    assert("alpine:3.12"@.len() != "centos:6"@.len());
    assert("alpine:3.12"@.len() != "centos:7"@.len());
    assert("alpine:3.12"@.len() != "centos:8"@.len());
    assert(t[14] == (order[14], documented_eol_reason(order[14])));
    assert("alpine:3.13"@.len() != "python:2"@.len());
    assert("alpine:3.13"@.len() != "node:8"@.len());
    assert("alpine:3.13"@.len() != "node:10"@.len());
    assert("alpine:3.13"@.len() != "node:12"@.len());
    assert("alpine:3.13"@.len() != "node:14"@.len());
    assert("alpine:3.13"@.len() != "node:15"@.len());
    assert("alpine:3.13"@.len() != "ubuntu:14"@.len());
    assert("alpine:3.13"@.len() != "ubuntu:16"@.len());
    assert("alpine:3.13"@.len() != "ubuntu:18"@.len());
    assert("alpine:3.13"@.len() != "debian:8"@.len());
    assert("alpine:3.13"@.len() != "debian:9"@.len());
    assert("alpine:3.13"@.len() != "centos:6"@.len());
    assert("alpine:3.13"@.len() != "centos:7"@.len());
    assert("alpine:3.13"@.len() != "centos:8"@.len());
    assert("alpine:3.13"@[10] != "alpine:3.12"@[10]);
    assert(t[15] == (order[15], documented_eol_reason(order[15])));
}

/// An image whose reference (lower-cased, alone or with `:` and its tag)
/// holds a documented end-of-life pattern gets a critical `End-of-life base
/// image` finding with that pattern's reason; when it holds several, the
/// first in the documented order gives the reason.
pub proof fn law_end_of_life_images_reported(image: Seq<char>, tag: Seq<char>, pull_policy: Seq<char>, registry: Seq<char>, i: int)
    requires
        0 <= i < documented_eol_order().len(),
        shows_pattern(lowercase(image), tag, documented_eol_order()[i]),
        forall|j: int| 0 <= j < i ==> !shows_pattern(lowercase(image), tag, #[trigger] documented_eol_order()[j]),
    ensures
        image_findings(image, tag, pull_policy, registry).contains(ImageFindingView {
            severity: "critical"@,
            title: "End-of-life base image"@,
            description: documented_eol_reason(documented_eol_order()[i]) + ". Upgrade to a supported version."@,
        }),
{
    let order = documented_eol_order();
    let t = eol_list();
    assert(t.len() == order.len());
    lemma_eol_tables_agree();
    lemma_eol_first(t, lowercase(image), tag, i);
    let f = ifinding("critical"@, "End-of-life base image"@, documented_eol_reason(order[i]) + ". Upgrade to a supported version."@);
    let all = image_findings(image, tag, pull_policy, registry);
    let n1: int = if tag == "latest"@ { 1 } else { 0 };
    let n2: int = if tag.len() == 0 { 1 } else { 0 };
    let n3: int = if pull_policy == "Never"@ { 1 } else { 0 };
    assert(all[n1 + n2 + n3] == f);
}

proof fn lemma_eol_none(list: Seq<(Seq<char>, Seq<char>)>, lower: Seq<char>, tag: Seq<char>)
    requires
        forall|j: int| 0 <= j < list.len() ==> !shows_pattern(lower, tag, #[trigger] list[j].0),
    ensures
        eol_match(list, lower, tag) is None,
    decreases list.len(),
{
    if list.len() > 0 {
        let d = list.drop_first();
        assert(!shows_pattern(lower, tag, list[0].0));
        assert forall|j: int| 0 <= j < d.len() implies !shows_pattern(lower, tag, #[trigger] d[j].0) by {
            assert(d[j] == list[j + 1]);
        }
        lemma_eol_none(d, lower, tag);
    }
}

/// An image that holds none of the documented end-of-life patterns gets no
/// `End-of-life base image` finding.
pub proof fn law_no_end_of_life_without_pattern(image: Seq<char>, tag: Seq<char>, pull_policy: Seq<char>, registry: Seq<char>)
    requires
        forall|j: int| 0 <= j < documented_eol_order().len() ==> !shows_pattern(lowercase(image), tag, #[trigger] documented_eol_order()[j]),
    ensures
        forall|k: int| 0 <= k < image_findings(image, tag, pull_policy, registry).len()
            ==> (#[trigger] image_findings(image, tag, pull_policy, registry)[k]).title != "End-of-life base image"@,
{
    lemma_eol_tables_agree();
    let t = eol_list();
    assert forall|j: int| 0 <= j < t.len() implies !shows_pattern(lowercase(image), tag, #[trigger] t[j].0) by {
        assert(t[j].0 == documented_eol_order()[j]);
    }
    lemma_eol_none(t, lowercase(image), tag);
    reveal_strlit("End-of-life base image");
    reveal_strlit("Using :latest tag");
    reveal_strlit("No image tag specified");
    reveal_strlit("Pull policy: Never");
    reveal_strlit("Docker Hub registry");
    assert("Using :latest tag"@.len() != "End-of-life base image"@.len());
    assert("No image tag specified"@[0] != "End-of-life base image"@[0]);
    assert("Pull policy: Never"@.len() != "End-of-life base image"@.len());
    assert("Docker Hub registry"@.len() != "End-of-life base image"@.len());
}

/// The tag, pull policy and registry checks: the tag `latest` gives a high
/// `Using :latest tag` finding, an empty tag a high `No image tag
/// specified`, the pull policy `Never` a medium `Pull policy: Never`, and
/// the registry `docker.io` an info `Docker Hub registry` finding.
pub proof fn law_tag_policy_registry_reported(image: Seq<char>, tag: Seq<char>, pull_policy: Seq<char>, registry: Seq<char>)
    ensures
        ({
            let fs = image_findings(image, tag, pull_policy, registry);
            &&& tag == "latest"@ ==> fs.contains(ImageFindingView { severity: "high"@, title: "Using :latest tag"@,
                    description: "Mutable tag \u{2014} deployments are non-reproducible. Pin to a specific version or digest."@ })
            &&& tag.len() == 0 ==> fs.contains(ImageFindingView { severity: "high"@, title: "No image tag specified"@,
                    description: "Defaults to :latest. Always specify an explicit tag."@ })
            &&& pull_policy == "Never"@ ==> fs.contains(ImageFindingView { severity: "medium"@, title: "Pull policy: Never"@,
                    description: "Image will never be pulled. Ensure it exists on all nodes."@ })
            &&& registry == "docker.io"@ ==> fs.contains(ImageFindingView { severity: "info"@, title: "Docker Hub registry"@,
                    description: "Consider a private registry for production to avoid rate limits."@ })
        }),
{
    let fs = image_findings(image, tag, pull_policy, registry);
    let n1: int = if tag == "latest"@ { 1 } else { 0 };
    let n2: int = if tag.len() == 0 { 1 } else { 0 };
    let n3: int = if pull_policy == "Never"@ { 1 } else { 0 };
    let n4: int = if eol_match(eol_list(), lowercase(image), tag) is Some { 1 } else { 0 };
    if tag == "latest"@ {
        assert(fs[0].title == "Using :latest tag"@);
    }
    if tag.len() == 0 {
        assert(fs[n1].title == "No image tag specified"@);
    }
    if pull_policy == "Never"@ {
        assert(fs[n1 + n2].title == "Pull policy: Never"@);
    }
    if registry == "docker.io"@ {
        assert(fs[n1 + n2 + n3 + n4].title == "Docker Hub registry"@);
    }
}

} // verus!
