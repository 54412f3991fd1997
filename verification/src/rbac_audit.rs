//! RBAC audit: wildcard grants, cluster-admin exposure, privilege
//! escalation, sensitive resources, tenant isolation and default service
//! accounts, with a score.
use vstd::prelude::*;
use crate::model::{opt_view, unwrap_or_empty};
use crate::text::{join_seq, views, opt_views, seq_contains, seq_starts_with, string_of, str_eq, str_contains, str_starts_with,
    join, clone_strings, strings_or_empty, vec_has, dec_repr, append_u64};

verus! {

#[derive(Debug)]
pub struct RbacAuditFinding {
    pub severity: String,
    pub category: String,
    pub title: String,
    pub description: String,
    pub binding_name: String,
    pub binding_kind: String,
    pub role_name: String,
    pub subjects: Vec<String>,
    pub namespace: Option<String>,
    pub remediation: String,
}

pub struct RbacFindingView {
    pub severity: Seq<char>,
    pub category: Seq<char>,
    pub title: Seq<char>,
    pub description: Seq<char>,
    pub binding_name: Seq<char>,
    pub binding_kind: Seq<char>,
    pub role_name: Seq<char>,
    pub subjects: Seq<Seq<char>>,
    pub namespace: Option<Seq<char>>,
    pub remediation: Seq<char>,
}

pub open spec fn opt_str(o: Option<String>) -> Option<Seq<char>> {
    match o {
        Some(s) => Some(s@),
        None => None,
    }
}

impl View for RbacAuditFinding {
    type V = RbacFindingView;

    open spec fn view(&self) -> RbacFindingView {
        RbacFindingView {
            severity: self.severity@,
            category: self.category@,
            title: self.title@,
            description: self.description@,
            binding_name: self.binding_name@,
            binding_kind: self.binding_kind@,
            role_name: self.role_name@,
            subjects: views(self.subjects@),
            namespace: opt_str(self.namespace),
            remediation: self.remediation@,
        }
    }
}

#[derive(Debug)]
pub struct RbacAuditSummary {
    pub critical: u32,
    pub high: u32,
    pub medium: u32,
    pub low: u32,
    pub total_roles_scanned: u32,
    pub total_bindings_scanned: u32,
    pub score: u32,
}

#[derive(Debug)]
pub struct RbacAuditResult {
    pub findings: Vec<RbacAuditFinding>,
    pub summary: RbacAuditSummary,
}

/// A rule of a role, lists defaulting to empty.
#[derive(Debug)]
pub struct RuleInfo {
    pub api_groups: Vec<String>,
    pub resources: Vec<String>,
    pub verbs: Vec<String>,
    pub resource_names: Vec<String>,
}

/// A Role or ClusterRole with its rules.
#[derive(Debug)]
pub struct ResolvedRole {
    pub name: String,
    pub is_cluster_role: bool,
    pub namespace: Option<String>,
    pub rules: Vec<RuleInfo>,
}

pub struct RuleView {
    pub api_groups: Seq<Seq<char>>,
    pub resources: Seq<Seq<char>>,
    pub verbs: Seq<Seq<char>>,
    pub resource_names: Seq<Seq<char>>,
}

impl View for RuleInfo {
    type V = RuleView;

    open spec fn view(&self) -> RuleView {
        RuleView {
            api_groups: views(self.api_groups@),
            resources: views(self.resources@),
            verbs: views(self.verbs@),
            resource_names: views(self.resource_names@),
        }
    }
}

pub open spec fn fviews(v: Seq<RbacAuditFinding>) -> Seq<RbacFindingView> {
    v.map_values(|f: RbacAuditFinding| f@)
}

pub open spec fn rule_views(v: Seq<RuleInfo>) -> Seq<RuleView> {
    v.map_values(|r: RuleInfo| r@)
}

/// `kind:namespace/name`, or `kind:name` without a namespace.
pub open spec fn subject_text(kind: Seq<char>, name: Seq<char>, ns: Option<Seq<char>>) -> Seq<char> {
    match ns {
        Some(n) => kind + ":"@ + n + "/"@ + name,
        None => kind + ":"@ + name,
    }
}

/// Renders a subject for display.
pub fn format_subject(kind: &str, name: &str, ns: &Option<String>) -> (r: String)
    ensures
        r@ == subject_text(kind@, name@, opt_str(*ns)),
{
    let mut s = string_of(kind);
    s.append(":");
    match ns {
        Some(n) => {
            s.append(n.as_str());
            s.append("/");
        },
        None => {},
    }
    s.append(name);
    s
}

/// Whether the list holds the wildcard `*`.
pub fn has_wildcard(items: &Vec<String>) -> (r: bool)
    ensures
        r == views(items@).contains("*"@),
{
    vec_has(items, "*")
}

/// The elements of `items` that satisfy `p`, in order.
pub open spec fn filter_by(items: Seq<Seq<char>>, p: spec_fn(Seq<char>) -> bool) -> Seq<Seq<char>>
    decreases items.len(),
{
    if items.len() == 0 {
        Seq::empty()
    } else if p(items.last()) {
        filter_by(items.drop_last(), p).push(items.last())
    } else {
        filter_by(items.drop_last(), p)
    }
}

pub open spec fn is_write_verb(v: Seq<char>) -> bool {
    v == "create"@ || v == "update"@ || v == "patch"@ || v == "delete"@ || v == "deletecollection"@
}

pub open spec fn is_escalation_verb(v: Seq<char>) -> bool {
    v == "escalate"@ || v == "bind"@ || v == "impersonate"@
}

pub open spec fn is_rbac_resource(r: Seq<char>) -> bool {
    r == "roles"@ || r == "clusterroles"@ || r == "rolebindings"@ || r == "clusterrolebindings"@
}

pub open spec fn is_sensitive(r: Seq<char>) -> bool {
    r == "secrets"@ || r == "pods/exec"@ || r == "pods/attach"@ || r == "serviceaccounts/token"@
        || r == "tokenreviews"@ || r == "certificatesigningrequests"@
}

pub open spec fn is_most_sensitive(r: Seq<char>) -> bool {
    r == "secrets"@ || r == "pods/exec"@ || r == "serviceaccounts/token"@
}

pub open spec fn is_access_verb(v: Seq<char>) -> bool {
    v == "get"@ || v == "list"@ || v == "watch"@ || v == "create"@ || v == "update"@ || v == "patch"@ || v == "delete"@
}

pub open spec fn any_rbac(items: Seq<Seq<char>>) -> bool {
    exists|i: int| 0 <= i < items.len() && is_rbac_resource(#[trigger] items[i])
}

pub open spec fn any_access(items: Seq<Seq<char>>) -> bool {
    exists|i: int| 0 <= i < items.len() && is_access_verb(#[trigger] items[i])
}

/// The context in which a role's rules are examined.
pub struct BindingCtx {
    pub role_name: Seq<char>,
    pub binding_name: Seq<char>,
    pub binding_kind: Seq<char>,
    pub subjects: Seq<Seq<char>>,
    pub ns: Option<Seq<char>>,
}

pub open spec fn finding_in(c: BindingCtx, sev: Seq<char>, cat: Seq<char>, title: Seq<char>, desc: Seq<char>, remedy: Seq<char>) -> RbacFindingView {
    RbacFindingView {
        severity: sev,
        category: cat,
        title: title,
        description: desc,
        binding_name: c.binding_name,
        binding_kind: c.binding_kind,
        role_name: c.role_name,
        subjects: c.subjects,
        namespace: c.ns,
        remediation: remedy,
    }
}

pub open spec fn comma(items: Seq<Seq<char>>) -> Seq<char> {
    join_seq(items, ", "@)
}

/// The findings about a sensitive resource of a rule.
pub open spec fn sensitive_findings(c: BindingCtx, r: RuleView, res: Seq<Seq<char>>, wv: bool, scoped: bool) -> Seq<RbacFindingView>
    decreases res.len(),
{
    if res.len() == 0 {
        Seq::empty()
    } else {
        let rest = sensitive_findings(c, r, res.drop_last(), wv, scoped);
        let x = res.last();
        if is_sensitive(x) && (wv || any_access(r.verbs)) && !scoped {
            rest.push(finding_in(c, if is_most_sensitive(x) { "high"@ } else { "medium"@ }, "escalation"@,
                "Access to sensitive resource: "@ + x,
                "Role '"@ + c.role_name + "' grants ["@ + comma(r.verbs) + "] on '"@ + x + "'. Binding: '"@ + c.binding_name + "'"@,
                "Restrict access to '"@ + x + "' using resourceNames to limit scope, or remove if not needed."@))
        } else {
            rest
        }
    }
}

/// The findings about one rule, in the order checked.
pub open spec fn rule_findings(c: BindingCtx, r: RuleView) -> Seq<RbacFindingView> {
    let wv = r.verbs.contains("*"@);
    let wr = r.resources.contains("*"@);
    let wa = r.api_groups.contains("*"@);
    let scoped = r.resource_names.len() > 0;
    if wv && wr && wa && !scoped {
        seq![finding_in(c, "critical"@, "wildcard"@, "Full wildcard permissions (*.*.*)"@,
            "Role '"@ + c.role_name + "' grants all verbs on all resources in all API groups. Binding '"@ + c.binding_name
                + "' ("@ + c.binding_kind + ") exposes this to: "@ + comma(c.subjects),
            "Replace wildcard permissions with explicit verbs and resources. Follow the principle of least privilege."@)]
    } else {
        let writes = filter_by(r.verbs, |v: Seq<char>| is_write_verb(v));
        let escal = filter_by(r.verbs, |v: Seq<char>| is_escalation_verb(v));
        let targets_rbac = any_rbac(r.resources) || wr;
        (if wv && !wr && !scoped {
            seq![finding_in(c, "high"@, "wildcard"@, "Wildcard verbs on resources: "@ + comma(r.resources),
                "Role '"@ + c.role_name + "' grants all verbs (*) on ["@ + comma(r.resources) + "]. Binding: '"@ + c.binding_name + "'"@,
                "Specify only the verbs needed (get, list, watch, create, update, patch, delete) instead of using '*'."@)]
        } else {
            Seq::empty()
        }) + (if wr && !wv && !scoped && writes.len() > 0 {
            seq![finding_in(c, "high"@, "wildcard"@, "Write access to all resources: "@ + comma(writes),
                "Role '"@ + c.role_name + "' grants ["@ + comma(writes) + "] on all resources (*). Binding: '"@ + c.binding_name + "'"@,
                "Limit resource scope to only the specific resources that need write access."@)]
        } else {
            Seq::empty()
        }) + (if escal.len() > 0 && targets_rbac && !wv {
            seq![finding_in(c, "critical"@, "escalation"@, "Privilege escalation verbs on RBAC resources"@,
                "Role '"@ + c.role_name + "' grants ["@ + comma(escal) + "] on RBAC resources ["@ + comma(r.resources)
                    + "]. This allows creating or modifying roles/bindings to escalate privileges. Binding: '"@ + c.binding_name + "'"@,
                "Remove 'escalate', 'bind', and 'impersonate' verbs. Use aggregated ClusterRoles or admission webhooks to control role changes."@)]
        } else {
            Seq::empty()
        }) + sensitive_findings(c, r, r.resources, wv, scoped)
    }
}

/// The findings about every rule of a role, rule by rule.
pub open spec fn rules_findings(c: BindingCtx, rules: Seq<RuleView>) -> Seq<RbacFindingView>
    decreases rules.len(),
{
    if rules.len() == 0 {
        Seq::empty()
    } else {
        rules_findings(c, rules.drop_last()) + rule_findings(c, rules.last())
    }
}

// ---- executable ----

fn push_finding(v: &mut Vec<RbacAuditFinding>, f: RbacAuditFinding)
    ensures
        fviews(final(v)@) == fviews(old(v)@).push(f@),
{
    v.push(f);
    assert(fviews(final(v)@) =~= fviews(old(v)@).push(f@));
}

fn clone_opt_str(o: &Option<String>) -> (r: Option<String>)
    ensures
        opt_str(r) == opt_str(*o),
{
    match o {
        Some(s) => Some(string_of(s.as_str())),
        None => None,
    }
}

fn make_finding(sev: &str, cat: &str, title: String, desc: String, binding_name: &str, binding_kind: &str,
    role_name: &str, subjects: &Vec<String>, ns: &Option<String>, remedy: String) -> (r: RbacAuditFinding)
    ensures
        r@ == finding_in(BindingCtx { role_name: role_name@, binding_name: binding_name@, binding_kind: binding_kind@,
            subjects: views(subjects@), ns: opt_str(*ns) }, sev@, cat@, title@, desc@, remedy@),
{
    RbacAuditFinding {
        severity: string_of(sev),
        category: string_of(cat),
        title,
        description: desc,
        binding_name: string_of(binding_name),
        binding_kind: string_of(binding_kind),
        role_name: string_of(role_name),
        subjects: clone_strings(subjects),
        namespace: clone_opt_str(ns),
        remediation: remedy,
    }
}

fn cat(a: &str, b: &str) -> (r: String)
    ensures
        r@ == a@ + b@,
{
    let mut s = string_of(a);
    s.append(b);
    s
}

/// The elements of `items` for which `test` holds, as `filter_by` with `p`.
fn filter_verbs(items: &Vec<String>, escalation: bool) -> (r: Vec<String>)
    ensures
        views(r@) == if escalation {
            filter_by(views(items@), |v: Seq<char>| is_escalation_verb(v))
        } else {
            filter_by(views(items@), |v: Seq<char>| is_write_verb(v))
        },
{
    let ghost p: spec_fn(Seq<char>) -> bool = if escalation {
        |v: Seq<char>| is_escalation_verb(v)
    } else {
        |v: Seq<char>| is_write_verb(v)
    };
    let mut out: Vec<String> = Vec::new();
    let mut i: usize = 0;
    while i < items.len()
        invariant
            i <= items@.len(),
            p == (if escalation { |v: Seq<char>| is_escalation_verb(v) } else { |v: Seq<char>| is_write_verb(v) }),
            views(out@) == filter_by(views(items@.subrange(0, i as int)), p),
        decreases items@.len() - i,
    {
        let ghost sub = views(items@.subrange(0, i + 1));
        assert(sub.drop_last() =~= views(items@.subrange(0, i as int)));
        let v = items[i].as_str();
        let keep = if escalation {
            str_eq(v, "escalate") || str_eq(v, "bind") || str_eq(v, "impersonate")
        } else {
            str_eq(v, "create") || str_eq(v, "update") || str_eq(v, "patch") || str_eq(v, "delete")
                || str_eq(v, "deletecollection")
        };
        assert(keep == p(sub.last()));
        if keep {
            let ghost before = out@;
            out.push(string_of(v));
            assert(views(out@) =~= views(before).push(v@));
        }
        i = i + 1;
    }
    assert(items@.subrange(0, items@.len() as int) =~= items@);
    out
}

fn any_rbac_resource(items: &Vec<String>) -> (r: bool)
    ensures
        r == any_rbac(views(items@)),
{
    let mut i: usize = 0;
    while i < items.len()
        invariant
            i <= items@.len(),
            forall|k: int| 0 <= k < i ==> !is_rbac_resource(#[trigger] views(items@)[k]),
        decreases items@.len() - i,
    {
        let v = items[i].as_str();
        if str_eq(v, "roles") || str_eq(v, "clusterroles") || str_eq(v, "rolebindings") || str_eq(v, "clusterrolebindings") {
            assert(is_rbac_resource(views(items@)[i as int]));
            return true;
        }
        assert(views(items@)[i as int] == v@);
        i = i + 1;
    }
    false
}

fn any_access_verb(items: &Vec<String>) -> (r: bool)
    ensures
        r == any_access(views(items@)),
{
    let mut i: usize = 0;
    while i < items.len()
        invariant
            i <= items@.len(),
            forall|k: int| 0 <= k < i ==> !is_access_verb(#[trigger] views(items@)[k]),
        decreases items@.len() - i,
    {
        let v = items[i].as_str();
        if str_eq(v, "get") || str_eq(v, "list") || str_eq(v, "watch") || str_eq(v, "create") || str_eq(v, "update")
            || str_eq(v, "patch") || str_eq(v, "delete") {
            assert(is_access_verb(views(items@)[i as int]));
            return true;
        }
        assert(views(items@)[i as int] == v@);
        i = i + 1;
    }
    false
}

/// Examines each rule of `role` as bound by the binding `binding_name` of
/// kind `binding_kind` to `subjects`, adding what it finds to `findings`.
pub fn analyze_role_rules(role: &ResolvedRole, binding_name: &str, binding_kind: &str, subjects: &Vec<String>,
    binding_ns: &Option<String>, findings: &mut Vec<RbacAuditFinding>)
    ensures
        fviews(final(findings)@) == fviews(old(findings)@) + rules_findings(
            BindingCtx { role_name: role.name@, binding_name: binding_name@, binding_kind: binding_kind@,
                subjects: views(subjects@), ns: opt_str(*binding_ns) },
            rule_views(role.rules@)),
{
    let ghost c = BindingCtx { role_name: role.name@, binding_name: binding_name@, binding_kind: binding_kind@,
        subjects: views(subjects@), ns: opt_str(*binding_ns) };
    let ghost start = fviews(findings@);
    let role_name = role.name.as_str();
    let mut i: usize = 0;
    while i < role.rules.len()
        invariant
            i <= role.rules@.len(),
            c == (BindingCtx { role_name: role.name@, binding_name: binding_name@, binding_kind: binding_kind@,
                subjects: views(subjects@), ns: opt_str(*binding_ns) }),
            role_name@ == role.name@,
            fviews(findings@) == start + rules_findings(c, rule_views(role.rules@.subrange(0, i as int))),
        decreases role.rules@.len() - i,
    {
        let ghost sub = rule_views(role.rules@.subrange(0, i + 1));
        assert(sub.drop_last() =~= rule_views(role.rules@.subrange(0, i as int)));
        let rule = &role.rules[i];
        assert(sub.last() == rule@);
        let ghost before = fviews(findings@);
        check_rule(rule, role_name, binding_name, binding_kind, subjects, binding_ns, findings);
        proof {
            assert(fviews(findings@) =~= start + rules_findings(c, sub));
        }
        i = i + 1;
    }
    assert(role.rules@.subrange(0, role.rules@.len() as int) =~= role.rules@);
}

fn check_rule(rule: &RuleInfo, role_name: &str, binding_name: &str, binding_kind: &str, subjects: &Vec<String>,
    binding_ns: &Option<String>, findings: &mut Vec<RbacAuditFinding>)
    ensures
        fviews(final(findings)@) == fviews(old(findings)@) + rule_findings(
            BindingCtx { role_name: role_name@, binding_name: binding_name@, binding_kind: binding_kind@,
                subjects: views(subjects@), ns: opt_str(*binding_ns) },
            rule@),
{
    let ghost c = BindingCtx { role_name: role_name@, binding_name: binding_name@, binding_kind: binding_kind@,
        subjects: views(subjects@), ns: opt_str(*binding_ns) };
    let ghost start = fviews(findings@);
    let wv = has_wildcard(&rule.verbs);
    let wr = has_wildcard(&rule.resources);
    let wa = has_wildcard(&rule.api_groups);
    let scoped = rule.resource_names.len() > 0;
    if wv && wr && wa && !scoped {
        let mut desc = cat("Role '", role_name);
        desc.append("' grants all verbs on all resources in all API groups. Binding '");
        desc.append(binding_name);
        desc.append("' (");
        desc.append(binding_kind);
        desc.append(") exposes this to: ");
        let subj = join(subjects, ", ");
        desc.append(subj.as_str());
        push_finding(findings, make_finding("critical", "wildcard", string_of("Full wildcard permissions (*.*.*)"), desc,
            binding_name, binding_kind, role_name, subjects, binding_ns,
            string_of("Replace wildcard permissions with explicit verbs and resources. Follow the principle of least privilege.")));
        assert(fviews(findings@) =~= start + rule_findings(c, rule@));
        return;
    }
    let resources_text = join(&rule.resources, ", ");
    if wv && !wr && !scoped {
        let title = cat("Wildcard verbs on resources: ", resources_text.as_str());
        let mut desc = cat("Role '", role_name);
        desc.append("' grants all verbs (*) on [");
        desc.append(resources_text.as_str());
        desc.append("]. Binding: '");
        desc.append(binding_name);
        desc.append("'");
        push_finding(findings, make_finding("high", "wildcard", title, desc, binding_name, binding_kind, role_name, subjects, binding_ns,
            string_of("Specify only the verbs needed (get, list, watch, create, update, patch, delete) instead of using '*'.")));
    }
    let ghost f1 = fviews(findings@);
    let writes = filter_verbs(&rule.verbs, false);
    if wr && !wv && !scoped && writes.len() > 0 {
        let wtext = join(&writes, ", ");
        let title = cat("Write access to all resources: ", wtext.as_str());
        let mut desc = cat("Role '", role_name);
        desc.append("' grants [");
        desc.append(wtext.as_str());
        desc.append("] on all resources (*). Binding: '");
        desc.append(binding_name);
        desc.append("'");
        push_finding(findings, make_finding("high", "wildcard", title, desc, binding_name, binding_kind, role_name, subjects, binding_ns,
            string_of("Limit resource scope to only the specific resources that need write access.")));
    }
    let ghost f2 = fviews(findings@);
    let escal = filter_verbs(&rule.verbs, true);
    let targets_rbac = any_rbac_resource(&rule.resources) || wr;
    if escal.len() > 0 && targets_rbac && !wv {
        let etext = join(&escal, ", ");
        let mut desc = cat("Role '", role_name);
        desc.append("' grants [");
        desc.append(etext.as_str());
        desc.append("] on RBAC resources [");
        desc.append(resources_text.as_str());
        desc.append("]. This allows creating or modifying roles/bindings to escalate privileges. Binding: '");
        desc.append(binding_name);
        desc.append("'");
        push_finding(findings, make_finding("critical", "escalation", string_of("Privilege escalation verbs on RBAC resources"), desc,
            binding_name, binding_kind, role_name, subjects, binding_ns,
            string_of("Remove 'escalate', 'bind', and 'impersonate' verbs. Use aggregated ClusterRoles or admission webhooks to control role changes.")));
    }
    let ghost f3 = fviews(findings@);
    let access = any_access_verb(&rule.verbs);
    let verbs_text = join(&rule.verbs, ", ");
    let mut k: usize = 0;
    while k < rule.resources.len()
        invariant
            k <= rule.resources@.len(),
            c == (BindingCtx { role_name: role_name@, binding_name: binding_name@, binding_kind: binding_kind@,
                subjects: views(subjects@), ns: opt_str(*binding_ns) }),
            wv == rule@.verbs.contains("*"@),
            scoped == (rule@.resource_names.len() > 0),
            access == any_access(rule@.verbs),
            verbs_text@ == comma(rule@.verbs),
            fviews(findings@) == f3 + sensitive_findings(c, rule@, views(rule.resources@.subrange(0, k as int)), wv, scoped),
        decreases rule.resources@.len() - k,
    {
        let ghost sub = views(rule.resources@.subrange(0, k + 1));
        assert(sub.drop_last() =~= views(rule.resources@.subrange(0, k as int)));
        let x = rule.resources[k].as_str();
        assert(sub.last() == x@);
        let sensitive = str_eq(x, "secrets") || str_eq(x, "pods/exec") || str_eq(x, "pods/attach")
            || str_eq(x, "serviceaccounts/token") || str_eq(x, "tokenreviews") || str_eq(x, "certificatesigningrequests");
        if sensitive && (wv || access) && !scoped {
            let most = str_eq(x, "secrets") || str_eq(x, "pods/exec") || str_eq(x, "serviceaccounts/token");
            let sev = if most { "high" } else { "medium" };
            let title = cat("Access to sensitive resource: ", x);
            let mut desc = cat("Role '", role_name);
            desc.append("' grants [");
            desc.append(verbs_text.as_str());
            desc.append("] on '");
            desc.append(x);
            desc.append("'. Binding: '");
            desc.append(binding_name);
            desc.append("'");
            let mut remedy = cat("Restrict access to '", x);
            remedy.append("' using resourceNames to limit scope, or remove if not needed.");
            push_finding(findings, make_finding(sev, "escalation", title, desc, binding_name, binding_kind, role_name, subjects,
                binding_ns, remedy));
        }
        k = k + 1;
    }
    assert(rule.resources@.subrange(0, rule.resources@.len() as int) =~= rule.resources@);
    assert(fviews(findings@) =~= start + rule_findings(c, rule@));
}

// ---- the objects audited ----

/// A rule of a Role or ClusterRole as the API gives it.
#[derive(Debug)]
pub struct PolicyRule {
    pub api_groups: Option<Vec<String>>,
    pub resources: Option<Vec<String>>,
    pub verbs: Vec<String>,
    pub resource_names: Option<Vec<String>>,
}

/// A Role or ClusterRole.
#[derive(Debug)]
pub struct RoleObject {
    pub name: Option<String>,
    pub namespace: Option<String>,
    pub rules: Option<Vec<PolicyRule>>,
}

/// A subject of a binding.
#[derive(Debug)]
pub struct SubjectRef {
    pub kind: String,
    pub name: String,
    pub namespace: Option<String>,
}

/// A RoleBinding or ClusterRoleBinding.
#[derive(Debug)]
pub struct BindingObject {
    pub name: Option<String>,
    pub namespace: Option<String>,
    pub role_kind: String,
    pub role_name: String,
    pub subjects: Option<Vec<SubjectRef>>,
}

pub open spec fn policy_view(p: PolicyRule) -> RuleView {
    RuleView {
        api_groups: opt_views(p.api_groups),
        resources: opt_views(p.resources),
        verbs: views(p.verbs@),
        resource_names: opt_views(p.resource_names),
    }
}

pub open spec fn policy_views(ps: Seq<PolicyRule>) -> Seq<RuleView>
    decreases ps.len(),
{
    if ps.len() == 0 {
        Seq::empty()
    } else {
        policy_views(ps.drop_last()).push(policy_view(ps.last()))
    }
}

pub open spec fn role_rules(r: RoleObject) -> Seq<RuleView> {
    match r.rules {
        Some(v) => policy_views(v@),
        None => Seq::empty(),
    }
}

/// The rules of the last ClusterRole named `name`.
pub open spec fn cluster_role_rules(crs: Seq<RoleObject>, name: Seq<char>) -> Option<Seq<RuleView>>
    decreases crs.len(),
{
    if crs.len() == 0 {
        None
    } else if opt_view(crs.last().name) == name {
        Some(role_rules(crs.last()))
    } else {
        cluster_role_rules(crs.drop_last(), name)
    }
}

/// The rules of the last Role named `name` in namespace `ns`.
pub open spec fn role_rules_in(rs: Seq<RoleObject>, ns: Seq<char>, name: Seq<char>) -> Option<Seq<RuleView>>
    decreases rs.len(),
{
    if rs.len() == 0 {
        None
    } else if opt_view(rs.last().name) == name && opt_view(rs.last().namespace) == ns {
        Some(role_rules(rs.last()))
    } else {
        role_rules_in(rs.drop_last(), ns, name)
    }
}

pub open spec fn subject_texts(ss: Seq<SubjectRef>) -> Seq<Seq<char>>
    decreases ss.len(),
{
    if ss.len() == 0 {
        Seq::empty()
    } else {
        subject_texts(ss.drop_last()).push(subject_text(ss.last().kind@, ss.last().name@, opt_str(ss.last().namespace)))
    }
}

pub open spec fn binding_subjects(b: BindingObject) -> Seq<Seq<char>> {
    match b.subjects {
        Some(v) => subject_texts(v@),
        None => Seq::empty(),
    }
}

pub open spec fn is_non_system(s: Seq<char>) -> bool {
    !seq_contains(s, "system:"@) || seq_contains(s, "system:serviceaccount:"@)
}

/// The findings about one ClusterRoleBinding with subjects.
pub open spec fn crb_findings(b: BindingObject, crs: Seq<RoleObject>) -> Seq<RbacFindingView> {
    let bn = opt_view(b.name);
    let subjects = binding_subjects(b);
    let non_system = filter_by(subjects, |s: Seq<char>| is_non_system(s));
    (if b.role_name@ == "cluster-admin"@ && non_system.len() > 0 {
        seq![RbacFindingView {
            severity: "critical"@,
            category: "cluster-admin"@,
            title: "cluster-admin bound to non-system subjects"@,
            description: "ClusterRoleBinding '"@ + bn + "' grants cluster-admin to: "@ + comma(non_system),
            binding_name: bn,
            binding_kind: "ClusterRoleBinding"@,
            role_name: b.role_name@,
            subjects: subjects,
            namespace: None,
            remediation: "Replace cluster-admin with a scoped ClusterRole that grants only necessary permissions. Use namespace-scoped RoleBindings where possible."@,
        }]
    } else {
        Seq::empty()
    }) + match cluster_role_rules(crs, b.role_name@) {
        Some(rules) => rules_findings(BindingCtx { role_name: b.role_name@, binding_name: bn,
            binding_kind: "ClusterRoleBinding"@, subjects: subjects, ns: None }, rules),
        None => Seq::empty(),
    }
}

pub open spec fn is_builtin_role(n: Seq<char>) -> bool {
    n == "admin"@ || n == "edit"@ || n == "view"@
}

pub open spec fn rule_broad(r: RuleView) -> bool {
    r.verbs.contains("*"@) || r.resources.contains("*"@)
}

pub open spec fn has_broad(rules: Seq<RuleView>) -> bool {
    exists|i: int| 0 <= i < rules.len() && #[trigger] rule_broad(rules[i])
}

/// The findings about one RoleBinding with subjects.
pub open spec fn rb_findings(b: BindingObject, crs: Seq<RoleObject>, rs: Seq<RoleObject>) -> Seq<RbacFindingView> {
    let bn = opt_view(b.name);
    let subjects = binding_subjects(b);
    let ns = opt_str(b.namespace);
    let to_cluster_role = b.role_kind@ == "ClusterRole"@;
    let resolved = if to_cluster_role {
        cluster_role_rules(crs, b.role_name@)
    } else {
        role_rules_in(rs, opt_view(b.namespace), b.role_name@)
    };
    (match resolved {
        Some(rules) => rules_findings(BindingCtx { role_name: b.role_name@, binding_name: bn,
            binding_kind: "RoleBinding"@, subjects: subjects, ns: ns }, rules),
        None => Seq::empty(),
    }) + (if to_cluster_role && !is_builtin_role(b.role_name@) {
        match cluster_role_rules(crs, b.role_name@) {
            Some(rules) => if has_broad(rules) {
                seq![RbacFindingView {
                    severity: "medium"@,
                    category: "cross-namespace"@,
                    title: "RoleBinding references broad ClusterRole"@,
                    description: "RoleBinding '"@ + bn + "' in namespace '"@ + (match ns { Some(n) => n, None => "unknown"@ })
                        + "' references ClusterRole '"@ + b.role_name@
                        + "' which has wildcard permissions. While scoped to the namespace, this may grant broader access than intended."@,
                    binding_name: bn,
                    binding_kind: "RoleBinding"@,
                    role_name: b.role_name@,
                    subjects: subjects,
                    namespace: ns,
                    remediation: "Create a namespace-scoped Role with only the permissions needed instead of referencing a broad ClusterRole."@,
                }]
            } else {
                Seq::empty()
            },
            None => Seq::empty(),
        }
    } else {
        Seq::empty()
    })
}

/// An ordered map from names to sets of names: entries in order of first
/// insertion, each set in order of first insertion.
pub open spec fn key_index(m: Seq<(Seq<char>, Seq<Seq<char>>)>, key: Seq<char>) -> Option<int>
    decreases m.len(),
{
    if m.len() == 0 {
        None
    } else if m[0].0 == key {
        Some(0)
    } else {
        match key_index(m.drop_first(), key) {
            Some(k) => Some(k + 1),
            None => None,
        }
    }
}

/// `m` with `val` added to the set of `key`.
pub open spec fn set_insert(m: Seq<(Seq<char>, Seq<Seq<char>>)>, key: Seq<char>, val: Seq<char>) -> Seq<(Seq<char>, Seq<Seq<char>>)> {
    match key_index(m, key) {
        Some(k) => if m[k].1.contains(val) { m } else { m.update(k, (key, m[k].1.push(val))) },
        None => m.push((key, seq![val])),
    }
}

pub open spec fn insert_all(m: Seq<(Seq<char>, Seq<Seq<char>>)>, key: Seq<char>, vals: Seq<Seq<char>>) -> Seq<(Seq<char>, Seq<Seq<char>>)>
    decreases vals.len(),
{
    if vals.len() == 0 {
        m
    } else {
        set_insert(insert_all(m, key, vals.drop_last()), key, vals.last())
    }
}

/// For each entry in order, each of its values mapped back to its key.
pub open spec fn invert(m: Seq<(Seq<char>, Seq<Seq<char>>)>) -> Seq<(Seq<char>, Seq<Seq<char>>)>
    decreases m.len(),
{
    if m.len() == 0 {
        Seq::empty()
    } else {
        invert_values(invert(m.drop_last()), m.last().1, m.last().0)
    }
}

pub open spec fn invert_values(acc: Seq<(Seq<char>, Seq<Seq<char>>)>, vals: Seq<Seq<char>>, key: Seq<char>) -> Seq<(Seq<char>, Seq<Seq<char>>)>
    decreases vals.len(),
{
    if vals.len() == 0 {
        acc
    } else {
        set_insert(invert_values(acc, vals.drop_last(), key), vals.last(), key)
    }
}

/// Which namespaces each subject is bound in, `*` standing for the whole
/// cluster, in order of first appearance.
pub open spec fn namespace_subjects(crbs: Seq<BindingObject>, rbs: Seq<BindingObject>) -> Seq<(Seq<char>, Seq<Seq<char>>)> {
    rb_subjects(crb_subjects(Seq::empty(), crbs), rbs)
}

pub open spec fn crb_subjects(m: Seq<(Seq<char>, Seq<Seq<char>>)>, crbs: Seq<BindingObject>) -> Seq<(Seq<char>, Seq<Seq<char>>)>
    decreases crbs.len(),
{
    if crbs.len() == 0 {
        m
    } else {
        insert_all(crb_subjects(m, crbs.drop_last()), "*"@, binding_subjects(crbs.last()))
    }
}

pub open spec fn rb_subjects(m: Seq<(Seq<char>, Seq<Seq<char>>)>, rbs: Seq<BindingObject>) -> Seq<(Seq<char>, Seq<Seq<char>>)>
    decreases rbs.len(),
{
    if rbs.len() == 0 {
        m
    } else {
        let prev = rb_subjects(m, rbs.drop_last());
        match rbs.last().namespace {
            Some(ns) => insert_all(prev, ns@, binding_subjects(rbs.last())),
            None => prev,
        }
    }
}

pub open spec fn tenant_finding(subject: Seq<char>, nss: Seq<Seq<char>>) -> Seq<RbacFindingView> {
    let skip = (seq_starts_with(subject, "Group:system:"@) && !seq_contains(subject, "serviceaccount"@))
        || seq_starts_with(subject, "User:system:"@);
    let scoped = filter_by(nss, |n: Seq<char>| n != "*"@);
    if skip {
        Seq::empty()
    } else if nss.contains("*"@) && scoped.len() > 0 {
        seq![RbacFindingView {
            severity: "high"@,
            category: "tenant-isolation"@,
            title: "Subject has both cluster-wide and namespace-scoped access"@,
            description: "'"@ + subject + "' has cluster-wide access (via ClusterRoleBinding) AND namespace-scoped bindings in: "@
                + comma(scoped) + ". This may break tenant isolation."@,
            binding_name: "multiple"@,
            binding_kind: "mixed"@,
            role_name: "multiple"@,
            subjects: seq![subject],
            namespace: None,
            remediation: "Review whether this subject truly needs cluster-wide access. Prefer namespace-scoped RoleBindings for tenant isolation."@,
        }]
    } else if scoped.len() > 2 {
        seq![RbacFindingView {
            severity: "medium"@,
            category: "tenant-isolation"@,
            title: "Subject spans multiple namespaces"@,
            description: "'"@ + subject + "' has access to "@ + dec_repr(scoped.len()) + " namespaces: "@ + comma(nss)
                + ". In multi-tenant clusters, cross-namespace access may break isolation boundaries."@,
            binding_name: "multiple"@,
            binding_kind: "RoleBinding"@,
            role_name: "multiple"@,
            subjects: seq![subject],
            namespace: None,
            remediation: "Verify that cross-namespace access is intentional. Use separate service accounts per tenant namespace."@,
        }]
    } else {
        Seq::empty()
    }
}

pub open spec fn tenant_findings(m: Seq<(Seq<char>, Seq<Seq<char>>)>) -> Seq<RbacFindingView>
    decreases m.len(),
{
    if m.len() == 0 {
        Seq::empty()
    } else {
        tenant_findings(m.drop_last()) + tenant_finding(m.last().0, m.last().1)
    }
}

pub open spec fn sa_finding(s: SubjectRef, binding_name: Seq<char>, role_name: Seq<char>) -> Seq<RbacFindingView> {
    if s.kind@ == "ServiceAccount"@ && s.name@ == "default"@ {
        seq![RbacFindingView {
            severity: "high"@,
            category: "service-account"@,
            title: "Default ServiceAccount bound to ClusterRole"@,
            description: "The default ServiceAccount in namespace '"@ + (match opt_str(s.namespace) { Some(n) => n, None => "unknown"@ })
                + "' is bound to ClusterRole '"@ + role_name + "' via '"@ + binding_name
                + "'. Any pod in that namespace inherits these permissions."@,
            binding_name: binding_name,
            binding_kind: "ClusterRoleBinding"@,
            role_name: role_name,
            subjects: seq![subject_text(s.kind@, s.name@, opt_str(s.namespace))],
            namespace: opt_str(s.namespace),
            remediation: "Create dedicated service accounts for workloads. Never bind roles to the default ServiceAccount."@,
        }]
    } else {
        Seq::empty()
    }
}

pub open spec fn sa_findings(ss: Seq<SubjectRef>, binding_name: Seq<char>, role_name: Seq<char>) -> Seq<RbacFindingView>
    decreases ss.len(),
{
    if ss.len() == 0 {
        Seq::empty()
    } else {
        sa_findings(ss.drop_last(), binding_name, role_name) + sa_finding(ss.last(), binding_name, role_name)
    }
}

pub open spec fn default_sa_findings(crbs: Seq<BindingObject>) -> Seq<RbacFindingView>
    decreases crbs.len(),
{
    if crbs.len() == 0 {
        Seq::empty()
    } else {
        let b = crbs.last();
        default_sa_findings(crbs.drop_last()) + match b.subjects {
            Some(ss) => sa_findings(ss@, opt_view(b.name), b.role_name@),
            None => Seq::empty(),
        }
    }
}

pub open spec fn all_crb_findings(crbs: Seq<BindingObject>, crs: Seq<RoleObject>) -> Seq<RbacFindingView>
    decreases crbs.len(),
{
    if crbs.len() == 0 {
        Seq::empty()
    } else {
        all_crb_findings(crbs.drop_last(), crs)
            + if binding_subjects(crbs.last()).len() > 0 { crb_findings(crbs.last(), crs) } else { Seq::empty() }
    }
}

pub open spec fn all_rb_findings(rbs: Seq<BindingObject>, crs: Seq<RoleObject>, rs: Seq<RoleObject>) -> Seq<RbacFindingView>
    decreases rbs.len(),
{
    if rbs.len() == 0 {
        Seq::empty()
    } else {
        all_rb_findings(rbs.drop_last(), crs, rs)
            + if binding_subjects(rbs.last()).len() > 0 { rb_findings(rbs.last(), crs, rs) } else { Seq::empty() }
    }
}

/// Every finding of an audit, in the order the checks run.
pub open spec fn audit_findings(crs: Seq<RoleObject>, crbs: Seq<BindingObject>, rs: Seq<RoleObject>, rbs: Seq<BindingObject>) -> Seq<RbacFindingView> {
    all_crb_findings(crbs, crs) + all_rb_findings(rbs, crs, rs)
        + tenant_findings(invert(namespace_subjects(crbs, rbs))) + default_sa_findings(crbs)
}

fn rule_info(p: &PolicyRule) -> (r: RuleInfo)
    ensures
        r@ == policy_view(*p),
{
    RuleInfo {
        api_groups: strings_or_empty(&p.api_groups),
        resources: strings_or_empty(&p.resources),
        verbs: clone_strings(&p.verbs),
        resource_names: strings_or_empty(&p.resource_names),
    }
}

/// The role `obj` with its rules resolved, lists defaulting to empty.
pub fn resolve_role(obj: &RoleObject, is_cluster_role: bool) -> (r: ResolvedRole)
    ensures
        r.name@ == opt_view(obj.name),
        rule_views(r.rules@) == role_rules(*obj),
        r.is_cluster_role == is_cluster_role,
{
    let mut rules: Vec<RuleInfo> = Vec::new();
    match &obj.rules {
        Some(ps) => {
            let mut i: usize = 0;
            while i < ps.len()
                invariant
                    i <= ps@.len(),
                    rule_views(rules@) == policy_views(ps@.subrange(0, i as int)),
                decreases ps@.len() - i,
            {
                let ghost sub = ps@.subrange(0, i + 1);
                assert(sub.drop_last() =~= ps@.subrange(0, i as int));
                let ghost before = rules@;
                let ri = rule_info(&ps[i]);
                rules.push(ri);
                assert(rule_views(rules@) =~= rule_views(before).push(ri@));
                i = i + 1;
            }
            assert(ps@.subrange(0, ps@.len() as int) =~= ps@);
        },
        None => {
            assert(rule_views(rules@) =~= Seq::<RuleView>::empty());
        },
    }
    let namespace = if is_cluster_role { None } else { Some(unwrap_or_empty(&obj.namespace)) };
    ResolvedRole { name: unwrap_or_empty(&obj.name), is_cluster_role, namespace, rules }
}

fn find_role(objs: &Vec<RoleObject>, ns: Option<&str>, name: &str) -> (r: Option<ResolvedRole>)
    ensures
        match ns {
            None => match r {
                Some(rr) => cluster_role_rules(objs@, name@) == Some(rule_views(rr.rules@)),
                None => cluster_role_rules(objs@, name@) is None,
            },
            Some(n) => match r {
                Some(rr) => role_rules_in(objs@, n@, name@) == Some(rule_views(rr.rules@)),
                None => role_rules_in(objs@, n@, name@) is None,
            },
        },
        r matches Some(rr) ==> rr.name@ == name@,
{
    let mut i: usize = objs.len();
    assert(objs@.subrange(0, objs@.len() as int) =~= objs@);
    while i > 0
        invariant
            i <= objs@.len(),
            ns is None ==> cluster_role_rules(objs@, name@) == cluster_role_rules(objs@.subrange(0, i as int), name@),
            ns matches Some(n) ==> role_rules_in(objs@, n@, name@) == role_rules_in(objs@.subrange(0, i as int), n@, name@),
        decreases i,
    {
        let ghost pre = objs@.subrange(0, i as int);
        assert(pre.drop_last() =~= objs@.subrange(0, i - 1));
        let o = &objs[i - 1];
        let oname = unwrap_or_empty(&o.name);
        let hit = match ns {
            None => str_eq(oname.as_str(), name),
            Some(n) => {
                let ons = unwrap_or_empty(&o.namespace);
                str_eq(oname.as_str(), name) && str_eq(ons.as_str(), n)
            },
        };
        if hit {
            let rr = resolve_role(o, ns.is_none());
            return Some(rr);
        }
        i = i - 1;
    }
    None
}

fn subject_strings(b: &BindingObject) -> (r: Vec<String>)
    ensures
        views(r@) == binding_subjects(*b),
{
    let mut out: Vec<String> = Vec::new();
    match &b.subjects {
        Some(ss) => {
            let mut i: usize = 0;
            while i < ss.len()
                invariant
                    i <= ss@.len(),
                    views(out@) == subject_texts(ss@.subrange(0, i as int)),
                decreases ss@.len() - i,
            {
                let ghost sub = ss@.subrange(0, i + 1);
                assert(sub.drop_last() =~= ss@.subrange(0, i as int));
                let ghost before = out@;
                let t = format_subject(ss[i].kind.as_str(), ss[i].name.as_str(), &ss[i].namespace);
                out.push(t);
                assert(views(out@) =~= views(before).push(t@));
                i = i + 1;
            }
            assert(ss@.subrange(0, ss@.len() as int) =~= ss@);
        },
        None => {
            assert(views(out@) =~= Seq::<Seq<char>>::empty());
        },
    }
    out
}

pub open spec fn mm_views(m: Seq<(String, Vec<String>)>) -> Seq<(Seq<char>, Seq<Seq<char>>)> {
    m.map_values(|e: (String, Vec<String>)| (e.0@, views(e.1@)))
}

proof fn lemma_key_index(s: Seq<(Seq<char>, Seq<Seq<char>>)>, key: Seq<char>, k: int)
    requires
        0 <= k <= s.len(),
        forall|t: int| 0 <= t < k ==> s[t].0 != key,
    ensures
        k < s.len() && s[k].0 == key ==> key_index(s, key) == Some(k),
        k == s.len() ==> key_index(s, key) is None,
    decreases k,
{
    if k > 0 {
        lemma_key_index(s.drop_first(), key, k - 1);
    }
}

fn mm_insert(m: &mut Vec<(String, Vec<String>)>, key: &str, val: &str)
    ensures
        mm_views(final(m)@) == set_insert(mm_views(old(m)@), key@, val@),
{
    let ghost sv = mm_views(m@);
    let mut k: usize = 0;
    while k < m.len()
        invariant
            k <= m@.len(),
            sv == mm_views(m@),
            sv == mm_views(old(m)@),
            forall|t: int| 0 <= t < k ==> sv[t].0 != key@,
        decreases m@.len() - k,
    {
        if str_eq(m[k].0.as_str(), key) {
            let ghost kk = k as int;
            proof {
                assert(sv[kk].0 == key@);
                lemma_key_index(sv, key@, kk);
            }
            if vec_has(&m[k].1, val) {
                return;
            }
            let mut e = m.remove(k);
            e.1.push(string_of(val));
            m.insert(k, e);
            proof {
                assert(views(e.1@) =~= sv[kk].1.push(val@));
                assert(mm_views(m@) =~= sv.update(kk, (key@, sv[kk].1.push(val@))));
            }
            return;
        }
        k = k + 1;
    }
    proof {
        lemma_key_index(sv, key@, sv.len() as int);
    }
    let mut one: Vec<String> = Vec::new();
    one.push(string_of(val));
    m.push((string_of(key), one));
    proof {
        assert(views(one@) =~= seq![val@]);
        assert(mm_views(m@) =~= sv.push((key@, seq![val@])));
    }
}

fn mm_insert_all(m: &mut Vec<(String, Vec<String>)>, key: &str, vals: &Vec<String>)
    ensures
        mm_views(final(m)@) == insert_all(mm_views(old(m)@), key@, views(vals@)),
{
    let ghost start = mm_views(m@);
    let mut i: usize = 0;
    while i < vals.len()
        invariant
            i <= vals@.len(),
            start == mm_views(old(m)@),
            mm_views(m@) == insert_all(start, key@, views(vals@.subrange(0, i as int))),
        decreases vals@.len() - i,
    {
        let ghost sub = views(vals@.subrange(0, i + 1));
        assert(sub.drop_last() =~= views(vals@.subrange(0, i as int)));
        mm_insert(m, key, vals[i].as_str());
        i = i + 1;
    }
    assert(vals@.subrange(0, vals@.len() as int) =~= vals@);
}

fn mm_invert(m: &Vec<(String, Vec<String>)>) -> (r: Vec<(String, Vec<String>)>)
    ensures
        mm_views(r@) == invert(mm_views(m@)),
{
    let mut out: Vec<(String, Vec<String>)> = Vec::new();
    let mut i: usize = 0;
    assert(mm_views(out@) =~= invert(Seq::empty()));
    while i < m.len()
        invariant
            i <= m@.len(),
            mm_views(out@) == invert(mm_views(m@.subrange(0, i as int))),
        decreases m@.len() - i,
    {
        let ghost sub = mm_views(m@.subrange(0, i + 1));
        assert(sub.drop_last() =~= mm_views(m@.subrange(0, i as int)));
        let key = m[i].0.as_str();
        let vals = &m[i].1;
        let ghost acc0 = mm_views(out@);
        let mut k: usize = 0;
        while k < vals.len()
            invariant
                k <= vals@.len(),
                mm_views(out@) == invert_values(acc0, views(vals@.subrange(0, k as int)), key@),
            decreases vals@.len() - k,
        {
            let ghost vsub = views(vals@.subrange(0, k + 1));
            assert(vsub.drop_last() =~= views(vals@.subrange(0, k as int)));
            mm_insert(&mut out, vals[k].as_str(), key);
            k = k + 1;
        }
        assert(vals@.subrange(0, vals@.len() as int) =~= vals@);
        i = i + 1;
    }
    assert(m@.subrange(0, m@.len() as int) =~= m@);
    out
}

fn non_system_subjects(subjects: &Vec<String>) -> (r: Vec<String>)
    ensures
        views(r@) == filter_by(views(subjects@), |s: Seq<char>| is_non_system(s)),
{
    let ghost p = |s: Seq<char>| is_non_system(s);
    let mut out: Vec<String> = Vec::new();
    let mut i: usize = 0;
    while i < subjects.len()
        invariant
            i <= subjects@.len(),
            p == (|s: Seq<char>| is_non_system(s)),
            views(out@) == filter_by(views(subjects@.subrange(0, i as int)), p),
        decreases subjects@.len() - i,
    {
        let ghost sub = views(subjects@.subrange(0, i + 1));
        assert(sub.drop_last() =~= views(subjects@.subrange(0, i as int)));
        let x = subjects[i].as_str();
        let keep = !str_contains(x, "system:") || str_contains(x, "system:serviceaccount:");
        assert(keep == p(sub.last()));
        if keep {
            let ghost before = out@;
            out.push(string_of(x));
            assert(views(out@) =~= views(before).push(x@));
        }
        i = i + 1;
    }
    assert(subjects@.subrange(0, subjects@.len() as int) =~= subjects@);
    out
}

fn check_crb(b: &BindingObject, crs: &Vec<RoleObject>, findings: &mut Vec<RbacAuditFinding>,
    ns_map: &mut Vec<(String, Vec<String>)>)
    ensures
        fviews(final(findings)@) == fviews(old(findings)@)
            + if binding_subjects(*b).len() > 0 { crb_findings(*b, crs@) } else { Seq::empty() },
        mm_views(final(ns_map)@) == insert_all(mm_views(old(ns_map)@), "*"@, binding_subjects(*b)),
{
    let subjects = subject_strings(b);
    if subjects.len() == 0 {
        assert(fviews(findings@) =~= fviews(findings@) + Seq::<RbacFindingView>::empty());
        return;
    }
    let ghost start = fviews(findings@);
    let binding_name = unwrap_or_empty(&b.name);
    let role_name = b.role_name.as_str();
    let ghost bn = opt_view(b.name);
    let ghost subjs = binding_subjects(*b);
    let ghost non_sys = filter_by(subjs, |s: Seq<char>| is_non_system(s));
    let ghost admin_part: Seq<RbacFindingView> = if b.role_name@ == "cluster-admin"@ && non_sys.len() > 0 {
        seq![RbacFindingView {
            severity: "critical"@,
            category: "cluster-admin"@,
            title: "cluster-admin bound to non-system subjects"@,
            description: "ClusterRoleBinding '"@ + bn + "' grants cluster-admin to: "@ + comma(non_sys),
            binding_name: bn,
            binding_kind: "ClusterRoleBinding"@,
            role_name: b.role_name@,
            subjects: subjs,
            namespace: None,
            remediation: "Replace cluster-admin with a scoped ClusterRole that grants only necessary permissions. Use namespace-scoped RoleBindings where possible."@,
        }]
    } else {
        Seq::empty()
    };
    if str_eq(role_name, "cluster-admin") {
        let non_system = non_system_subjects(&subjects);
        if non_system.len() > 0 {
            let mut desc = cat("ClusterRoleBinding '", binding_name.as_str());
            desc.append("' grants cluster-admin to: ");
            let list = join(&non_system, ", ");
            desc.append(list.as_str());
            let none: Option<String> = None;
            push_finding(findings, make_finding("critical", "cluster-admin", string_of("cluster-admin bound to non-system subjects"),
                desc, binding_name.as_str(), "ClusterRoleBinding", role_name, &subjects, &none,
                string_of("Replace cluster-admin with a scoped ClusterRole that grants only necessary permissions. Use namespace-scoped RoleBindings where possible.")));
        }
    }
    let ghost mid = fviews(findings@);
    assert(mid =~= start + admin_part);
    let resolved = find_role(crs, None, role_name);
    match resolved {
        Some(role) => {
            let none: Option<String> = None;
            analyze_role_rules(&role, binding_name.as_str(), "ClusterRoleBinding", &subjects, &none, findings);
        },
        None => {},
    }
    assert(fviews(findings@) =~= start + crb_findings(*b, crs@));
    mm_insert_all(ns_map, "*", &subjects);
}

fn broad_rules(role: &ResolvedRole) -> (r: bool)
    ensures
        r == has_broad(rule_views(role.rules@)),
{
    let mut i: usize = 0;
    while i < role.rules.len()
        invariant
            i <= role.rules@.len(),
            forall|k: int| 0 <= k < i ==> !#[trigger] rule_broad(rule_views(role.rules@)[k]),
        decreases role.rules@.len() - i,
    {
        let ghost rv = rule_views(role.rules@)[i as int];
        assert(rv == role.rules@[i as int]@);
        if has_wildcard(&role.rules[i].verbs) || has_wildcard(&role.rules[i].resources) {
            assert(rule_broad(rv));
            return true;
        }
        assert(!rule_broad(rv));
        i = i + 1;
    }
    false
}

fn check_rb(b: &BindingObject, crs: &Vec<RoleObject>, rs: &Vec<RoleObject>, findings: &mut Vec<RbacAuditFinding>,
    ns_map: &mut Vec<(String, Vec<String>)>)
    ensures
        fviews(final(findings)@) == fviews(old(findings)@)
            + if binding_subjects(*b).len() > 0 { rb_findings(*b, crs@, rs@) } else { Seq::empty() },
        mm_views(final(ns_map)@) == match b.namespace {
            Some(ns) => insert_all(mm_views(old(ns_map)@), ns@, binding_subjects(*b)),
            None => mm_views(old(ns_map)@),
        },
{
    let subjects = subject_strings(b);
    if subjects.len() == 0 {
        assert(fviews(findings@) =~= fviews(findings@) + Seq::<RbacFindingView>::empty());
        match &b.namespace {
            Some(ns) => {
                mm_insert_all(ns_map, ns.as_str(), &subjects);
            },
            None => {},
        }
        return;
    }
    let ghost start = fviews(findings@);
    let binding_name = unwrap_or_empty(&b.name);
    let role_name = b.role_name.as_str();
    let to_cluster_role = str_eq(b.role_kind.as_str(), "ClusterRole");
    let ns_key = unwrap_or_empty(&b.namespace);
    let resolved = if to_cluster_role { find_role(crs, None, role_name) } else { find_role(rs, Some(ns_key.as_str()), role_name) };
    match resolved {
        Some(role) => {
            analyze_role_rules(&role, binding_name.as_str(), "RoleBinding", &subjects, &b.namespace, findings);
        },
        None => {},
    }
    let ghost mid = fviews(findings@);
    if to_cluster_role && !str_eq(role_name, "admin") && !str_eq(role_name, "edit") && !str_eq(role_name, "view") {
        match find_role(crs, None, role_name) {
            Some(role) => {
                if broad_rules(&role) {
                    let mut desc = cat("RoleBinding '", binding_name.as_str());
                    desc.append("' in namespace '");
                    match &b.namespace {
                        Some(n) => desc.append(n.as_str()),
                        None => desc.append("unknown"),
                    }
                    desc.append("' references ClusterRole '");
                    desc.append(role_name);
                    desc.append("' which has wildcard permissions. While scoped to the namespace, this may grant broader access than intended.");
                    push_finding(findings, make_finding("medium", "cross-namespace", string_of("RoleBinding references broad ClusterRole"),
                        desc, binding_name.as_str(), "RoleBinding", role_name, &subjects, &b.namespace,
                        string_of("Create a namespace-scoped Role with only the permissions needed instead of referencing a broad ClusterRole.")));
                }
            },
            None => {},
        }
    }
    assert(fviews(findings@) =~= start + rb_findings(*b, crs@, rs@));
    match &b.namespace {
        Some(ns) => {
            mm_insert_all(ns_map, ns.as_str(), &subjects);
        },
        None => {},
    }
}

fn scoped_namespaces(nss: &Vec<String>) -> (r: Vec<String>)
    ensures
        views(r@) == filter_by(views(nss@), |n: Seq<char>| n != "*"@),
{
    let ghost p = |n: Seq<char>| n != "*"@;
    let mut out: Vec<String> = Vec::new();
    let mut i: usize = 0;
    while i < nss.len()
        invariant
            i <= nss@.len(),
            p == (|n: Seq<char>| n != "*"@),
            views(out@) == filter_by(views(nss@.subrange(0, i as int)), p),
        decreases nss@.len() - i,
    {
        let ghost sub = views(nss@.subrange(0, i + 1));
        assert(sub.drop_last() =~= views(nss@.subrange(0, i as int)));
        let x = nss[i].as_str();
        let keep = !str_eq(x, "*");
        assert(keep == p(sub.last()));
        if keep {
            let ghost before = out@;
            out.push(string_of(x));
            assert(views(out@) =~= views(before).push(x@));
        }
        i = i + 1;
    }
    assert(nss@.subrange(0, nss@.len() as int) =~= nss@);
    out
}

fn one_string(s: &str) -> (r: Vec<String>)
    ensures
        views(r@) == seq![s@],
{
    let mut v: Vec<String> = Vec::new();
    v.push(string_of(s));
    assert(views(v@) =~= seq![s@]);
    v
}

fn check_tenant(subject: &String, nss: &Vec<String>, findings: &mut Vec<RbacAuditFinding>)
    ensures
        fviews(final(findings)@) == fviews(old(findings)@) + tenant_finding(subject@, views(nss@)),
{
    let s = subject.as_str();
    if (str_starts_with(s, "Group:system:") && !str_contains(s, "serviceaccount")) || str_starts_with(s, "User:system:") {
        assert(fviews(findings@) =~= fviews(findings@) + Seq::<RbacFindingView>::empty());
        return;
    }
    let cluster_wide = vec_has(nss, "*");
    let scoped = scoped_namespaces(nss);
    let none: Option<String> = None;
    let ghost start = fviews(findings@);
    if cluster_wide && scoped.len() > 0 {
        let mut desc = cat("'", s);
        desc.append("' has cluster-wide access (via ClusterRoleBinding) AND namespace-scoped bindings in: ");
        let list = join(&scoped, ", ");
        desc.append(list.as_str());
        desc.append(". This may break tenant isolation.");
        let subj = one_string(s);
        push_finding(findings, make_finding("high", "tenant-isolation", string_of("Subject has both cluster-wide and namespace-scoped access"),
            desc, "multiple", "mixed", "multiple", &subj, &none,
            string_of("Review whether this subject truly needs cluster-wide access. Prefer namespace-scoped RoleBindings for tenant isolation.")));
    } else if scoped.len() > 2 {
        let mut desc = cat("'", s);
        desc.append("' has access to ");
        append_u64(&mut desc, scoped.len() as u64);
        desc.append(" namespaces: ");
        let list = join(nss, ", ");
        desc.append(list.as_str());
        desc.append(". In multi-tenant clusters, cross-namespace access may break isolation boundaries.");
        let subj = one_string(s);
        push_finding(findings, make_finding("medium", "tenant-isolation", string_of("Subject spans multiple namespaces"),
            desc, "multiple", "RoleBinding", "multiple", &subj, &none,
            string_of("Verify that cross-namespace access is intentional. Use separate service accounts per tenant namespace.")));
    }
    assert(fviews(findings@) =~= start + tenant_finding(subject@, views(nss@)));
}

fn check_default_sa(b: &BindingObject, findings: &mut Vec<RbacAuditFinding>)
    ensures
        fviews(final(findings)@) == fviews(old(findings)@) + match b.subjects {
            Some(ss) => sa_findings(ss@, opt_view(b.name), b.role_name@),
            None => Seq::empty(),
        },
{
    let binding_name = unwrap_or_empty(&b.name);
    let role_name = b.role_name.as_str();
    match &b.subjects {
        Some(ss) => {
            let ghost start = fviews(findings@);
            let mut i: usize = 0;
            while i < ss.len()
                invariant
                    i <= ss@.len(),
                    binding_name@ == opt_view(b.name),
                    role_name@ == b.role_name@,
                    fviews(findings@) == start + sa_findings(ss@.subrange(0, i as int), binding_name@, role_name@),
                decreases ss@.len() - i,
            {
                let ghost sub = ss@.subrange(0, i + 1);
                assert(sub.drop_last() =~= ss@.subrange(0, i as int));
                let sref = &ss[i];
                let ghost before = fviews(findings@);
                if str_eq(sref.kind.as_str(), "ServiceAccount") && str_eq(sref.name.as_str(), "default") {
                    let mut desc = string_of("The default ServiceAccount in namespace '");
                    match &sref.namespace {
                        Some(n) => desc.append(n.as_str()),
                        None => desc.append("unknown"),
                    }
                    desc.append("' is bound to ClusterRole '");
                    desc.append(role_name);
                    desc.append("' via '");
                    desc.append(binding_name.as_str());
                    desc.append("'. Any pod in that namespace inherits these permissions.");
                    let mut subj: Vec<String> = Vec::new();
                    subj.push(format_subject(sref.kind.as_str(), sref.name.as_str(), &sref.namespace));
                    proof {
                        assert(views(subj@) =~= seq![subject_text(sref.kind@, sref.name@, opt_str(sref.namespace))]);
                    }
                    push_finding(findings, make_finding("high", "service-account", string_of("Default ServiceAccount bound to ClusterRole"),
                        desc, binding_name.as_str(), "ClusterRoleBinding", role_name, &subj, &sref.namespace,
                        string_of("Create dedicated service accounts for workloads. Never bind roles to the default ServiceAccount.")));
                }
                assert(fviews(findings@) =~= before + sa_finding(*sref, binding_name@, role_name@));
                i = i + 1;
            }
            assert(ss@.subrange(0, ss@.len() as int) =~= ss@);
        },
        None => {
            assert(fviews(findings@) =~= fviews(findings@) + Seq::<RbacFindingView>::empty());
        },
    }
}

/// Number of findings with severity `sev`.
pub open spec fn count_rsev(fs: Seq<RbacFindingView>, sev: Seq<char>) -> nat
    decreases fs.len(),
{
    if fs.len() == 0 {
        0
    } else {
        count_rsev(fs.drop_last(), sev) + if fs.last().severity == sev { 1nat } else { 0nat }
    }
}

fn count_rbac_severities(fs: &Vec<RbacAuditFinding>) -> (r: (usize, usize, usize, usize))
    ensures
        r.0 == count_rsev(fviews(fs@), "critical"@),
        r.1 == count_rsev(fviews(fs@), "high"@),
        r.2 == count_rsev(fviews(fs@), "medium"@),
        r.3 == count_rsev(fviews(fs@), "low"@),
{
    let mut c: usize = 0;
    let mut h: usize = 0;
    let mut m: usize = 0;
    let mut l: usize = 0;
    let mut i: usize = 0;
    while i < fs.len()
        invariant
            i <= fs@.len(),
            c == count_rsev(fviews(fs@.subrange(0, i as int)), "critical"@),
            h == count_rsev(fviews(fs@.subrange(0, i as int)), "high"@),
            m == count_rsev(fviews(fs@.subrange(0, i as int)), "medium"@),
            l == count_rsev(fviews(fs@.subrange(0, i as int)), "low"@),
            c + h + m + l <= i,
        decreases fs@.len() - i,
    {
        let ghost sub = fviews(fs@.subrange(0, i + 1));
        assert(sub.drop_last() =~= fviews(fs@.subrange(0, i as int)));
        assert(sub.last() == fs@[i as int]@);
        proof {
            reveal_strlit("critical");
            reveal_strlit("high");
            reveal_strlit("medium");
            reveal_strlit("low");
            assert("critical"@.len() == 8);
            assert("high"@.len() == 4);
            assert("medium"@.len() == 6);
            assert("low"@.len() == 3);
        }
        let sev = fs[i].severity.as_str();
        if str_eq(sev, "critical") {
            c = c + 1;
        } else if str_eq(sev, "high") {
            h = h + 1;
        } else if str_eq(sev, "medium") {
            m = m + 1;
        } else if str_eq(sev, "low") {
            l = l + 1;
        }
        i = i + 1;
    }
    assert(fs@.subrange(0, i as int) =~= fs@);
    (c, h, m, l)
}

/// Audits the cluster roles `crs`, cluster role bindings `crbs`, roles
/// `rs` and role bindings `rbs`. `None` exactly when the score's `u32`
/// arithmetic would overflow.
pub fn audit_rbac(crs: &Vec<RoleObject>, crbs: &Vec<BindingObject>, rs: &Vec<RoleObject>, rbs: &Vec<BindingObject>) -> (r: Option<RbacAuditResult>)
    ensures
        ({
            let fs = audit_findings(crs@, crbs@, rs@, rbs@);
            let (c, h, m, l) = (count_rsev(fs, "critical"@), count_rsev(fs, "high"@), count_rsev(fs, "medium"@), count_rsev(fs, "low"@));
            let bindings = ((crbs@.len() + rbs@.len()) % 0x1_0000_0000) as nat;
            match r {
                Some(res) => {
                    &&& fviews(res.findings@) == fs
                    &&& crate::security::score_fits(c, h, m, l, bindings, 10)
                    &&& res.summary.critical == c
                    &&& res.summary.high == h
                    &&& res.summary.medium == m
                    &&& res.summary.low == l
                    &&& res.summary.total_roles_scanned == (crs@.len() + rs@.len()) % 0x1_0000_0000
                    &&& res.summary.total_bindings_scanned == bindings
                    &&& res.summary.score == crate::security::score_spec(c, h, m, l, bindings, 10)
                },
                None => !crate::security::score_fits(c, h, m, l, bindings, 10),
            }
        }),
{
    let mut findings: Vec<RbacAuditFinding> = Vec::new();
    let mut ns_map: Vec<(String, Vec<String>)> = Vec::new();
    let mut i: usize = 0;
    assert(fviews(findings@) =~= all_crb_findings(Seq::empty(), crs@));
    while i < crbs.len()
        invariant
            i <= crbs@.len(),
            fviews(findings@) == all_crb_findings(crbs@.subrange(0, i as int), crs@),
            mm_views(ns_map@) == crb_subjects(Seq::empty(), crbs@.subrange(0, i as int)),
        decreases crbs@.len() - i,
    {
        let ghost sub = crbs@.subrange(0, i + 1);
        assert(sub.drop_last() =~= crbs@.subrange(0, i as int));
        check_crb(&crbs[i], crs, &mut findings, &mut ns_map);
        i = i + 1;
    }
    assert(crbs@.subrange(0, crbs@.len() as int) =~= crbs@);
    let ghost after_crb = fviews(findings@);
    let ghost crb_map = mm_views(ns_map@);
    let mut j: usize = 0;
    assert(all_rb_findings(Seq::empty(), crs@, rs@) =~= Seq::<RbacFindingView>::empty());
    while j < rbs.len()
        invariant
            j <= rbs@.len(),
            fviews(findings@) == after_crb + all_rb_findings(rbs@.subrange(0, j as int), crs@, rs@),
            mm_views(ns_map@) == rb_subjects(crb_map, rbs@.subrange(0, j as int)),
        decreases rbs@.len() - j,
    {
        let ghost sub = rbs@.subrange(0, j + 1);
        assert(sub.drop_last() =~= rbs@.subrange(0, j as int));
        check_rb(&rbs[j], crs, rs, &mut findings, &mut ns_map);
        assert(fviews(findings@) =~= after_crb + all_rb_findings(sub, crs@, rs@));
        j = j + 1;
    }
    assert(rbs@.subrange(0, rbs@.len() as int) =~= rbs@);
    let inverted = mm_invert(&ns_map);
    let ghost after_rb = fviews(findings@);
    let mut k: usize = 0;
    while k < inverted.len()
        invariant
            k <= inverted@.len(),
            fviews(findings@) == after_rb + tenant_findings(mm_views(inverted@.subrange(0, k as int))),
        decreases inverted@.len() - k,
    {
        let ghost sub = mm_views(inverted@.subrange(0, k + 1));
        assert(sub.drop_last() =~= mm_views(inverted@.subrange(0, k as int)));
        let ghost before = fviews(findings@);
        check_tenant(&inverted[k].0, &inverted[k].1, &mut findings);
        assert(fviews(findings@) =~= after_rb + tenant_findings(sub));
        k = k + 1;
    }
    assert(inverted@.subrange(0, inverted@.len() as int) =~= inverted@);
    let ghost after_tenant = fviews(findings@);
    let mut t: usize = 0;
    assert(default_sa_findings(Seq::empty()) =~= Seq::<RbacFindingView>::empty());
    while t < crbs.len()
        invariant
            t <= crbs@.len(),
            fviews(findings@) == after_tenant + default_sa_findings(crbs@.subrange(0, t as int)),
        decreases crbs@.len() - t,
    {
        let ghost sub = crbs@.subrange(0, t + 1);
        assert(sub.drop_last() =~= crbs@.subrange(0, t as int));
        check_default_sa(&crbs[t], &mut findings);
        assert(fviews(findings@) =~= after_tenant + default_sa_findings(sub));
        t = t + 1;
    }
    proof {
        assert(crbs@.subrange(0, crbs@.len() as int) =~= crbs@);
        assert(fviews(findings@) =~= audit_findings(crs@, crbs@, rs@, rbs@));
    }
    let (c, h, m, l) = count_rbac_severities(&findings);
    let total_roles: u32 = ((crs.len() as u128 + rs.len() as u128) % 0x1_0000_0000) as u32;
    let total_bindings: u32 = ((crbs.len() as u128 + rbs.len() as u128) % 0x1_0000_0000) as u32;
    match crate::security::score_checked(c, h, m, l, total_bindings as usize, 10) {
        None => None,
        Some(score) => Some(RbacAuditResult {
            findings,
            summary: RbacAuditSummary {
                critical: c as u32,
                high: h as u32,
                medium: m as u32,
                low: l as u32,
                total_roles_scanned: total_roles,
                total_bindings_scanned: total_bindings,
                score,
            },
        }),
    }
}


// ---- what the audit promises ----

/// A finding of `fs` with this severity, category and title, about the
/// binding and role of `c`.
pub open spec fn has_finding(fs: Seq<RbacFindingView>, c: BindingCtx, sev: Seq<char>, cat: Seq<char>, title: Seq<char>) -> bool {
    exists|n: int| 0 <= n < fs.len() && (#[trigger] fs[n]).severity == sev && fs[n].category == cat && fs[n].title == title
        && fs[n].binding_name == c.binding_name && fs[n].role_name == c.role_name
}

proof fn lemma_has_finding_concat(a: Seq<RbacFindingView>, b: Seq<RbacFindingView>, c: BindingCtx, sev: Seq<char>, cat: Seq<char>, title: Seq<char>)
    ensures
        (has_finding(a, c, sev, cat, title) || has_finding(b, c, sev, cat, title)) ==> has_finding(a + b, c, sev, cat, title),
{
    if has_finding(a, c, sev, cat, title) {
        let n = choose|n: int| 0 <= n < a.len() && (#[trigger] a[n]).severity == sev && a[n].category == cat && a[n].title == title
            && a[n].binding_name == c.binding_name && a[n].role_name == c.role_name;
        assert((a + b)[n] == a[n]);
    } else if has_finding(b, c, sev, cat, title) {
        let n = choose|n: int| 0 <= n < b.len() && (#[trigger] b[n]).severity == sev && b[n].category == cat && b[n].title == title
            && b[n].binding_name == c.binding_name && b[n].role_name == c.role_name;
        assert((a + b)[a.len() + n] == b[n]);
    }
}

proof fn lemma_sensitive_has(c: BindingCtx, r: RuleView, res: Seq<Seq<char>>, wv: bool, scoped: bool, j: int)
    requires
        0 <= j < res.len(),
        is_sensitive(res[j]),
        wv || any_access(r.verbs),
        !scoped,
    ensures
        has_finding(sensitive_findings(c, r, res, wv, scoped), c,
            if is_most_sensitive(res[j]) { "high"@ } else { "medium"@ }, "escalation"@, "Access to sensitive resource: "@ + res[j]),
    decreases res.len(),
{
    let sev = if is_most_sensitive(res[j]) { "high"@ } else { "medium"@ };
    let t = "Access to sensitive resource: "@ + res[j];
    let out = sensitive_findings(c, r, res, wv, scoped);
    let rest = sensitive_findings(c, r, res.drop_last(), wv, scoped);
    if j == res.len() - 1 {
        assert(out[rest.len() as int].title == t);
    } else {
        assert(res.drop_last()[j] == res[j]);
        lemma_sensitive_has(c, r, res.drop_last(), wv, scoped, j);
        let n = choose|n: int| 0 <= n < rest.len() && (#[trigger] rest[n]).severity == sev && rest[n].category == "escalation"@
            && rest[n].title == t && rest[n].binding_name == c.binding_name && rest[n].role_name == c.role_name;
        assert(out[n] == rest[n]);
    }
}

proof fn lemma_rules_has(c: BindingCtx, rules: Seq<RuleView>, i: int, sev: Seq<char>, cat: Seq<char>, title: Seq<char>)
    requires
        0 <= i < rules.len(),
        has_finding(rule_findings(c, rules[i]), c, sev, cat, title),
    ensures
        has_finding(rules_findings(c, rules), c, sev, cat, title),
    decreases rules.len(),
{
    let d = rules.drop_last();
    if i < rules.len() - 1 {
        assert(d[i] == rules[i]);
        lemma_rules_has(c, d, i, sev, cat, title);
    }
    lemma_has_finding_concat(rules_findings(c, d), rule_findings(c, rules.last()), c, sev, cat, title);
}

/// A rule that grants, on any object (no `resourceNames`), an access verb
/// (`get`, `list`, `watch`, `create`, `update`, `patch`, `delete` or `*`)
/// on a sensitive resource (`secrets`, `pods/exec`, `pods/attach`,
/// `serviceaccounts/token`, `tokenreviews`, `certificatesigningrequests`)
/// makes the audit of the role, as bound, report an `escalation` finding
/// `Access to sensitive resource: <resource>`: high for `secrets`,
/// `pods/exec` and `serviceaccounts/token`, medium for the others. The one
/// exception is a rule with `*` for verbs, resources and API groups, which
/// is reported as a critical `Full wildcard permissions (*.*.*)` instead.
pub proof fn law_sensitive_access_reported(c: BindingCtx, rules: Seq<RuleView>, i: int, j: int, v: int)
    requires
        0 <= i < rules.len(),
        rules[i].resource_names.len() == 0,
        0 <= j < rules[i].resources.len(),
        ({
            let x = rules[i].resources[j];
            x == "secrets"@ || x == "pods/exec"@ || x == "pods/attach"@ || x == "serviceaccounts/token"@
                || x == "tokenreviews"@ || x == "certificatesigningrequests"@
        }),
        0 <= v < rules[i].verbs.len(),
        ({
            let w = rules[i].verbs[v];
            w == "get"@ || w == "list"@ || w == "watch"@ || w == "create"@ || w == "update"@ || w == "patch"@
                || w == "delete"@ || w == "*"@
        }),
    ensures
        ({
            let r = rules[i];
            let x = r.resources[j];
            if r.verbs.contains("*"@) && r.resources.contains("*"@) && r.api_groups.contains("*"@) {
                has_finding(rules_findings(c, rules), c, "critical"@, "wildcard"@, "Full wildcard permissions (*.*.*)"@)
            } else {
                has_finding(rules_findings(c, rules), c,
                    if x == "secrets"@ || x == "pods/exec"@ || x == "serviceaccounts/token"@ { "high"@ } else { "medium"@ },
                    "escalation"@, "Access to sensitive resource: "@ + x)
            }
        }),
{
    let r = rules[i];
    let x = r.resources[j];
    let wv = r.verbs.contains("*"@);
    let wr = r.resources.contains("*"@);
    let wa = r.api_groups.contains("*"@);
    let rf = rule_findings(c, r);
    if r.verbs[v] == "*"@ {
        assert(wv);
    } else {
        assert(is_access_verb(r.verbs[v]));
        assert(any_access(r.verbs));
    }
    if wv && wr && wa {
        assert(rf[0].title == "Full wildcard permissions (*.*.*)"@);
        lemma_rules_has(c, rules, i, "critical"@, "wildcard"@, "Full wildcard permissions (*.*.*)"@);
    } else {
        let sev = if is_most_sensitive(x) { "high"@ } else { "medium"@ };
        let t = "Access to sensitive resource: "@ + x;
        lemma_sensitive_has(c, r, r.resources, wv, false, j);
        let sf = sensitive_findings(c, r, r.resources, wv, false);
        let n = choose|n: int| 0 <= n < sf.len() && (#[trigger] sf[n]).severity == sev && sf[n].category == "escalation"@
            && sf[n].title == t && sf[n].binding_name == c.binding_name && sf[n].role_name == c.role_name;
        assert(rf[rf.len() - sf.len() + n] == sf[n]);
        lemma_rules_has(c, rules, i, sev, "escalation"@, t);
    }
}

proof fn lemma_filter_keeps(items: Seq<Seq<char>>, p: spec_fn(Seq<char>) -> bool, k: int)
    requires
        0 <= k < items.len(),
        p(items[k]),
    ensures
        filter_by(items, p).len() > 0,
    decreases items.len(),
{
    if k < items.len() - 1 && !p(items.last()) {
        assert(items.drop_last()[k] == items[k]);
        lemma_filter_keeps(items.drop_last(), p, k);
    }
}

/// A rule with `*` among its verbs, its resources and its API groups, on any
/// object, makes the audit report a critical `Full wildcard permissions
/// (*.*.*)` finding for the role as bound.
pub proof fn law_full_wildcard_reported(c: BindingCtx, rules: Seq<RuleView>, i: int)
    requires
        0 <= i < rules.len(),
        rules[i].resource_names.len() == 0,
        rules[i].verbs.contains("*"@),
        rules[i].resources.contains("*"@),
        rules[i].api_groups.contains("*"@),
    ensures
        has_finding(rules_findings(c, rules), c, "critical"@, "wildcard"@, "Full wildcard permissions (*.*.*)"@),
{
    assert(rule_findings(c, rules[i])[0].title == "Full wildcard permissions (*.*.*)"@);
    lemma_rules_has(c, rules, i, "critical"@, "wildcard"@, "Full wildcard permissions (*.*.*)"@);
}

/// A rule that grants `escalate`, `bind` or `impersonate` (and not `*`) on
/// an RBAC resource (`roles`, `clusterroles`, `rolebindings`,
/// `clusterrolebindings`, or `*`) makes the audit report a critical
/// `escalation` finding `Privilege escalation verbs on RBAC resources`,
/// whether or not the rule names its objects.
pub proof fn law_escalation_verbs_reported(c: BindingCtx, rules: Seq<RuleView>, i: int, v: int, j: int)
    requires
        0 <= i < rules.len(),
        !rules[i].verbs.contains("*"@),
        0 <= v < rules[i].verbs.len(),
        rules[i].verbs[v] == "escalate"@ || rules[i].verbs[v] == "bind"@ || rules[i].verbs[v] == "impersonate"@,
        0 <= j < rules[i].resources.len(),
        ({
            let x = rules[i].resources[j];
            x == "roles"@ || x == "clusterroles"@ || x == "rolebindings"@ || x == "clusterrolebindings"@ || x == "*"@
        }),
    ensures
        has_finding(rules_findings(c, rules), c, "critical"@, "escalation"@, "Privilege escalation verbs on RBAC resources"@),
{
    let r = rules[i];
    let wr = r.resources.contains("*"@);
    let scoped = r.resource_names.len() > 0;
    let p = |w: Seq<char>| is_escalation_verb(w);
    lemma_filter_keeps(r.verbs, p, v);
    let writes = filter_by(r.verbs, |w: Seq<char>| is_write_verb(w));
    if !wr {
        assert(is_rbac_resource(r.resources[j]));
        assert(any_rbac(r.resources));
    }
    let rf = rule_findings(c, r);
    let n1: int = 0;
    let n2: int = if wr && !scoped && writes.len() > 0 { 1 } else { 0 };
    assert(rf[n1 + n2].title == "Privilege escalation verbs on RBAC resources"@);
    lemma_rules_has(c, rules, i, "critical"@, "escalation"@, "Privilege escalation verbs on RBAC resources"@);
}

/// A rule with `*` among its verbs but not among its resources, on any
/// object, makes the audit report a high `wildcard` finding `Wildcard verbs
/// on resources: <resources, comma-separated>`.
pub proof fn law_wildcard_verbs_reported(c: BindingCtx, rules: Seq<RuleView>, i: int)
    requires
        0 <= i < rules.len(),
        rules[i].resource_names.len() == 0,
        rules[i].verbs.contains("*"@),
        !rules[i].resources.contains("*"@),
    ensures
        has_finding(rules_findings(c, rules), c, "high"@, "wildcard"@,
            "Wildcard verbs on resources: "@ + join_seq(rules[i].resources, ", "@)),
{
    let t = "Wildcard verbs on resources: "@ + join_seq(rules[i].resources, ", "@);
    assert(rule_findings(c, rules[i])[0].title == t);
    lemma_rules_has(c, rules, i, "high"@, "wildcard"@, t);
}

} // verus!
