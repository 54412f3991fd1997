//! Helm releases from the JSON that `helm list --output json` prints.
use vstd::prelude::*;
use crate::model::{opt_view, unwrap_or_empty};
use crate::text::{views, string_of, str_eq};
use crate::context::{trimmed, trim_text};

verus! {

/// A Helm release.
#[derive(Debug)]
pub struct HelmRelease {
    pub name: String,
    pub namespace: String,
    pub revision: String,
    pub updated: String,
    pub status: String,
    pub chart: String,
    pub app_version: String,
}

/// The arguments of `helm` to list the releases of `namespace`, or of all
/// namespaces for `_all`.
pub fn helm_list_args(namespace: &str) -> (r: Vec<String>)
    ensures
        views(r@) == seq!["list"@, "--output"@, "json"@] + (if namespace@ == "_all"@ {
            seq!["--all-namespaces"@]
        } else {
            seq!["--namespace"@, namespace@]
        }),
{
    let mut v: Vec<String> = Vec::new();
    v.push(string_of("list"));
    v.push(string_of("--output"));
    v.push(string_of("json"));
    if str_eq(namespace, "_all") {
        v.push(string_of("--all-namespaces"));
    } else {
        v.push(string_of("--namespace"));
        v.push(string_of(namespace));
    }
    proof {
        assert(views(v@) =~= seq!["list"@, "--output"@, "json"@] + (if namespace@ == "_all"@ {
            seq!["--all-namespaces"@]
        } else {
            seq!["--namespace"@, namespace@]
        }));
    }
    v
}

/// A release entry as `helm list --output json` prints it.
#[derive(Debug)]
pub struct HelmEntry {
    pub name: Option<String>,
    pub namespace: Option<String>,
    pub revision: Option<String>,
    pub updated: Option<String>,
    pub status: Option<String>,
    pub chart: Option<String>,
    pub app_version: Option<String>,
}

/// `r` is the release that entry `e` describes, absent fields empty.
pub open spec fn release_of(r: HelmRelease, e: HelmEntry) -> bool {
    &&& r.name@ == opt_view(e.name)
    &&& r.namespace@ == opt_view(e.namespace)
    &&& r.revision@ == opt_view(e.revision)
    &&& r.updated@ == opt_view(e.updated)
    &&& r.status@ == opt_view(e.status)
    &&& r.chart@ == opt_view(e.chart)
    &&& r.app_version@ == opt_view(e.app_version)
}

/// The output lists no release: it is blank or `[]` once trimmed.
pub open spec fn output_blank(stdout: Seq<char>) -> bool {
    trimmed(stdout).len() == 0 || trimmed(stdout) == "[]"@
}

/// The releases in the output `stdout` of `helm list --output json`, whose
/// entries `parsed` holds (or the parser's message): none when the output
/// is blank or `[]`, else one per entry, in order; output that did not
/// parse is refused with `Failed to parse helm output: ` and the message.
pub fn helm_releases(stdout: &str, parsed: Result<Vec<HelmEntry>, String>) -> (r: Result<Vec<HelmRelease>, String>)
    ensures
        output_blank(stdout@) ==> (r matches Ok(v) && v@.len() == 0),
        !output_blank(stdout@) ==> match parsed {
            Err(e) => r matches Err(m) && m@ == "Failed to parse helm output: "@ + e@,
            Ok(es) => r matches Ok(v) && v@.len() == es@.len()
                && forall|i: int| 0 <= i < es@.len() ==> release_of(#[trigger] v@[i], es@[i]),
        },
{
    let t = trim_text(stdout);
    if t.as_str().is_empty() || str_eq(t.as_str(), "[]") {
        return Ok(Vec::new());
    }
    let es = match parsed {
        Ok(es) => es,
        Err(e) => {
            let mut m = string_of("Failed to parse helm output: ");
            m.append(e.as_str());
            return Err(m);
        },
    };
    let mut out: Vec<HelmRelease> = Vec::new();
    let mut i: usize = 0;
    while i < es.len()
        invariant
            i <= es@.len(),
            out@.len() == i,
            forall|k: int| 0 <= k < i ==> release_of(#[trigger] out@[k], es@[k]),
        decreases es@.len() - i,
    {
        let e = &es[i];
        let r = HelmRelease {
            name: unwrap_or_empty(&e.name),
            namespace: unwrap_or_empty(&e.namespace),
            revision: unwrap_or_empty(&e.revision),
            updated: unwrap_or_empty(&e.updated),
            status: unwrap_or_empty(&e.status),
            chart: unwrap_or_empty(&e.chart),
            app_version: unwrap_or_empty(&e.app_version),
        };
        out.push(r);
        i = i + 1;
    }
    Ok(out)
}

} // verus!
