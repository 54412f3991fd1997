//! Role bindings and cluster role bindings as listed, sorted by name.
use vstd::prelude::*;
use crate::rbac_audit::{BindingObject, SubjectRef};
use crate::model::{opt_view, unwrap_or_empty, clone_opt};
use crate::benchmark::opt_seq;
use crate::order::{Ordered, sort_ordered, sort_stable};
use crate::text::{seq_lt, str_lt, lemma_seq_lt_total, lemma_seq_lt_transitive, string_of};

verus! {

/// A subject a binding grants a role to.
#[derive(Debug)]
pub struct RbacSubject {
    pub kind: String,
    pub name: String,
    pub namespace: Option<String>,
}

/// A binding of a role to subjects.
#[derive(Debug)]
pub struct RbacBinding {
    pub name: String,
    pub namespace: Option<String>,
    /// `ClusterRoleBinding` or `RoleBinding`.
    pub kind: String,
    pub role_kind: String,
    pub role_name: String,
    pub subjects: Vec<RbacSubject>,
}

/// The subjects of a binding, none when it lists none.
pub open spec fn subjects_of(b: BindingObject) -> Seq<SubjectRef> {
    match b.subjects {
        Some(s) => s@,
        None => Seq::empty(),
    }
}

/// `r` lists binding `b` of kind `kind`, with namespace `ns`.
pub open spec fn binding_of(r: RbacBinding, b: BindingObject, kind: Seq<char>, ns: Option<Seq<char>>) -> bool {
    let ss = subjects_of(b);
    &&& r.name@ == opt_view(b.name)
    &&& opt_seq(r.namespace) == ns
    &&& r.kind@ == kind
    &&& r.role_kind@ == b.role_kind@
    &&& r.role_name@ == b.role_name@
    &&& r.subjects@.len() == ss.len()
    &&& forall|i: int| 0 <= i < ss.len() ==> {
        &&& (#[trigger] r.subjects@[i]).kind@ == ss[i].kind@
        &&& r.subjects@[i].name@ == ss[i].name@
        &&& opt_seq(r.subjects@[i].namespace) == opt_seq(ss[i].namespace)
    }
}

fn binding_entry(b: &BindingObject, cluster: bool) -> (r: RbacBinding)
    ensures
        cluster ==> binding_of(r, *b, "ClusterRoleBinding"@, None),
        !cluster ==> binding_of(r, *b, "RoleBinding"@, opt_seq(b.namespace)),
{
    let mut subjects: Vec<RbacSubject> = Vec::new();
    match &b.subjects {
        Some(ss) => {
            let mut i: usize = 0;
            while i < ss.len()
                invariant
                    i <= ss@.len(),
                    subjects@.len() == i,
                    forall|k: int| 0 <= k < i ==> {
                        &&& (#[trigger] subjects@[k]).kind@ == ss@[k].kind@
                        &&& subjects@[k].name@ == ss@[k].name@
                        &&& opt_seq(subjects@[k].namespace) == opt_seq(ss@[k].namespace)
                    },
                decreases ss@.len() - i,
            {
                let s = &ss[i];
                subjects.push(RbacSubject { kind: s.kind.clone(), name: s.name.clone(), namespace: clone_opt(&s.namespace) });
                i = i + 1;
            }
        },
        None => {},
    }
    RbacBinding {
        name: unwrap_or_empty(&b.name),
        namespace: if cluster { None } else { clone_opt(&b.namespace) },
        kind: if cluster { string_of("ClusterRoleBinding") } else { string_of("RoleBinding") },
        role_kind: b.role_kind.clone(),
        role_name: b.role_name.clone(),
        subjects,
    }
}

impl Ordered for RbacBinding {
    /// By name, compared as text.
    open spec fn before(a: RbacBinding, b: RbacBinding) -> bool {
        seq_lt(a.name@, b.name@)
    }

    proof fn lemma_asymmetric(a: RbacBinding, b: RbacBinding) {
        lemma_seq_lt_total(a.name@, b.name@);
    }

    proof fn lemma_not_before_transitive(a: RbacBinding, b: RbacBinding, c: RbacBinding) {
        lemma_seq_lt_total(a.name@, b.name@);
        lemma_seq_lt_total(b.name@, c.name@);
        lemma_seq_lt_total(a.name@, c.name@);
        if seq_lt(c.name@, a.name@) {
            if seq_lt(a.name@, b.name@) {
                lemma_seq_lt_transitive(c.name@, a.name@, b.name@);
            }
        }
    }

    fn is_before(&self, other: &RbacBinding) -> (r: bool) {
        str_lt(self.name.as_str(), other.name.as_str())
    }
}

/// The cluster role bindings `crbs` then the role bindings `rbs`, sorted by
/// name (ties in that order).
pub fn list_rbac_bindings(crbs: &Vec<BindingObject>, rbs: &Vec<BindingObject>) -> (r: Vec<RbacBinding>)
    ensures
        exists|u: Seq<RbacBinding>| #![trigger sort_ordered(u)] {
            &&& u.len() == crbs@.len() + rbs@.len()
            &&& forall|i: int| 0 <= i < crbs@.len() ==> binding_of(#[trigger] u[i], crbs@[i], "ClusterRoleBinding"@, None)
            &&& forall|i: int| 0 <= i < rbs@.len() ==>
                binding_of(#[trigger] u[crbs@.len() + i], rbs@[i], "RoleBinding"@, opt_seq(rbs@[i].namespace))
            &&& r@ == sort_ordered(u)
        },
{
    let mut u: Vec<RbacBinding> = Vec::new();
    let mut i: usize = 0;
    while i < crbs.len()
        invariant
            i <= crbs@.len(),
            u@.len() == i,
            forall|k: int| 0 <= k < i ==> binding_of(#[trigger] u@[k], crbs@[k], "ClusterRoleBinding"@, None),
        decreases crbs@.len() - i,
    {
        u.push(binding_entry(&crbs[i], true));
        i = i + 1;
    }
    let mut j: usize = 0;
    while j < rbs.len()
        invariant
            j <= rbs@.len(),
            u@.len() == crbs@.len() + j,
            forall|k: int| 0 <= k < crbs@.len() ==> binding_of(#[trigger] u@[k], crbs@[k], "ClusterRoleBinding"@, None),
            forall|k: int| 0 <= k < j ==>
                binding_of(#[trigger] u@[crbs@.len() + k], rbs@[k], "RoleBinding"@, opt_seq(rbs@[k].namespace)),
        decreases rbs@.len() - j,
    {
        u.push(binding_entry(&rbs[j], false));
        j = j + 1;
    }
    let ghost uv = u@;
    sort_stable(u)
}

} // verus!
