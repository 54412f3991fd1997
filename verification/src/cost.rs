//! The non-monetary part of a workload's cost estimate: the requests each
//! container states and the replica count priced.
use vstd::prelude::*;
use crate::model::{Container, Resources, StrMap, map_lookup};
use crate::benchmark::quantity_of;
use crate::text::{string_of, str_eq};

pub use crate::images::get_selector;

verus! {

/// The CPU and memory requests of a container as written, `0` when unset.
pub open spec fn requests_text(c: Container) -> (Seq<char>, Seq<char>) {
    let req = match c.resources {
        Some(r) => r.requests,
        None => None,
    };
    (
        match quantity_of(req, "cpu"@) { Some(q) => q, None => "0"@ },
        match quantity_of(req, "memory"@) { Some(q) => q, None => "0"@ },
    )
}

/// The CPU and memory requests of a container as written.
pub fn container_requests(c: &Container) -> (r: (String, String))
    ensures
        (r.0@, r.1@) == requests_text(*c),
{
    let none: Option<StrMap> = None;
    let req = match &c.resources {
        Some(res) => &res.requests,
        None => &none,
    };
    let cpu = match req {
        Some(m) => match map_lookup(m, "cpu") {
            Some(q) => q.clone(),
            None => string_of("0"),
        },
        None => string_of("0"),
    };
    let mem = match req {
        Some(m) => match map_lookup(m, "memory") {
            Some(q) => q.clone(),
            None => string_of("0"),
        },
        None => string_of("0"),
    };
    (cpu, mem)
}

/// The replicas priced for a workload of kind `kind` whose spec asks for
/// `replicas`: 0 for a daemon set, which runs on every node; else the
/// replicas asked for, 1 when unset.
pub fn replica_count(kind: &str, replicas: Option<i32>) -> (r: i32)
    ensures
        r == (if kind@ == "DaemonSet"@ { 0 } else { match replicas { Some(n) => n, None => 1 } }),
{
    if str_eq(kind, "DaemonSet") {
        0
    } else {
        match replicas {
            Some(n) => n,
            None => 1,
        }
    }
}

} // verus!
