use vstd::prelude::*;

pub mod text;
pub mod quantity;
pub mod units;
pub mod binary64;
pub mod json;
pub mod model;
pub mod security;
pub mod diff;
pub mod order;
pub mod benchmark;
pub mod health;
pub mod rbac_audit;
pub mod netpol;
pub mod summary;
pub mod images;
pub mod clock;
pub mod age;
pub mod hpa;
pub mod describe;
pub mod metrics;
pub mod restarts;
pub mod resources;
pub mod context;
pub mod topology;
pub mod traffic;
pub mod cronjob;
pub mod crds;
pub mod watcher;
pub mod rbac;
pub mod helm;
pub mod scale;
pub mod events;
pub mod discovery;
pub mod nodes;
pub mod logs;
pub mod portforward;
pub mod cost;
pub mod exec;
pub mod shell_path;

verus! {

} // verus!
