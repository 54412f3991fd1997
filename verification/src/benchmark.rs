//! Resource benchmark of a pod: usage samples per container, their
//! statistics, and requests and limits recommended from them.
use vstd::prelude::*;
use crate::json::{Json, at, at_path, array_of, str_or, deref_opt, get, as_array, str_or_default};
use crate::model::{Container, PodSpec, Resources, StrMap, map_get, map_lookup};
use crate::order::{Ordered, sort_ordered, sort_stable};
use crate::quantity::{parse_cpu_spec, parse_memory_spec};
use crate::text::{dec_repr, int_repr, seq_lt, str_lt, lemma_seq_lt_total, lemma_seq_lt_transitive, string_of, append_u64, append_i64};
use crate::units::{cpu_repr, memory_repr, render_cpu, render_memory};

pub use crate::quantity::{parse_cpu, parse_memory};

verus! {

#[derive(Debug)]
pub struct ContainerBenchmark {
    pub name: String,
    pub samples: usize,
    pub current_cpu_request: Option<String>,
    pub current_cpu_limit: Option<String>,
    pub current_mem_request: Option<String>,
    pub current_mem_limit: Option<String>,
    pub cpu_avg: u64,
    pub cpu_p50: u64,
    pub cpu_p95: u64,
    pub cpu_p99: u64,
    pub cpu_max: u64,
    pub cpu_min: u64,
    pub mem_avg: u64,
    pub mem_p50: u64,
    pub mem_p95: u64,
    pub mem_p99: u64,
    pub mem_max: u64,
    pub mem_min: u64,
    pub cpu_avg_fmt: String,
    pub cpu_p50_fmt: String,
    pub cpu_p95_fmt: String,
    pub cpu_p99_fmt: String,
    pub cpu_max_fmt: String,
    pub mem_avg_fmt: String,
    pub mem_p50_fmt: String,
    pub mem_p95_fmt: String,
    pub mem_p99_fmt: String,
    pub mem_max_fmt: String,
    pub rec_cpu_request: String,
    pub rec_cpu_limit: String,
    pub rec_mem_request: String,
    pub rec_mem_limit: String,
    pub rec_cpu_request_mc: u64,
    pub rec_cpu_limit_mc: u64,
    pub rec_mem_request_bytes: u64,
    pub rec_mem_limit_bytes: u64,
    pub current_cpu_request_mc: u64,
    pub current_cpu_limit_mc: u64,
    pub current_mem_request_bytes: u64,
    pub current_mem_limit_bytes: u64,
}

#[derive(Debug)]
pub struct BenchmarkResult {
    pub pod_name: String,
    pub namespace: String,
    pub duration_secs: u64,
    pub interval_secs: u64,
    pub total_samples: usize,
    pub containers: Vec<ContainerBenchmark>,
}

#[derive(Debug)]
pub struct BenchmarkProgress {
    pub bench_id: String,
    pub sample: usize,
    pub total: usize,
    pub elapsed_secs: u64,
    pub duration_secs: u64,
}

/// A container's current requests and limits: parsed values and the
/// quantities as written.
#[derive(Debug)]
pub struct CurrentResources {
    pub req_cpu: u64,
    pub req_mem: u64,
    pub lim_cpu: u64,
    pub lim_mem: u64,
    pub req_cpu_str: Option<String>,
    pub req_mem_str: Option<String>,
    pub lim_cpu_str: Option<String>,
    pub lim_mem_str: Option<String>,
}

/// The statistics of one series of samples, with the request and limit
/// recommended from them.
#[derive(Debug, Clone, Copy)]
pub struct SeriesStats {
    pub avg: u64,
    pub p50: u64,
    pub p95: u64,
    pub p99: u64,
    pub max: u64,
    pub min: u64,
    pub rec_request: u64,
    pub rec_limit: u64,
}

pub open spec fn opt_seq(o: Option<String>) -> Option<Seq<char>> {
    match o {
        Some(s) => Some(s@),
        None => None,
    }
}

pub open spec fn sum_nat(s: Seq<u64>) -> nat
    decreases s.len(),
{
    if s.len() == 0 {
        0
    } else {
        sum_nat(s.drop_last()) + s.last() as nat
    }
}

/// The sum of `s` wrapped to 64 bits.
pub open spec fn wrapped_sum(s: Seq<u64>) -> u64 {
    (sum_nat(s) % 0x1_0000_0000_0000_0000) as u64
}

/// The index of the `pct` percentile in `len` sorted samples: `pct`% of
/// the last index, rounded half up, and at most the last index.
pub open spec fn pct_index(len: nat, pct: nat) -> int {
    let i = (pct * (len - 1) + 50) / 100;
    if i < len - 1 { i as int } else { len - 1 }
}

/// The `pct` percentile of the sorted samples `s`, 0 for no samples.
pub open spec fn percentile_spec(s: Seq<u64>, pct: nat) -> u64 {
    if s.len() == 0 { 0 } else { s[pct_index(s.len(), pct)] }
}

/// `x * num / den` rounded up, saturated at `u64::MAX`.
pub open spec fn scale_up(x: nat, num: nat, den: nat) -> u64 {
    let v = (num * x + den - 1) / (den as int);
    if v > u64::MAX { u64::MAX } else { v as u64 }
}

pub open spec fn max_u64(a: u64, b: u64) -> u64 {
    if a >= b { a } else { b }
}

/// The statistics of the samples `xs`: mean (of the wrapped sum),
/// percentiles of the sorted samples, extremes; the request recommended
/// is 1.2 times the median and at least the mean, the limit 1.25 times
/// the 99th percentile and at least the maximum and the request.
pub open spec fn stats_of(xs: Seq<u64>) -> SeriesStats {
    let s = sort_ordered(xs);
    let n = xs.len();
    let avg = (wrapped_sum(xs) / (n as u64)) as u64;
    let p50 = percentile_spec(s, 50);
    let p99 = percentile_spec(s, 99);
    let max = s[n - 1];
    let req = max_u64(scale_up(p50 as nat, 6, 5), avg);
    SeriesStats {
        avg,
        p50,
        p95: percentile_spec(s, 95),
        p99,
        max,
        min: s[0],
        rec_request: req,
        rec_limit: max_u64(max_u64(scale_up(p99 as nat, 5, 4), max), req),
    }
}

pub open spec fn cpus_of(data: Seq<(u64, u64)>) -> Seq<u64> {
    data.map_values(|p: (u64, u64)| p.0)
}

pub open spec fn mems_of(data: Seq<(u64, u64)>) -> Seq<u64> {
    data.map_values(|p: (u64, u64)| p.1)
}

/// `r` is the benchmark of the container `name` with the samples `data`
/// and the current settings `cur`.
pub open spec fn benchmark_of(r: ContainerBenchmark, name: Seq<char>, data: Seq<(u64, u64)>, cur: CurrentResources) -> bool {
    let c = stats_of(cpus_of(data));
    let m = stats_of(mems_of(data));
    let none = Seq::<char>::empty();
    &&& r.name@ == name
    &&& r.samples == data.len()
    &&& opt_seq(r.current_cpu_request) == opt_seq(cur.req_cpu_str)
    &&& opt_seq(r.current_cpu_limit) == opt_seq(cur.lim_cpu_str)
    &&& opt_seq(r.current_mem_request) == opt_seq(cur.req_mem_str)
    &&& opt_seq(r.current_mem_limit) == opt_seq(cur.lim_mem_str)
    &&& r.cpu_avg == c.avg && r.cpu_p50 == c.p50 && r.cpu_p95 == c.p95
    &&& r.cpu_p99 == c.p99 && r.cpu_max == c.max && r.cpu_min == c.min
    &&& r.mem_avg == m.avg && r.mem_p50 == m.p50 && r.mem_p95 == m.p95
    &&& r.mem_p99 == m.p99 && r.mem_max == m.max && r.mem_min == m.min
    &&& r.cpu_avg_fmt@ == cpu_repr(c.avg as nat, none)
    &&& r.cpu_p50_fmt@ == cpu_repr(c.p50 as nat, none)
    &&& r.cpu_p95_fmt@ == cpu_repr(c.p95 as nat, none)
    &&& r.cpu_p99_fmt@ == cpu_repr(c.p99 as nat, none)
    &&& r.cpu_max_fmt@ == cpu_repr(c.max as nat, none)
    &&& r.mem_avg_fmt@ == memory_repr(m.avg as nat, none)
    &&& r.mem_p50_fmt@ == memory_repr(m.p50 as nat, none)
    &&& r.mem_p95_fmt@ == memory_repr(m.p95 as nat, none)
    &&& r.mem_p99_fmt@ == memory_repr(m.p99 as nat, none)
    &&& r.mem_max_fmt@ == memory_repr(m.max as nat, none)
    &&& r.rec_cpu_request@ == cpu_repr(c.rec_request as nat, none)
    &&& r.rec_cpu_limit@ == cpu_repr(c.rec_limit as nat, none)
    &&& r.rec_mem_request@ == memory_repr(m.rec_request as nat, none)
    &&& r.rec_mem_limit@ == memory_repr(m.rec_limit as nat, none)
    &&& r.rec_cpu_request_mc == c.rec_request
    &&& r.rec_cpu_limit_mc == c.rec_limit
    &&& r.rec_mem_request_bytes == m.rec_request
    &&& r.rec_mem_limit_bytes == m.rec_limit
    &&& r.current_cpu_request_mc == cur.req_cpu
    &&& r.current_cpu_limit_mc == cur.lim_cpu
    &&& r.current_mem_request_bytes == cur.req_mem
    &&& r.current_mem_limit_bytes == cur.lim_mem
}

/// Renders millicores without a unit for whole cores (`1.5`, `250m`).
pub fn format_cpu(millicores: u64) -> (r: String)
    ensures
        r@ == cpu_repr(millicores as nat, Seq::empty()),
{
    render_cpu(millicores, false)
}

/// Renders bytes in binary units with no space (`1.5Gi`, `512Mi`).
pub fn format_memory(bytes: u64) -> (r: String)
    ensures
        r@ == memory_repr(bytes as nat, Seq::empty()),
{
    render_memory(bytes, false)
}

/// The `pct` percentile of the sorted samples `sorted`.
pub fn percentile(sorted: &Vec<u64>, pct: u64) -> (r: u64)
    ensures
        r == percentile_spec(sorted@, pct as nat),
{
    if sorted.len() == 0 {
        return 0;
    }
    let last = (sorted.len() - 1) as u128;
    assert(pct * last + 50 <= u128::MAX) by (nonlinear_arith)
        requires pct <= u64::MAX, last <= u64::MAX;
    let i = ((pct as u128) * last + 50) / 100;
    let idx: usize = if i < last { i as usize } else { last as usize };
    sorted[idx]
}

proof fn lemma_sum_step(s: Seq<u64>, i: int)
    requires
        0 <= i < s.len(),
    ensures
        sum_nat(s.subrange(0, i + 1)) == sum_nat(s.subrange(0, i)) + s[i],
{
    assert(s.subrange(0, i + 1).drop_last() =~= s.subrange(0, i));
}

/// The statistics of the samples `xs`.
pub fn series_stats(xs: Vec<u64>) -> (r: SeriesStats)
    requires
        xs@.len() > 0,
    ensures
        r == stats_of(xs@),
{
    let ghost orig = xs@;
    let n = xs.len();
    let mut sum: u64 = 0;
    let mut i: usize = 0;
    while i < n
        invariant
            n == xs@.len(),
            i <= n,
            sum == (sum_nat(xs@.subrange(0, i as int)) % 0x1_0000_0000_0000_0000) as u64,
        decreases n - i,
    {
        proof {
            lemma_sum_step(xs@, i as int);
        }
        sum = sum.wrapping_add(xs[i]);
        i = i + 1;
    }
    assert(xs@.subrange(0, n as int) =~= xs@);
    let avg = sum / (n as u64);
    let s = sort_stable(xs);
    proof {
        crate::order::law_sort_is_ordered(orig);
    }
    let p50 = percentile(&s, 50);
    let p95 = percentile(&s, 95);
    let p99 = percentile(&s, 99);
    let max = s[n - 1];
    let min = s[0];
    let up = (p50 as u128 * 6 + 4) / 5;
    let scaled_req: u64 = if up > u64::MAX as u128 { u64::MAX } else { up as u64 };
    let req = if scaled_req >= avg { scaled_req } else { avg };
    let up2 = (p99 as u128 * 5 + 3) / 4;
    let scaled_lim: u64 = if up2 > u64::MAX as u128 { u64::MAX } else { up2 as u64 };
    let lim0 = if scaled_lim >= max { scaled_lim } else { max };
    let lim = if lim0 >= req { lim0 } else { req };
    SeriesStats { avg, p50, p95, p99, max, min, rec_request: req, rec_limit: lim }
}

/// Copies of the current settings with no requests or limits.
pub fn no_current_resources() -> (r: CurrentResources)
    ensures
        r.req_cpu == 0 && r.req_mem == 0 && r.lim_cpu == 0 && r.lim_mem == 0,
        r.req_cpu_str is None && r.req_mem_str is None,
        r.lim_cpu_str is None && r.lim_mem_str is None,
{
    CurrentResources {
        req_cpu: 0, req_mem: 0, lim_cpu: 0, lim_mem: 0,
        req_cpu_str: None, req_mem_str: None, lim_cpu_str: None, lim_mem_str: None,
    }
}

fn copy_opt(o: &Option<String>) -> (r: Option<String>)
    ensures
        opt_seq(r) == opt_seq(*o),
{
    match o {
        Some(s) => Some(s.clone()),
        None => None,
    }
}

/// A copy of `c`.
pub fn copy_current(c: &CurrentResources) -> (r: CurrentResources)
    ensures
        r.req_cpu == c.req_cpu && r.req_mem == c.req_mem && r.lim_cpu == c.lim_cpu && r.lim_mem == c.lim_mem,
        opt_seq(r.req_cpu_str) == opt_seq(c.req_cpu_str),
        opt_seq(r.req_mem_str) == opt_seq(c.req_mem_str),
        opt_seq(r.lim_cpu_str) == opt_seq(c.lim_cpu_str),
        opt_seq(r.lim_mem_str) == opt_seq(c.lim_mem_str),
{
    CurrentResources {
        req_cpu: c.req_cpu,
        req_mem: c.req_mem,
        lim_cpu: c.lim_cpu,
        lim_mem: c.lim_mem,
        req_cpu_str: copy_opt(&c.req_cpu_str),
        req_mem_str: copy_opt(&c.req_mem_str),
        lim_cpu_str: copy_opt(&c.lim_cpu_str),
        lim_mem_str: copy_opt(&c.lim_mem_str),
    }
}

/// The benchmark of the container `name` from its samples `data`.
pub fn container_benchmark(name: &String, data: &Vec<(u64, u64)>, cur: &CurrentResources) -> (r: ContainerBenchmark)
    requires
        data@.len() > 0,
    ensures
        benchmark_of(r, name@, data@, *cur),
{
    let n = data.len();
    let mut cpus: Vec<u64> = Vec::new();
    let mut mems: Vec<u64> = Vec::new();
    let mut i: usize = 0;
    while i < n
        invariant
            n == data@.len(),
            i <= n,
            cpus@ == cpus_of(data@.subrange(0, i as int)),
            mems@ == mems_of(data@.subrange(0, i as int)),
        decreases n - i,
    {
        cpus.push(data[i].0);
        mems.push(data[i].1);
        i = i + 1;
        assert(cpus@ =~= cpus_of(data@.subrange(0, i as int)));
        assert(mems@ =~= mems_of(data@.subrange(0, i as int)));
    }
    assert(data@.subrange(0, n as int) =~= data@);
    let c = series_stats(cpus);
    let m = series_stats(mems);
    ContainerBenchmark {
        name: name.clone(),
        samples: n,
        current_cpu_request: copy_opt(&cur.req_cpu_str),
        current_cpu_limit: copy_opt(&cur.lim_cpu_str),
        current_mem_request: copy_opt(&cur.req_mem_str),
        current_mem_limit: copy_opt(&cur.lim_mem_str),
        cpu_avg: c.avg,
        cpu_p50: c.p50,
        cpu_p95: c.p95,
        cpu_p99: c.p99,
        cpu_max: c.max,
        cpu_min: c.min,
        mem_avg: m.avg,
        mem_p50: m.p50,
        mem_p95: m.p95,
        mem_p99: m.p99,
        mem_max: m.max,
        mem_min: m.min,
        cpu_avg_fmt: format_cpu(c.avg),
        cpu_p50_fmt: format_cpu(c.p50),
        cpu_p95_fmt: format_cpu(c.p95),
        cpu_p99_fmt: format_cpu(c.p99),
        cpu_max_fmt: format_cpu(c.max),
        mem_avg_fmt: format_memory(m.avg),
        mem_p50_fmt: format_memory(m.p50),
        mem_p95_fmt: format_memory(m.p95),
        mem_p99_fmt: format_memory(m.p99),
        mem_max_fmt: format_memory(m.max),
        rec_cpu_request: format_cpu(c.rec_request),
        rec_cpu_limit: format_cpu(c.rec_limit),
        rec_mem_request: format_memory(m.rec_request),
        rec_mem_limit: format_memory(m.rec_limit),
        rec_cpu_request_mc: c.rec_request,
        rec_cpu_limit_mc: c.rec_limit,
        rec_mem_request_bytes: m.rec_request,
        rec_mem_limit_bytes: m.rec_limit,
        current_cpu_request_mc: cur.req_cpu,
        current_cpu_limit_mc: cur.lim_cpu,
        current_mem_request_bytes: cur.req_mem,
        current_mem_limit_bytes: cur.lim_mem,
    }
}

impl Ordered for ContainerBenchmark {
    open spec fn before(a: ContainerBenchmark, b: ContainerBenchmark) -> bool {
        seq_lt(a.name@, b.name@)
    }

    proof fn lemma_asymmetric(a: ContainerBenchmark, b: ContainerBenchmark) {
        lemma_seq_lt_total(a.name@, b.name@);
    }

    proof fn lemma_not_before_transitive(a: ContainerBenchmark, b: ContainerBenchmark, c: ContainerBenchmark) {
        lemma_seq_lt_total(a.name@, b.name@);
        lemma_seq_lt_total(b.name@, c.name@);
        lemma_seq_lt_total(a.name@, c.name@);
        if seq_lt(c.name@, a.name@) {
            if seq_lt(a.name@, b.name@) {
                lemma_seq_lt_transitive(c.name@, a.name@, b.name@);
            }
        }
    }

    fn is_before(&self, other: &ContainerBenchmark) -> (r: bool) {
        str_lt(self.name.as_str(), other.name.as_str())
    }
}

/// The parsed value and text of quantity `key` in `m`, when present.
pub open spec fn quantity_of(m: Option<StrMap>, key: Seq<char>) -> Option<Seq<char>> {
    match m {
        Some(mm) => map_get(mm@, key),
        None => None,
    }
}

/// The current settings of container `c`: each request and limit for
/// `cpu` and `memory`, parsed (0 when absent) and as written.
pub open spec fn current_of(c: Container) -> (u64, u64, u64, u64, Option<Seq<char>>, Option<Seq<char>>, Option<Seq<char>>, Option<Seq<char>>) {
    let (req, lim) = match c.resources {
        Some(r) => (r.requests, r.limits),
        None => (None, None),
    };
    let rc = quantity_of(req, "cpu"@);
    let rm = quantity_of(req, "memory"@);
    let lc = quantity_of(lim, "cpu"@);
    let lm = quantity_of(lim, "memory"@);
    (
        match rc { Some(s) => parse_cpu_spec(s), None => 0 },
        match rm { Some(s) => parse_memory_spec(s), None => 0 },
        match lc { Some(s) => parse_cpu_spec(s), None => 0 },
        match lm { Some(s) => parse_memory_spec(s), None => 0 },
        rc, rm, lc, lm,
    )
}

pub open spec fn current_view(c: CurrentResources) -> (u64, u64, u64, u64, Option<Seq<char>>, Option<Seq<char>>, Option<Seq<char>>, Option<Seq<char>>) {
    (c.req_cpu, c.req_mem, c.lim_cpu, c.lim_mem, opt_seq(c.req_cpu_str), opt_seq(c.req_mem_str), opt_seq(c.lim_cpu_str), opt_seq(c.lim_mem_str))
}

fn lookup_quantity<'a>(m: &'a Option<StrMap>, key: &str) -> (r: Option<&'a String>)
    ensures
        match r {
            Some(s) => quantity_of(*m, key@) == Some(s@),
            None => quantity_of(*m, key@) is None,
        },
{
    match m {
        Some(mm) => map_lookup(mm, key),
        None => None,
    }
}

fn cpu_quantity(q: Option<&String>) -> (r: (u64, Option<String>))
    ensures
        match q {
            Some(s) => r.0 == parse_cpu_spec(s@) && opt_seq(r.1) == Some(s@),
            None => r.0 == 0 && r.1 is None,
        },
{
    match q {
        Some(s) => (parse_cpu(s.as_str()), Some(s.clone())),
        None => (0, None),
    }
}

fn memory_quantity(q: Option<&String>) -> (r: (u64, Option<String>))
    ensures
        match q {
            Some(s) => r.0 == parse_memory_spec(s@) && opt_seq(r.1) == Some(s@),
            None => r.0 == 0 && r.1 is None,
        },
{
    match q {
        Some(s) => (parse_memory(s.as_str()), Some(s.clone())),
        None => (0, None),
    }
}

/// The current requests and limits of container `c`.
pub fn current_resources(c: &Container) -> (r: CurrentResources)
    ensures
        current_view(r) == current_of(*c),
{
    let none: Option<StrMap> = None;
    let (req, lim) = match &c.resources {
        Some(res) => (&res.requests, &res.limits),
        None => (&none, &none),
    };
    let (req_cpu, req_cpu_str) = cpu_quantity(lookup_quantity(req, "cpu"));
    let (req_mem, req_mem_str) = memory_quantity(lookup_quantity(req, "memory"));
    let (lim_cpu, lim_cpu_str) = cpu_quantity(lookup_quantity(lim, "cpu"));
    let (lim_mem, lim_mem_str) = memory_quantity(lookup_quantity(lim, "memory"));
    CurrentResources { req_cpu, req_mem, lim_cpu, lim_mem, req_cpu_str, req_mem_str, lim_cpu_str, lim_mem_str }
}

/// The current settings of each container of `spec`, by name, in order.
pub fn container_resources(spec: &Option<PodSpec>) -> (r: Vec<(String, CurrentResources)>)
    ensures
        match spec {
            Some(ps) => r@.len() == ps.containers@.len() && forall|k: int| 0 <= k < r@.len() ==>
                #[trigger] r@[k].0@ == ps.containers@[k].name@ && current_view(r@[k].1) == current_of(ps.containers@[k]),
            None => r@.len() == 0,
        },
{
    let mut out: Vec<(String, CurrentResources)> = Vec::new();
    match spec {
        Some(ps) => {
            let mut i: usize = 0;
            while i < ps.containers.len()
                invariant
                    i <= ps.containers@.len(),
                    out@.len() == i,
                    forall|k: int| 0 <= k < i ==>
                        #[trigger] out@[k].0@ == ps.containers@[k].name@ && current_view(out@[k].1) == current_of(ps.containers@[k]),
                decreases ps.containers@.len() - i,
            {
                let c = &ps.containers[i];
                let cr = current_resources(c);
                let nm = c.name.clone();
                assert(nm@ == ps.containers@[i as int].name@);
                assert(current_view(cr) == current_of(ps.containers@[i as int]));
                let ghost prev = out@;
                out.push((nm, cr));
                proof {
                    assert forall|k: int| 0 <= k < i + 1 implies
                        #[trigger] out@[k].0@ == ps.containers@[k].name@ && current_view(out@[k].1) == current_of(ps.containers@[k]) by {
                        if k < i {
                            assert(out@[k] == prev[k]);
                        }
                    }
                }
                i = i + 1;
            }
        },
        None => {},
    }
    out
}

/// The settings recorded for container `name`: the last entry of `res`
/// with that name, else none at all.
pub open spec fn cur_for(res: Seq<(String, CurrentResources)>, name: Seq<char>) -> CurrentResources
    decreases res.len(),
{
    if res.len() == 0 {
        CurrentResources {
            req_cpu: 0, req_mem: 0, lim_cpu: 0, lim_mem: 0,
            req_cpu_str: None, req_mem_str: None, lim_cpu_str: None, lim_mem_str: None,
        }
    } else if res.last().0@ == name {
        res.last().1
    } else {
        cur_for(res.drop_last(), name)
    }
}

fn find_current(res: &Vec<(String, CurrentResources)>, name: &String) -> (r: CurrentResources)
    ensures
        current_view(r) == current_view(cur_for(res@, name@)),
{
    let mut i: usize = res.len();
    assert(res@.subrange(0, res@.len() as int) =~= res@);
    while i > 0
        invariant
            i <= res@.len(),
            cur_for(res@, name@) == cur_for(res@.subrange(0, i as int), name@),
        decreases i,
    {
        let ghost pre = res@.subrange(0, i as int);
        assert(pre.drop_last() =~= res@.subrange(0, i - 1));
        if res[i - 1].0 == *name {
            return copy_current(&res[i - 1].1);
        }
        i = i - 1;
    }
    no_current_resources()
}

/// The entries of `s` that hold at least one sample.
pub open spec fn nonempty_samples(s: Seq<(String, Vec<(u64, u64)>)>) -> Seq<(String, Vec<(u64, u64)>)>
    decreases s.len(),
{
    if s.len() == 0 {
        Seq::empty()
    } else if s.last().1@.len() > 0 {
        nonempty_samples(s.drop_last()).push(s.last())
    } else {
        nonempty_samples(s.drop_last())
    }
}

proof fn lemma_benchmark_of_current(r: ContainerBenchmark, name: Seq<char>, data: Seq<(u64, u64)>, c1: CurrentResources, c2: CurrentResources)
    requires
        benchmark_of(r, name, data, c1),
        current_view(c1) == current_view(c2),
    ensures
        benchmark_of(r, name, data, c2),
{
}

/// The benchmarks of the containers with samples, sorted by name.
pub fn build_benchmarks(samples: &Vec<(String, Vec<(u64, u64)>)>, res: &Vec<(String, CurrentResources)>) -> (r: Vec<ContainerBenchmark>)
    ensures
        exists|u: Seq<ContainerBenchmark>| #![trigger sort_ordered(u)] {
            let ne = nonempty_samples(samples@);
            &&& r@ == sort_ordered(u)
            &&& u.len() == ne.len()
            &&& forall|k: int| 0 <= k < u.len() ==>
                benchmark_of(#[trigger] u[k], ne[k].0@, ne[k].1@, cur_for(res@, ne[k].0@))
        },
{
    let mut u: Vec<ContainerBenchmark> = Vec::new();
    let mut i: usize = 0;
    while i < samples.len()
        invariant
            i <= samples@.len(),
            u@.len() == nonempty_samples(samples@.subrange(0, i as int)).len(),
            forall|k: int| 0 <= k < u@.len() ==> {
                let ne = nonempty_samples(samples@.subrange(0, i as int));
                benchmark_of(#[trigger] u@[k], ne[k].0@, ne[k].1@, cur_for(res@, ne[k].0@))
            },
        decreases samples@.len() - i,
    {
        let ghost pre = samples@.subrange(0, i as int);
        let ghost nxt = samples@.subrange(0, i + 1);
        assert(nxt.drop_last() =~= pre);
        let (name, data) = (&samples[i].0, &samples[i].1);
        if data.len() > 0 {
            let cur = find_current(res, name);
            let b = container_benchmark(name, data, &cur);
            proof {
                lemma_benchmark_of_current(b, name@, data@, cur, cur_for(res@, name@));
            }
            u.push(b);
        }
        i = i + 1;
    }
    assert(samples@.subrange(0, samples@.len() as int) =~= samples@);
    let ghost uu = u@;
    let r = sort_stable(u);
    assert(r@ == sort_ordered(uu));
    r
}

/// The number of samples a run of `duration_secs` takes every
/// `interval_secs`: at least one.
pub fn total_samples(duration_secs: u64, interval_secs: u64) -> (r: usize)
    requires
        interval_secs > 0,
    ensures
        r == (if duration_secs / interval_secs >= 1 { duration_secs / interval_secs } else { 1 }) as usize,
{
    let n = duration_secs / interval_secs;
    let m = if n >= 1 { n } else { 1 };
    m as usize
}

/// The progress report before sample `i` (counted from 0) of `total`.
pub fn progress(bench_id: &str, i: usize, total: usize, interval_secs: u64, duration_secs: u64) -> (r: BenchmarkProgress)
    requires
        i < total,
    ensures
        r.bench_id@ == bench_id@,
        r.sample == i + 1,
        r.total == total,
        r.elapsed_secs == ((i as u64) as nat * interval_secs as nat) % 0x1_0000_0000_0000_0000,
        r.duration_secs == duration_secs,
{
    BenchmarkProgress {
        bench_id: string_of(bench_id),
        sample: i + 1,
        total,
        elapsed_secs: (i as u64).wrapping_mul(interval_secs),
        duration_secs,
    }
}

/// The samples of a container: name, CPU and memory usage, parsed.
pub open spec fn sample_of(c: Json) -> (Seq<char>, (u64, u64)) {
    (
        str_or(at(Some(c), "name"@), Seq::empty()),
        (
            parse_cpu_spec(str_or(at_path(Some(c), seq!["usage"@, "cpu"@]), "0"@)),
            parse_memory_spec(str_or(at_path(Some(c), seq!["usage"@, "memory"@]), "0"@)),
        ),
    )
}

pub open spec fn sample_views(s: Seq<(String, Vec<(u64, u64)>)>) -> Seq<(Seq<char>, Seq<(u64, u64)>)> {
    s.map_values(|e: (String, Vec<(u64, u64)>)| (e.0@, e.1@))
}

/// The index of the first entry of `s` named `name`, if any.
pub open spec fn entry_index(s: Seq<(Seq<char>, Seq<(u64, u64)>)>, name: Seq<char>) -> Option<int>
    decreases s.len(),
{
    if s.len() == 0 {
        None
    } else if s[0].0 == name {
        Some(0)
    } else {
        match entry_index(s.drop_first(), name) {
            Some(k) => Some(k + 1),
            None => None,
        }
    }
}

proof fn lemma_entry_index(s: Seq<(Seq<char>, Seq<(u64, u64)>)>, name: Seq<char>, k: int)
    requires
        0 <= k <= s.len(),
        forall|t: int| 0 <= t < k ==> s[t].0 != name,
    ensures
        k < s.len() && s[k].0 == name ==> entry_index(s, name) == Some(k),
        k == s.len() ==> entry_index(s, name) is None,
    decreases k,
{
    if k > 0 {
        lemma_entry_index(s.drop_first(), name, k - 1);
    } else if s.len() > 0 {
    }
}

/// `s` with `p` added to the samples of `name`, a new entry at the end
/// when `name` has none.
pub open spec fn add_sample(s: Seq<(Seq<char>, Seq<(u64, u64)>)>, name: Seq<char>, p: (u64, u64)) -> Seq<(Seq<char>, Seq<(u64, u64)>)> {
    match entry_index(s, name) {
        Some(k) => s.update(k, (name, s[k].1.push(p))),
        None => s.push((name, seq![p])),
    }
}

/// `s` after the samples of each of the containers `cs`, in order.
pub open spec fn add_samples(s: Seq<(Seq<char>, Seq<(u64, u64)>)>, cs: Seq<Json>) -> Seq<(Seq<char>, Seq<(u64, u64)>)>
    decreases cs.len(),
{
    if cs.len() == 0 {
        s
    } else {
        let (name, p) = sample_of(cs.last());
        add_sample(add_samples(s, cs.drop_last()), name, p)
    }
}

/// `s` after the metrics document `raw` of one sample.
pub open spec fn record_spec(s: Seq<(Seq<char>, Seq<(u64, u64)>)>, raw: Json) -> Seq<(Seq<char>, Seq<(u64, u64)>)> {
    match array_of(at(Some(raw), "containers"@)) {
        Some(cs) => add_samples(s, cs),
        None => s,
    }
}

fn add_one(samples: &mut Vec<(String, Vec<(u64, u64)>)>, name: String, p: (u64, u64))
    ensures
        sample_views(final(samples)@) == add_sample(sample_views(old(samples)@), name@, p),
{
    let ghost sv = sample_views(samples@);
    let mut k: usize = 0;
    while k < samples.len()
        invariant
            k <= samples@.len(),
            sv == sample_views(samples@),
            sv == sample_views(old(samples)@),
            forall|t: int| 0 <= t < k ==> sv[t].0 != name@,
        decreases samples@.len() - k,
    {
        if samples[k].0 == name {
            let ghost kk = k as int;
            proof {
                assert(sv[kk].0 == name@);
                lemma_entry_index(sv, name@, kk);
            }
            let mut e = samples.remove(k);
            e.1.push(p);
            samples.insert(k, e);
            proof {
                assert(sample_views(samples@) =~= sv.update(kk, (name@, sv[kk].1.push(p))));
            }
            return;
        }
        k = k + 1;
    }
    proof {
        lemma_entry_index(sv, name@, sv.len() as int);
    }
    let mut one: Vec<(u64, u64)> = Vec::new();
    one.push(p);
    samples.push((name, one));
    proof {
        assert(sample_views(samples@) =~= sv.push((name@, seq![p])));
    }
}

pub(crate) fn usage(c: &Json, key: &str) -> (r: String)
    ensures
        r@ == str_or(at_path(Some(*c), seq!["usage"@, key@]), "0"@),
{
    let u = get(Some(c), "usage");
    let v = get(u, key);
    proof {
        reveal_with_fuel(at_path, 3);
        assert(seq!["usage"@, key@].drop_first() =~= seq![key@]);
        assert(seq![key@].drop_first() =~= Seq::<Seq<char>>::empty());
    }
    str_or_default(v, "0")
}

/// Adds the usage of each container in the metrics document `raw` to the
/// samples of that container's name.
pub fn record_sample(samples: &mut Vec<(String, Vec<(u64, u64)>)>, raw: &Json)
    ensures
        sample_views(final(samples)@) == record_spec(sample_views(old(samples)@), *raw),
{
    let arr = as_array(get(Some(raw), "containers"));
    match arr {
        Some(cs) => {
            let ghost start = sample_views(samples@);
            let mut i: usize = 0;
            while i < cs.len()
                invariant
                    i <= cs@.len(),
                    sample_views(samples@) == add_samples(start, cs@.subrange(0, i as int)),
                decreases cs@.len() - i,
            {
                let ghost pre = cs@.subrange(0, i as int);
                assert(cs@.subrange(0, i + 1).drop_last() =~= pre);
                let c = &cs[i];
                let name = str_or_default(get(Some(c), "name"), "");
                proof {
                    reveal_strlit("");
                }
                let cpu = usage(c, "cpu");
                let mem = usage(c, "memory");
                let p = (parse_cpu(cpu.as_str()), parse_memory(mem.as_str()));
                assert(cs@.subrange(0, i + 1).last() == cs@[i as int]);
                assert(sample_of(cs@[i as int]) == (name@, p));
                add_one(samples, name, p);
                i = i + 1;
            }
            assert(cs@.subrange(0, cs@.len() as int) =~= cs@);
        },
        None => {},
    }
}

/// The identifier of a benchmark of `pod` in `namespace` started at the
/// Unix time `ts`: `bench-<namespace>-<pod>-<ts>`.
pub open spec fn bench_id_spec(namespace: Seq<char>, pod: Seq<char>, ts: i64) -> Seq<char> {
    "bench-"@ + namespace + "-"@ + pod + "-"@ + int_repr(ts as int)
}

pub fn bench_id(namespace: &str, pod: &str, ts: i64) -> (r: String)
    ensures
        r@ == bench_id_spec(namespace@, pod@, ts),
{
    let mut s = string_of("bench-");
    s.append(namespace);
    s.append("-");
    s.append(pod);
    s.append("-");
    append_i64(&mut s, ts);
    s
}

/// The result of a finished run: the benchmarks of the containers that
/// were sampled, sorted by name.
pub fn benchmark_result(pod_name: &str, namespace: &str, duration_secs: u64, interval_secs: u64, total_samples: usize,
    samples: &Vec<(String, Vec<(u64, u64)>)>, res: &Vec<(String, CurrentResources)>) -> (r: BenchmarkResult)
    ensures
        r.pod_name@ == pod_name@,
        r.namespace@ == namespace@,
        r.duration_secs == duration_secs,
        r.interval_secs == interval_secs,
        r.total_samples == total_samples,
        exists|u: Seq<ContainerBenchmark>| #![trigger sort_ordered(u)] {
            let ne = nonempty_samples(samples@);
            &&& r.containers@ == sort_ordered(u)
            &&& u.len() == ne.len()
            &&& forall|k: int| 0 <= k < u.len() ==>
                benchmark_of(#[trigger] u[k], ne[k].0@, ne[k].1@, cur_for(res@, ne[k].0@))
        },
{
    BenchmarkResult {
        pod_name: string_of(pod_name),
        namespace: string_of(namespace),
        duration_secs,
        interval_secs,
        total_samples,
        containers: build_benchmarks(samples, res),
    }
}

} // verus!
