//! Horizontal and vertical pod autoscalers, read from their API objects.
use vstd::prelude::*;
use crate::age::{age_text, format_age};
use crate::clock::{rfc3339_seconds, parse_rfc3339};
use crate::json::{Json, at, array_of, str_of, i64_of, str_or, deref_opt, get, as_array, as_str, as_i64, str_or_default, opt_string};
use crate::text::{int_repr, string_of, str_eq, append_i64};

verus! {

#[derive(Debug)]
pub struct HpaMetricStatus {
    pub metric_name: String,
    pub metric_type: String,
    pub current_value: String,
    pub target_value: String,
    pub current_average: Option<String>,
}

#[derive(Debug)]
pub struct HpaCondition {
    pub condition_type: String,
    pub status: String,
    pub reason: String,
    pub message: String,
    pub last_transition: String,
}

#[derive(Debug)]
pub struct HpaInfo {
    pub name: String,
    pub namespace: String,
    pub target_kind: String,
    pub target_name: String,
    pub min_replicas: i32,
    pub max_replicas: i32,
    pub current_replicas: i32,
    pub desired_replicas: i32,
    pub metrics: Vec<HpaMetricStatus>,
    pub conditions: Vec<HpaCondition>,
    pub last_scale_time: Option<String>,
    pub age: String,
}

#[derive(Debug)]
pub struct VpaRecommendation {
    pub container_name: String,
    pub lower_cpu: String,
    pub lower_memory: String,
    pub target_cpu: String,
    pub target_memory: String,
    pub upper_cpu: String,
    pub upper_memory: String,
}

#[derive(Debug)]
pub struct VpaInfo {
    pub name: String,
    pub namespace: String,
    pub target_kind: String,
    pub target_name: String,
    pub update_mode: String,
    pub recommendations: Vec<VpaRecommendation>,
    pub age: String,
}

#[derive(Debug)]
pub struct AutoscalerInfo {
    pub hpas: Vec<HpaInfo>,
    pub vpas: Vec<VpaInfo>,
}

pub open spec fn at2(j: Json, a: Seq<char>, b: Seq<char>) -> Option<Json> {
    at(at(Some(j), a), b)
}

pub open spec fn at3(j: Json, a: Seq<char>, b: Seq<char>, c: Seq<char>) -> Option<Json> {
    at(at(at(Some(j), a), b), c)
}

pub fn get2<'a>(j: &'a Json, a: &str, b: &str) -> (r: Option<&'a Json>)
    ensures
        deref_opt(r) == at2(*j, a@, b@),
{
    get(get(Some(j), a), b)
}

pub fn get3<'a>(j: &'a Json, a: &str, b: &str, c: &str) -> (r: Option<&'a Json>)
    ensures
        deref_opt(r) == at3(*j, a@, b@, c@),
{
    get(get(get(Some(j), a), b), c)
}

/// The age of an object whose metadata is in `item`, at `now`: `?` when
/// it has no creation time that parses (or, beyond any date, when the
/// difference leaves the `i64` range).
pub open spec fn item_age(item: Json, now: i64) -> Seq<char> {
    match str_of(at2(item, "metadata"@, "creationTimestamp"@)) {
        Some(s) => match rfc3339_seconds(s) {
            Some(ts) => if i64::MIN <= now - ts <= i64::MAX { age_text(now - ts) } else { "?"@ },
            None => "?"@,
        },
        None => "?"@,
    }
}

fn age_of(item: &Json, now: i64) -> (r: String)
    ensures
        r@ == item_age(*item, now),
{
    match as_str(get2(item, "metadata", "creationTimestamp")) {
        Some(s) => match parse_rfc3339(s.as_str()) {
            Some(ts) => {
                if (now as i128) - (ts as i128) < i64::MIN as i128 || (now as i128) - (ts as i128) > i64::MAX as i128 {
                    string_of("?")
                } else {
                    format_age(now - ts)
                }
            },
            None => string_of("?"),
        },
        None => string_of("?"),
    }
}

// ---- HPA ----

pub struct MetricView {
    pub metric_name: Seq<char>,
    pub metric_type: Seq<char>,
    pub current_value: Seq<char>,
    pub target_value: Seq<char>,
    pub current_average: Option<Seq<char>>,
}

impl View for HpaMetricStatus {
    type V = MetricView;

    open spec fn view(&self) -> MetricView {
        MetricView {
            metric_name: self.metric_name@,
            metric_type: self.metric_type@,
            current_value: self.current_value@,
            target_value: self.target_value@,
            current_average: match self.current_average { Some(s) => Some(s@), None => None },
        }
    }
}

pub struct CondView {
    pub condition_type: Seq<char>,
    pub status: Seq<char>,
    pub reason: Seq<char>,
    pub message: Seq<char>,
    pub last_transition: Seq<char>,
}

impl View for HpaCondition {
    type V = CondView;

    open spec fn view(&self) -> CondView {
        CondView {
            condition_type: self.condition_type@,
            status: self.status@,
            reason: self.reason@,
            message: self.message@,
            last_transition: self.last_transition@,
        }
    }
}

pub open spec fn mviews(v: Seq<HpaMetricStatus>) -> Seq<MetricView> {
    v.map_values(|m: HpaMetricStatus| m@)
}

pub open spec fn condviews(v: Seq<HpaCondition>) -> Seq<CondView> {
    v.map_values(|c: HpaCondition| c@)
}

pub open spec fn opt_array(j: Option<Json>) -> Seq<Json> {
    match array_of(j) {
        Some(a) => a,
        None => Seq::empty(),
    }
}

/// The target of the first resource metric of the spec named `name` that
/// has one: a utilization as `N%`, else an average value; `-` without.
pub open spec fn spec_target(ms: Seq<Json>, name: Seq<char>) -> Seq<char>
    decreases ms.len(),
{
    if ms.len() == 0 {
        "-"@
    } else {
        let m = ms[0];
        if str_of(at(Some(m), "type"@)) == Some("Resource"@) && str_of(at2(m, "resource"@, "name"@)) == Some(name) {
            match i64_of(at3(m, "resource"@, "target"@, "averageUtilization"@)) {
                Some(u) => int_repr(u as int) + "%"@,
                None => match str_of(at3(m, "resource"@, "target"@, "averageValue"@)) {
                    Some(v) => v,
                    None => spec_target(ms.drop_first(), name),
                },
            }
        } else {
            spec_target(ms.drop_first(), name)
        }
    }
}

/// A current metric of an HPA, with its target from `item`'s spec.
pub open spec fn metric_view(item: Json, m: Json) -> MetricView {
    let t = str_or(at(Some(m), "type"@), Seq::empty());
    if t == "Resource"@ {
        let rname = str_or(at2(m, "resource"@, "name"@), Seq::empty());
        MetricView {
            metric_name: rname,
            metric_type: t,
            current_value: match i64_of(at3(m, "resource"@, "current"@, "averageUtilization"@)) {
                Some(u) => int_repr(u as int) + "%"@,
                None => str_or(at3(m, "resource"@, "current"@, "averageValue"@), "-"@),
            },
            target_value: spec_target(opt_array(at2(item, "spec"@, "metrics"@)), rname),
            current_average: str_of(at3(m, "resource"@, "current"@, "averageValue"@)),
        }
    } else if t == "Pods"@ {
        MetricView {
            metric_name: str_or(at3(m, "pods"@, "metric"@, "name"@), Seq::empty()),
            metric_type: t,
            current_value: str_or(at3(m, "pods"@, "current"@, "averageValue"@), "-"@),
            target_value: "-"@,
            current_average: None,
        }
    } else {
        MetricView { metric_name: "unknown"@, metric_type: t, current_value: "-"@, target_value: "-"@, current_average: None }
    }
}

pub open spec fn cond_view(c: Json) -> CondView {
    CondView {
        condition_type: str_or(at(Some(c), "type"@), Seq::empty()),
        status: str_or(at(Some(c), "status"@), Seq::empty()),
        reason: str_or(at(Some(c), "reason"@), Seq::empty()),
        message: str_or(at(Some(c), "message"@), Seq::empty()),
        last_transition: str_or(at(Some(c), "lastTransitionTime"@), Seq::empty()),
    }
}

pub open spec fn int_or(j: Option<Json>, d: i64) -> i32 {
    (match i64_of(j) { Some(v) => v, None => d }) as i32
}

pub open spec fn metrics_of(item: Json, ms: Seq<Json>) -> Seq<MetricView>
    decreases ms.len(),
{
    if ms.len() == 0 { Seq::empty() } else { metrics_of(item, ms.drop_last()).push(metric_view(item, ms.last())) }
}

pub open spec fn conds_of(cs: Seq<Json>) -> Seq<CondView>
    decreases cs.len(),
{
    if cs.len() == 0 { Seq::empty() } else { conds_of(cs.drop_last()).push(cond_view(cs.last())) }
}

/// `hpa` is the HPA that `item` describes, aged at `now`.
pub open spec fn hpa_of(hpa: HpaInfo, item: Json, now: i64) -> bool {
    &&& hpa.name@ == str_or(at2(item, "metadata"@, "name"@), Seq::empty())
    &&& hpa.namespace@ == str_or(at2(item, "metadata"@, "namespace"@), Seq::empty())
    &&& hpa.target_kind@ == str_or(at3(item, "spec"@, "scaleTargetRef"@, "kind"@), Seq::empty())
    &&& hpa.target_name@ == str_or(at3(item, "spec"@, "scaleTargetRef"@, "name"@), Seq::empty())
    &&& hpa.min_replicas == int_or(at2(item, "spec"@, "minReplicas"@), 1)
    &&& hpa.max_replicas == int_or(at2(item, "spec"@, "maxReplicas"@), 1)
    &&& hpa.current_replicas == int_or(at2(item, "status"@, "currentReplicas"@), 0)
    &&& hpa.desired_replicas == int_or(at2(item, "status"@, "desiredReplicas"@), 0)
    &&& mviews(hpa.metrics@) == metrics_of(item, opt_array(at2(item, "status"@, "currentMetrics"@)))
    &&& condviews(hpa.conditions@) == conds_of(opt_array(at2(item, "status"@, "conditions"@)))
    &&& (match hpa.last_scale_time { Some(s) => Some(s@), None => None }) == str_of(at2(item, "status"@, "lastScaleTime"@))
    &&& hpa.age@ == item_age(item, now)
}

/// The string member `key` of `j`, or `d`.
fn field_or(j: &Json, key: &str, d: &str) -> (r: String)
    ensures
        r@ == str_or(at(Some(*j), key@), d@),
{
    let v = get(Some(j), key);
    assert(deref_opt(v) == at(Some(*j), key@));
    str_or_default(v, d)
}

fn int_field(j: Option<&Json>, d: i64) -> (r: i32)
    ensures
        r == int_or(deref_opt(j), d),
{
    let v = match as_i64(j) {
        Some(v) => v,
        None => d,
    };
    v as i32
}

fn find_spec_metric_target(item: &Json, name: &str) -> (r: String)
    ensures
        r@ == spec_target(opt_array(at2(*item, "spec"@, "metrics"@)), name@),
{
    let ms = as_array(get2(item, "spec", "metrics"));
    match ms {
        Some(ms) => {
            let mut i: usize = 0;
            assert(ms@.subrange(0, ms@.len() as int) =~= ms@);
            while i < ms.len()
                invariant
                    i <= ms@.len(),
                    ms@ == opt_array(at2(*item, "spec"@, "metrics"@)),
                    spec_target(ms@, name@) == spec_target(ms@.subrange(i as int, ms@.len() as int), name@),
                decreases ms@.len() - i,
            {
                let ghost rest = ms@.subrange(i as int, ms@.len() as int);
                assert(rest.drop_first() =~= ms@.subrange(i + 1, ms@.len() as int));
                let m = &ms[i];
                assert(rest[0] == *m);
                let is_resource = match as_str(get(Some(m), "type")) {
                    Some(t) => str_eq(t.as_str(), "Resource"),
                    None => false,
                };
                let same_name = match as_str(get2(m, "resource", "name")) {
                    Some(n) => str_eq(n.as_str(), name),
                    None => false,
                };
                if is_resource && same_name {
                    match as_i64(get3(m, "resource", "target", "averageUtilization")) {
                        Some(u) => {
                            let mut s = String::new();
                            append_i64(&mut s, u);
                            s.append("%");
                            return s;
                        },
                        None => {},
                    }
                    match as_str(get3(m, "resource", "target", "averageValue")) {
                        Some(v) => {
                            return string_of(v.as_str());
                        },
                        None => {},
                    }
                }
                i = i + 1;
            }
            string_of("-")
        },
        None => string_of("-"),
    }
}

fn metric_of(item: &Json, m: &Json) -> (r: HpaMetricStatus)
    ensures
        r@ == metric_view(*item, *m),
{
    let t = str_or_default(get(Some(m), "type"), "");
    proof {
        reveal_strlit("");
        assert(""@ =~= Seq::<char>::empty());
    }
    if str_eq(t.as_str(), "Resource") {
        let rname = str_or_default(get2(m, "resource", "name"), "");
        let current = match as_i64(get3(m, "resource", "current", "averageUtilization")) {
            Some(u) => {
                let mut s = String::new();
                append_i64(&mut s, u);
                s.append("%");
                s
            },
            None => str_or_default(get3(m, "resource", "current", "averageValue"), "-"),
        };
        let target = find_spec_metric_target(item, rname.as_str());
        let avg = opt_string(get3(m, "resource", "current", "averageValue"));
        HpaMetricStatus { metric_name: rname, metric_type: t, current_value: current, target_value: target, current_average: avg }
    } else if str_eq(t.as_str(), "Pods") {
        HpaMetricStatus {
            metric_name: str_or_default(get3(m, "pods", "metric", "name"), ""),
            metric_type: t,
            current_value: str_or_default(get3(m, "pods", "current", "averageValue"), "-"),
            target_value: string_of("-"),
            current_average: None,
        }
    } else {
        HpaMetricStatus {
            metric_name: string_of("unknown"),
            metric_type: t,
            current_value: string_of("-"),
            target_value: string_of("-"),
            current_average: None,
        }
    }
}

fn cond_of(c: &Json) -> (r: HpaCondition)
    ensures
        r@ == cond_view(*c),
{
    let condition_type = field_or(c, "type", "");
    let status = field_or(c, "status", "");
    let reason = field_or(c, "reason", "");
    let message = field_or(c, "message", "");
    let last_transition = field_or(c, "lastTransitionTime", "");
    proof {
        reveal_strlit("");
        assert(""@ =~= Seq::<char>::empty());
    }
    HpaCondition { condition_type, status, reason, message, last_transition }
}

/// The HPA that `item` describes, aged at `now`.
pub fn hpa_info(item: &Json, now: i64) -> (r: HpaInfo)
    ensures
        hpa_of(r, *item, now),
{
    proof {
        reveal_strlit("");
        assert(""@ =~= Seq::<char>::empty());
    }
    let mut metrics: Vec<HpaMetricStatus> = Vec::new();
    let ms = as_array(get2(item, "status", "currentMetrics"));
    match ms {
        Some(ms) => {
            let mut i: usize = 0;
            while i < ms.len()
                invariant
                    i <= ms@.len(),
                    mviews(metrics@) == metrics_of(*item, ms@.subrange(0, i as int)),
                decreases ms@.len() - i,
            {
                let ghost before = mviews(metrics@);
                let mv = metric_of(item, &ms[i]);
                metrics.push(mv);
                assert(mviews(metrics@) =~= before.push(metric_view(*item, ms@[i as int])));
                assert(ms@.subrange(0, i + 1).drop_last() =~= ms@.subrange(0, i as int));
                i = i + 1;
            }
            assert(ms@.subrange(0, ms@.len() as int) =~= ms@);
        },
        None => {
            assert(mviews(metrics@) =~= Seq::<MetricView>::empty());
            assert(opt_array(at2(*item, "status"@, "currentMetrics"@)) =~= Seq::<Json>::empty());
        },
    }
    let mut conditions: Vec<HpaCondition> = Vec::new();
    let cs = as_array(get2(item, "status", "conditions"));
    match cs {
        Some(cs) => {
            let mut i: usize = 0;
            while i < cs.len()
                invariant
                    i <= cs@.len(),
                    condviews(conditions@) == conds_of(cs@.subrange(0, i as int)),
                decreases cs@.len() - i,
            {
                let ghost before = condviews(conditions@);
                let cv = cond_of(&cs[i]);
                conditions.push(cv);
                assert(condviews(conditions@) =~= before.push(cond_view(cs@[i as int])));
                assert(cs@.subrange(0, i + 1).drop_last() =~= cs@.subrange(0, i as int));
                i = i + 1;
            }
            assert(cs@.subrange(0, cs@.len() as int) =~= cs@);
        },
        None => {
            assert(condviews(conditions@) =~= Seq::<CondView>::empty());
            assert(opt_array(at2(*item, "status"@, "conditions"@)) =~= Seq::<Json>::empty());
        },
    }
    let name = str_or_default(get2(item, "metadata", "name"), "");
    let namespace = str_or_default(get2(item, "metadata", "namespace"), "");
    let target_kind = str_or_default(get3(item, "spec", "scaleTargetRef", "kind"), "");
    let target_name = str_or_default(get3(item, "spec", "scaleTargetRef", "name"), "");
    let min_replicas = int_field(get2(item, "spec", "minReplicas"), 1);
    let max_replicas = int_field(get2(item, "spec", "maxReplicas"), 1);
    let current_replicas = int_field(get2(item, "status", "currentReplicas"), 0);
    let desired_replicas = int_field(get2(item, "status", "desiredReplicas"), 0);
    let last_scale_time = opt_string(get2(item, "status", "lastScaleTime"));
    let age = age_of(item, now);
    proof {
        reveal_strlit("");
        assert(""@ =~= Seq::<char>::empty());
    }
    HpaInfo {
        name, namespace, target_kind, target_name, min_replicas, max_replicas, current_replicas, desired_replicas,
        metrics, conditions, last_scale_time, age,
    }
}

// ---- VPA ----

pub struct VpaRecView {
    pub container_name: Seq<char>,
    pub lower_cpu: Seq<char>,
    pub lower_memory: Seq<char>,
    pub target_cpu: Seq<char>,
    pub target_memory: Seq<char>,
    pub upper_cpu: Seq<char>,
    pub upper_memory: Seq<char>,
}

impl View for VpaRecommendation {
    type V = VpaRecView;

    open spec fn view(&self) -> VpaRecView {
        VpaRecView {
            container_name: self.container_name@,
            lower_cpu: self.lower_cpu@,
            lower_memory: self.lower_memory@,
            target_cpu: self.target_cpu@,
            target_memory: self.target_memory@,
            upper_cpu: self.upper_cpu@,
            upper_memory: self.upper_memory@,
        }
    }
}

pub open spec fn vrviews(v: Seq<VpaRecommendation>) -> Seq<VpaRecView> {
    v.map_values(|r: VpaRecommendation| r@)
}

pub open spec fn vpa_rec_view(r: Json) -> VpaRecView {
    VpaRecView {
        container_name: str_or(at(Some(r), "containerName"@), Seq::empty()),
        lower_cpu: str_or(at2(r, "lowerBound"@, "cpu"@), "-"@),
        lower_memory: str_or(at2(r, "lowerBound"@, "memory"@), "-"@),
        target_cpu: str_or(at2(r, "target"@, "cpu"@), "-"@),
        target_memory: str_or(at2(r, "target"@, "memory"@), "-"@),
        upper_cpu: str_or(at2(r, "upperBound"@, "cpu"@), "-"@),
        upper_memory: str_or(at2(r, "upperBound"@, "memory"@), "-"@),
    }
}

pub open spec fn vrecs_of(rs: Seq<Json>) -> Seq<VpaRecView>
    decreases rs.len(),
{
    if rs.len() == 0 { Seq::empty() } else { vrecs_of(rs.drop_last()).push(vpa_rec_view(rs.last())) }
}

/// `vpa` is the VPA that `item` describes, aged at `now`.
pub open spec fn vpa_of(vpa: VpaInfo, item: Json, now: i64) -> bool {
    &&& vpa.name@ == str_or(at2(item, "metadata"@, "name"@), Seq::empty())
    &&& vpa.namespace@ == str_or(at2(item, "metadata"@, "namespace"@), Seq::empty())
    &&& vpa.target_kind@ == str_or(at3(item, "spec"@, "targetRef"@, "kind"@), Seq::empty())
    &&& vpa.target_name@ == str_or(at3(item, "spec"@, "targetRef"@, "name"@), Seq::empty())
    &&& vpa.update_mode@ == str_or(at3(item, "spec"@, "updatePolicy"@, "updateMode"@), "Auto"@)
    &&& vrviews(vpa.recommendations@) == vrecs_of(opt_array(at3(item, "status"@, "recommendation"@, "containerRecommendations"@)))
    &&& vpa.age@ == item_age(item, now)
}

fn vpa_rec(r: &Json) -> (out: VpaRecommendation)
    ensures
        out@ == vpa_rec_view(*r),
{
    proof {
        reveal_strlit("");
        assert(""@ =~= Seq::<char>::empty());
    }
    VpaRecommendation {
        container_name: str_or_default(get(Some(r), "containerName"), ""),
        lower_cpu: str_or_default(get2(r, "lowerBound", "cpu"), "-"),
        lower_memory: str_or_default(get2(r, "lowerBound", "memory"), "-"),
        target_cpu: str_or_default(get2(r, "target", "cpu"), "-"),
        target_memory: str_or_default(get2(r, "target", "memory"), "-"),
        upper_cpu: str_or_default(get2(r, "upperBound", "cpu"), "-"),
        upper_memory: str_or_default(get2(r, "upperBound", "memory"), "-"),
    }
}

/// The VPA that `item` describes, aged at `now`.
pub fn vpa_info(item: &Json, now: i64) -> (r: VpaInfo)
    ensures
        vpa_of(r, *item, now),
{
    proof {
        reveal_strlit("");
        assert(""@ =~= Seq::<char>::empty());
    }
    let mut recs: Vec<VpaRecommendation> = Vec::new();
    match as_array(get3(item, "status", "recommendation", "containerRecommendations")) {
        Some(rs) => {
            let mut i: usize = 0;
            while i < rs.len()
                invariant
                    i <= rs@.len(),
                    vrviews(recs@) == vrecs_of(rs@.subrange(0, i as int)),
                decreases rs@.len() - i,
            {
                let ghost before = vrviews(recs@);
                let rv = vpa_rec(&rs[i]);
                recs.push(rv);
                assert(vrviews(recs@) =~= before.push(vpa_rec_view(rs@[i as int])));
                assert(rs@.subrange(0, i + 1).drop_last() =~= rs@.subrange(0, i as int));
                i = i + 1;
            }
            assert(rs@.subrange(0, rs@.len() as int) =~= rs@);
        },
        None => {
            assert(vrviews(recs@) =~= Seq::<VpaRecView>::empty());
            assert(opt_array(at3(*item, "status"@, "recommendation"@, "containerRecommendations"@)) =~= Seq::<Json>::empty());
        },
    }
    let name = str_or_default(get2(item, "metadata", "name"), "");
    let namespace = str_or_default(get2(item, "metadata", "namespace"), "");
    let target_kind = str_or_default(get3(item, "spec", "targetRef", "kind"), "");
    let target_name = str_or_default(get3(item, "spec", "targetRef", "name"), "");
    let update_mode = str_or_default(get3(item, "spec", "updatePolicy", "updateMode"), "Auto");
    let age = age_of(item, now);
    proof {
        reveal_strlit("");
        assert(""@ =~= Seq::<char>::empty());
    }
    VpaInfo { name, namespace, target_kind, target_name, update_mode, recommendations: recs, age }
}

/// The items of a listing that was read, none when it was not.
pub open spec fn listing_items(raw: Option<Json>) -> Seq<Json> {
    match raw {
        Some(r) => opt_array(at(Some(r), "items"@)),
        None => Seq::empty(),
    }
}

/// `r` holds the autoscalers of the listings, aged at `now`.
pub open spec fn autoscalers_of(r: AutoscalerInfo, hpa_list: Option<Json>, vpa_list: Option<Json>, now: i64) -> bool {
    &&& r.hpas@.len() == listing_items(hpa_list).len()
    &&& (forall|i: int| 0 <= i < r.hpas@.len() ==> hpa_of(#[trigger] r.hpas@[i], listing_items(hpa_list)[i], now))
    &&& r.vpas@.len() == listing_items(vpa_list).len()
    &&& (forall|i: int| 0 <= i < r.vpas@.len() ==> vpa_of(#[trigger] r.vpas@[i], listing_items(vpa_list)[i], now))
}

/// The autoscalers of the HPA and VPA listings (each absent when its
/// request failed), aged at `now`.
pub fn autoscalers_at(hpa_list: &Option<Json>, vpa_list: &Option<Json>, now: i64) -> (r: AutoscalerInfo)
    ensures
        autoscalers_of(r, *hpa_list, *vpa_list, now),
{
    let mut hpas: Vec<HpaInfo> = Vec::new();
    let hitems = match hpa_list { Some(r) => as_array(get(Some(r), "items")), None => None };
    match hitems {
        Some(items) => {
            let mut i: usize = 0;
            while i < items.len()
                invariant
                    i <= items@.len(),
                    items@ == listing_items(*hpa_list),
                    hpas@.len() == i,
                    forall|k: int| 0 <= k < i ==> hpa_of(#[trigger] hpas@[k], items@[k], now),
                decreases items@.len() - i,
            {
                hpas.push(hpa_info(&items[i], now));
                i = i + 1;
            }
        },
        None => {},
    }
    let mut vpas: Vec<VpaInfo> = Vec::new();
    let vitems = match vpa_list { Some(r) => as_array(get(Some(r), "items")), None => None };
    match vitems {
        Some(items) => {
            let mut i: usize = 0;
            while i < items.len()
                invariant
                    i <= items@.len(),
                    items@ == listing_items(*vpa_list),
                    vpas@.len() == i,
                    forall|k: int| 0 <= k < i ==> vpa_of(#[trigger] vpas@[k], items@[k], now),
                decreases items@.len() - i,
            {
                vpas.push(vpa_info(&items[i], now));
                i = i + 1;
            }
        },
        None => {},
    }
    AutoscalerInfo { hpas, vpas }
}

/// The autoscalers of the HPA and VPA listings, aged now.
pub fn get_autoscalers(hpa_list: &Option<Json>, vpa_list: &Option<Json>) -> (r: AutoscalerInfo)
    ensures
        exists|now: i64| #[trigger] autoscalers_of(r, *hpa_list, *vpa_list, now),
{
    let now = crate::clock::now_seconds();
    autoscalers_at(hpa_list, vpa_list, now)
}

} // verus!
