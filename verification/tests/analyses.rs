use r3x::diff::{compute_diff, diff_yaml, diff_named};
use r3x::benchmark::{percentile, series_stats, total_samples, bench_id, record_sample, format_cpu, format_memory};
use r3x::rbac_audit::{format_subject, has_wildcard};
use r3x::netpol::{labels_to_selector, labels_match};
use r3x::images::{parse_image, analyze_image};
use r3x::json::Json;

fn obj(pairs: Vec<(&str, Json)>) -> Json {
    Json::Object(pairs.into_iter().map(|(k, v)| (k.to_string(), v)).collect())
}

fn s(x: &str) -> Json {
    Json::Str(x.to_string())
}

#[test]
fn diff_keeps_common_lines_as_context() {
    let d = compute_diff("a\nb\nc", "a\nx\nc");
    let kinds: Vec<&str> = d.iter().map(|l| l.line_type.as_str()).collect();
    assert_eq!(kinds, vec!["context", "remove", "add", "context"]);
    assert_eq!((d[1].old_line, d[1].new_line), (Some(2), None));
    assert_eq!((d[2].old_line, d[2].new_line), (None, Some(2)));
    assert_eq!(d[3].content, "c");
    assert_eq!((d[3].old_line, d[3].new_line), (Some(3), Some(3)));
}

#[test]
fn identical_texts_have_no_changes() {
    let r = diff_yaml("a: 1\nb: 2\n".to_string(), "a: 1\nb: 2\n".to_string(), "x".to_string(), "ConfigMap".to_string(), "ns".to_string()).unwrap();
    assert!(!r.has_changes);
    assert_eq!((r.additions, r.deletions), (0, 0));
    assert_eq!(r.lines.len(), 2);
}

#[test]
fn diff_counts_and_label() {
    let r = diff_named("a\nb".to_string(), "a\nc\nd".to_string(), "Pod".to_string(), "ns".to_string(), "p1", "p2").unwrap();
    assert_eq!(r.resource_name, "p1 \u{2194} p2");
    assert_eq!((r.additions, r.deletions), (2, 1));
    assert!(r.has_changes);
}

#[test]
fn diff_replays_both_texts() {
    let old = "one\ntwo\nthree\nfour";
    let new = "zero\none\nthree\nfive";
    let d = compute_diff(old, new);
    let old_side: Vec<&str> = d.iter().filter(|l| l.line_type != "add").map(|l| l.content.as_str()).collect();
    let new_side: Vec<&str> = d.iter().filter(|l| l.line_type != "remove").map(|l| l.content.as_str()).collect();
    assert_eq!(old_side, vec!["one", "two", "three", "four"]);
    assert_eq!(new_side, vec!["zero", "one", "three", "five"]);
}

#[test]
fn percentiles_round_half_up() {
    let v: Vec<u64> = (1..=10).collect();
    assert_eq!(percentile(&v, 50), 6);
    assert_eq!(percentile(&v, 95), 10);
    assert_eq!(percentile(&v, 0), 1);
    assert_eq!(percentile(&Vec::new(), 50), 0);
}

#[test]
fn series_statistics() {
    let st = series_stats(vec![100, 200, 300, 400]);
    assert_eq!(st.avg, 250);
    assert_eq!(st.min, 100);
    assert_eq!(st.max, 400);
    assert_eq!(st.p50, 300);
}

#[test]
fn sample_counts_and_ids() {
    assert_eq!(total_samples(60, 5), 12);
    assert_eq!(total_samples(3, 5), 1);
    assert_eq!(bench_id("ns", "pod", 1700000000), "bench-ns-pod-1700000000");
    assert_eq!(format_cpu(1500), "1.5");
    assert_eq!(format_memory(134217728), "128Mi");
}

#[test]
fn samples_accumulate_per_container() {
    let raw = obj(vec![("containers", Json::Array(vec![
        obj(vec![("name", s("app")), ("usage", obj(vec![("cpu", s("250m")), ("memory", s("64Mi"))]))]),
        obj(vec![("name", s("side")), ("usage", obj(vec![("cpu", s("1000000n")), ("memory", s("1Ki"))]))]),
    ]))]);
    let mut samples: Vec<(String, Vec<(u64, u64)>)> = Vec::new();
    record_sample(&mut samples, &raw);
    record_sample(&mut samples, &raw);
    assert_eq!(samples.len(), 2);
    assert_eq!(samples[0].0, "app");
    assert_eq!(samples[0].1, vec![(250, 67108864), (250, 67108864)]);
    assert_eq!(samples[1].1, vec![(1, 1024), (1, 1024)]);
}

#[test]
fn subjects_and_wildcards() {
    assert_eq!(format_subject("ServiceAccount", "builder", &Some("ci".to_string())), "ServiceAccount:ci/builder");
    assert_eq!(format_subject("User", "alice", &None), "User:alice");
    assert!(has_wildcard(&vec!["get".to_string(), "*".to_string()]));
    assert!(!has_wildcard(&vec!["get".to_string()]));
}

#[test]
fn selectors_and_matching() {
    let sel = vec![("app".to_string(), "web".to_string()), ("tier".to_string(), "front".to_string())];
    assert_eq!(labels_to_selector(&sel), "app=web, tier=front");
    let pod = vec![("tier".to_string(), "front".to_string()), ("app".to_string(), "web".to_string()), ("x".to_string(), "y".to_string())];
    assert!(labels_match(&pod, &sel));
    let other = vec![("app".to_string(), "web".to_string())];
    assert!(!labels_match(&other, &sel));
    assert!(labels_match(&other, &Vec::new()));
}

#[test]
fn image_references_split() {
    assert_eq!(parse_image("nginx"), ("docker.io".to_string(), "library/nginx".to_string(), "latest".to_string()));
    assert_eq!(parse_image("gcr.io/proj/app:v1"), ("gcr.io".to_string(), "proj/app".to_string(), "v1".to_string()));
    assert_eq!(parse_image("myorg/app:2.0"), ("docker.io".to_string(), "myorg/app".to_string(), "2.0".to_string()));
    assert_eq!(parse_image("localhost:5000/app"), ("localhost:5000".to_string(), "app".to_string(), "latest".to_string()));
    assert_eq!(parse_image("repo@sha256:abc"), ("docker.io".to_string(), "library/repo".to_string(), "sha256:abc".to_string()));
}

#[test]
fn image_findings() {
    let f = analyze_image("nginx:latest", "latest", "Always", "docker.io");
    let titles: Vec<&str> = f.iter().map(|x| x.title.as_str()).collect();
    assert_eq!(titles, vec!["Using :latest tag", "Docker Hub registry"]);
    assert_eq!(f[0].description, "Mutable tag \u{2014} deployments are non-reproducible. Pin to a specific version or digest.");
    let g = analyze_image("Python:2.7", "2.7", "Never", "quay.io");
    let titles: Vec<&str> = g.iter().map(|x| x.title.as_str()).collect();
    assert_eq!(titles, vec!["Pull policy: Never", "End-of-life base image"]);
    assert_eq!(g[1].description, "Python 2 is end-of-life. Upgrade to a supported version.");
    assert_eq!(g[1].severity, "critical");
}

#[test]
fn label_matching_is_reflexive_and_keeps_matches_on_smaller_selectors() {
    let m = |ps: &[(&str, &str)]| -> Vec<(String, String)> { ps.iter().map(|(a, b)| (a.to_string(), b.to_string())).collect() };
    let pod = m(&[("app", "web"), ("tier", "fe")]);
    assert!(labels_match(&pod, &pod));
    assert!(labels_match(&pod, &m(&[("tier", "fe")])));
    assert!(labels_match(&pod, &Vec::new()));
    assert!(!labels_match(&pod, &m(&[("app", "db")])));
    assert!(!labels_match(&m(&[("app", "web")]), &m(&[("env", "prod")])));
}

#[test]
fn whole_binary_units_read_back() {
    for k in [1u64, 5, 512, 1023] {
        let ki = format_memory(k * 1024);
        assert_eq!(ki, format!("{}Ki", k));
        assert_eq!(r3x::quantity::parse_memory(&ki), k * 1024);
        let mi = format_memory(k * 1048576);
        assert_eq!(mi, format!("{}Mi", k));
        assert_eq!(r3x::quantity::parse_memory(&mi), k * 1048576);
    }
}

#[test]
fn registry_path_tag_images_split_into_their_parts() {
    assert_eq!(parse_image("registry.example.com/team/svc/api:1.2.3"), ("registry.example.com".to_string(), "team/svc/api".to_string(), "1.2.3".to_string()));
    assert_eq!(parse_image("ghcr.io/app:v2"), ("ghcr.io".to_string(), "app".to_string(), "v2".to_string()));
}
