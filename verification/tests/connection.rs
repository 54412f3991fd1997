use r3x::context::{
    list_contexts, get_current_context, cache_reusable, exec_plugin_failed, token_source,
    aws_cluster_name, parse_aws_token, cli_token, gke_install_hint, eks_install_hint,
    aks_install_hint, format_connection_error, NamedContext, ContextRef, TokenSource, Platform,
    MAX_CLIENT_AGE_NANOS, DISCOVERY_MAX_AGE_NANOS,
};

fn s(x: &str) -> String {
    x.to_string()
}

#[test]
fn contexts_are_listed_in_order_with_the_current_one_marked() {
    let contexts = vec![
        NamedContext {
            name: s("dev"),
            context: Some(ContextRef { cluster: s("dev-cluster"), user: Some(s("alice")), namespace: Some(s("apps")) }),
        },
        NamedContext { name: s("prod"), context: Some(ContextRef { cluster: s("prod-cluster"), user: None, namespace: None }) },
        NamedContext { name: s("bare"), context: None },
    ];
    let listed = list_contexts(&contexts, &Some(s("prod")));
    assert_eq!(listed.len(), 3);
    assert_eq!(listed[0].name, "dev");
    assert_eq!(listed[0].cluster, "dev-cluster");
    assert_eq!(listed[0].user, "alice");
    assert_eq!(listed[0].namespace, Some(s("apps")));
    assert!(!listed[0].is_active);
    assert_eq!(listed[1].user, "");
    assert_eq!(listed[1].namespace, None);
    assert!(listed[1].is_active);
    assert_eq!(listed[2].cluster, "");
    assert!(!listed[2].is_active);
}

#[test]
fn current_context_is_reported_or_refused() {
    assert_eq!(get_current_context(Some(s("dev"))), Ok(s("dev")));
    assert_eq!(get_current_context(None), Err(s("No current context set")));
}

#[test]
fn cached_client_is_reused_only_for_the_same_context_while_young() {
    assert!(cache_reusable("dev", "dev", 0, MAX_CLIENT_AGE_NANOS));
    assert!(cache_reusable("dev", "dev", MAX_CLIENT_AGE_NANOS - 1, MAX_CLIENT_AGE_NANOS));
    assert!(!cache_reusable("dev", "dev", MAX_CLIENT_AGE_NANOS, MAX_CLIENT_AGE_NANOS));
    assert!(!cache_reusable("dev", "prod", 0, MAX_CLIENT_AGE_NANOS));
    assert_eq!(MAX_CLIENT_AGE_NANOS, 45 * 60 * 1_000_000_000);
    assert_eq!(DISCOVERY_MAX_AGE_NANOS, 5 * 60 * 1_000_000_000);
}

#[test]
fn exec_plugin_failures_are_recognised() {
    assert!(exec_plugin_failed("failed to run exec plugin"));
    assert!(exec_plugin_failed("No such file or directory (os error 2)"));
    assert!(!exec_plugin_failed("connection refused"));
}

#[test]
fn token_source_follows_context_and_user_names() {
    assert_eq!(token_source("gke_project_zone_cluster", "x"), TokenSource::Gcloud);
    assert_eq!(token_source("ctx", "gke_user"), TokenSource::Gcloud);
    assert_eq!(token_source("arn:aws:eks:us-east-1:1:cluster/c", "u"), TokenSource::Aws);
    assert_eq!(token_source("my-aks", "u"), TokenSource::Azure);
    assert_eq!(token_source("ctx", "clusterUser_azure"), TokenSource::Azure);
    assert_eq!(token_source("minikube", "minikube"), TokenSource::AnyCli);
}

#[test]
fn aws_cluster_name_is_the_part_after_the_last_slash() {
    assert_eq!(aws_cluster_name("arn:aws:eks:us-east-1:123:cluster/my-cluster"), "my-cluster");
    assert_eq!(aws_cluster_name("plain"), "plain");
    assert_eq!(aws_cluster_name("a/b/"), "");
}

#[test]
fn aws_token_is_read_from_the_json_output() {
    let out = "{\"kind\": \"ExecCredential\", \"status\": {\"expirationTimestamp\": \"2024\", \"token\": \"k8s-aws-v1.abc\"}}";
    assert_eq!(parse_aws_token(out), Some(s("k8s-aws-v1.abc")));
    assert_eq!(parse_aws_token("{\"status\": {}}"), None);
    assert_eq!(parse_aws_token("{\"token\": \"\"}"), None);
}

#[test]
fn cli_token_is_trimmed_or_refused_when_blank() {
    assert_eq!(cli_token("  ya29.token \n", "empty"), Ok(s("ya29.token")));
    assert_eq!(cli_token(" \n\t", "gcloud returned empty token"), Err(s("gcloud returned empty token")));
}

#[test]
fn install_hints_depend_on_the_platform() {
    assert_eq!(gke_install_hint(Platform::Windows), "gcloud components install gke-gcloud-auth-plugin");
    assert_eq!(eks_install_hint(Platform::Windows), "choco install aws-iam-authenticator  (or download from AWS docs)");
    assert_eq!(aks_install_hint(Platform::Other), "az aks install-cli  (or: sudo snap install kubelogin)");
    assert_eq!(aks_install_hint(Platform::MacOs), "brew install Azure/kubelogin/kubelogin  (or: az aks install-cli)");
}

#[test]
fn forbidden_errors_get_the_access_denied_advice() {
    let msg = format_connection_error("prod", "HTTP 403 Forbidden", Platform::Other);
    let expected = "Access denied to cluster 'prod'\n\nError: HTTP 403 Forbidden\n\nHow to fix:\n1. Your credentials are valid but you lack permissions on this cluster\n2. Ask your cluster admin to grant you the appropriate RBAC role\n3. Check your permissions: kubectl --context prod auth can-i --list";
    assert_eq!(msg, expected);
}

#[test]
fn unknown_errors_get_the_generic_advice() {
    let msg = format_connection_error("dev", "boom", Platform::Other);
    assert!(msg.starts_with("Failed to connect to cluster 'dev'\n\nError: boom\n\nHow to fix:\n1. Test with kubectl: kubectl --context dev get namespaces\n2. "));
    assert!(msg.ends_with("3. Re-authenticate if needed:\n  GKE: gcloud auth login\n  EKS: aws sso login\n  AKS: az login"));
}

#[test]
fn unreachable_servers_are_classified_case_insensitively() {
    let msg = format_connection_error("c", "Connection REFUSED", Platform::Windows);
    assert!(msg.starts_with("Connection failed to cluster 'c'"));
    assert!(msg.contains("\n2. Verify auth plugin is installed:\n  gcloud components install gke-gcloud-auth-plugin\n  choco install"));
    assert!(msg.contains("\n5. Test with kubectl: kubectl --context c get namespaces"));
    let tls = format_connection_error("c", "x509: certificate signed by unknown authority", Platform::Other);
    assert!(tls.starts_with("TLS/Certificate error for cluster 'c'"));
    let auth = format_connection_error("c", "Unauthorized", Platform::Other);
    assert!(auth.starts_with("Authentication failed for cluster 'c'"));
    assert!(auth.ends_with("4. Test with kubectl: kubectl --context c auth whoami"));
}

#[test]
fn cli_token_trims_unicode_white_space() {
    assert_eq!(cli_token("\u{a0}\u{3000}\ttok en\u{2028}\r\n", "empty"), Ok(s("tok en")));
    assert_eq!(cli_token("\u{85}\u{200a}", "empty"), Err(s("empty")));
}
