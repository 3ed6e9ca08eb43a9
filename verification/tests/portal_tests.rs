use agent_box_common::named_map::NamedMap;
use agent_box_common::portal::{
    default_allowed_mime, default_socket_path, extract_podman_container_id_from_cgroup,
    socket_path_for_uid, ExecResult, GhExecPolicyMode, MethodPolicy, PolicyDecision, PortalConfig,
    PortalResponse, RequestMethod, ResponseResult,
};

#[test]
fn parse_libpod_scope_id() {
    let c = "0::/user.slice/user-1000.slice/user@1000.service/user.slice/libpod-1234abcd5678.scope";
    assert_eq!(extract_podman_container_id_from_cgroup(c), Some("1234abcd5678".to_string()));
}

#[test]
fn parse_libpod_path_id() {
    let c = "0::/machine.slice/libpod/abcdef1234567890";
    assert_eq!(extract_podman_container_id_from_cgroup(c), Some("abcdef1234567890".to_string()));
}

#[test]
fn parse_no_container_id_returns_none() {
    let c = "0::/user.slice/user-1000.slice/session-1.scope";
    assert_eq!(extract_podman_container_id_from_cgroup(c), None);
}

#[test]
fn default_portal_config_is_sane() {
    let cfg = PortalConfig::default();
    assert!(cfg.enabled);
    assert!(!cfg.global);
    assert!(cfg.socket_path.contains("agent-portal/portal.sock"));
    assert_eq!(cfg.limits.max_inflight, 32);
    assert_eq!(cfg.limits.prompt_queue, 64);
    assert_eq!(cfg.limits.rate_per_minute, 60);
    assert_eq!(cfg.limits.rate_burst, 10);
    assert_eq!(cfg.timeouts.request_ms, 0);
    assert_eq!(cfg.timeouts.prompt_ms, 0);
    assert!(cfg.clipboard.allowed_mime.contains(&"image/png".to_string()));
    assert_eq!(cfg.policy.defaults.gh_exec, GhExecPolicyMode::AskForWrites);
}

#[test]
fn policy_for_container_uses_override_when_present() {
    let mut cfg = PortalConfig::default();
    cfg.policy.defaults.clipboard_read_image = PolicyDecision::Ask;
    cfg.policy.defaults.gh_exec = GhExecPolicyMode::AskForWrites;
    cfg.policy.containers.insert(
        "abc123".to_string(),
        MethodPolicy { clipboard_read_image: PolicyDecision::Deny, gh_exec: GhExecPolicyMode::DenyAll },
    );

    let p = cfg.policy_for_container(Some("abc123"));
    assert_eq!(p.clipboard_read_image, PolicyDecision::Deny);
    assert_eq!(p.gh_exec, GhExecPolicyMode::DenyAll);

    let p2 = cfg.policy_for_container(Some("missing"));
    assert_eq!(p2.clipboard_read_image, PolicyDecision::Ask);
    assert_eq!(p2.gh_exec, GhExecPolicyMode::AskForWrites);
}

#[test]
fn portal_response_helpers_build_expected_shapes() {
    let ok = PortalResponse::ok(42, ResponseResult::Pong { now_unix_ms: 10 });
    assert!(ok.ok);
    assert_eq!(ok.id, 42);
    assert!(ok.result.is_some());
    assert!(ok.error.is_none());

    let err = PortalResponse::err(7, "denied", "nope");
    assert!(!err.ok);
    assert_eq!(err.id, 7);
    assert!(err.result.is_none());
    assert_eq!(err.error.as_ref().map(|e| e.code.as_str()), Some("denied"));
}

#[test]
fn exec_request_constructs_correctly() {
    let req = RequestMethod::Exec {
        argv: vec!["ls".to_string(), "-la".to_string()],
        reason: Some("list files".to_string()),
        cwd: Some("/tmp".to_string()),
        env: Some({
            let mut map = NamedMap::new();
            map.insert("PATH".to_string(), "/usr/bin".to_string());
            map
        }),
    };

    match req {
        RequestMethod::Exec { argv, reason, cwd, env } => {
            assert_eq!(argv, vec!["ls", "-la"]);
            assert_eq!(reason, Some("list files".to_string()));
            assert_eq!(cwd, Some("/tmp".to_string()));
            assert_eq!(env.as_ref().and_then(|e| e.get("PATH")), Some(&"/usr/bin".to_string()));
        }
        _ => panic!("Expected Exec variant"),
    }
}

#[test]
fn exec_request_minimal_fields() {
    let req = RequestMethod::Exec {
        argv: vec!["echo".to_string(), "hello".to_string()],
        reason: None,
        cwd: None,
        env: None,
    };

    match req {
        RequestMethod::Exec { argv, reason, cwd, env } => {
            assert_eq!(argv, vec!["echo", "hello"]);
            assert!(reason.is_none());
            assert!(cwd.is_none());
            assert!(env.is_none());
        }
        _ => panic!("Expected Exec variant"),
    }
}

#[test]
fn exec_result_constructs_correctly() {
    let result = ExecResult { exit_code: 0, stdout: b"hello world".to_vec(), stderr: vec![] };

    assert_eq!(result.exit_code, 0);
    assert_eq!(result.stdout, b"hello world");
    assert!(result.stderr.is_empty());
}

#[test]
fn exec_response_constructs_correctly() {
    let result = ResponseResult::Exec {
        result: ExecResult { exit_code: 1, stdout: vec![], stderr: b"error: something went wrong".to_vec() },
    };
    let response = PortalResponse::ok(123, result);

    assert!(response.ok);
    assert_eq!(response.id, 123);
    assert!(response.error.is_none());

    match response.result {
        Some(ResponseResult::Exec { result }) => {
            assert_eq!(result.exit_code, 1);
            assert_eq!(result.stderr, b"error: something went wrong");
        }
        _ => panic!("Expected Exec result variant"),
    }
}

// Further cases of this library.

#[test]
fn cgroup_first_matching_line_wins() {
    let c = "1::/a\r\n0::/x/libpod-zz/y\n2::/machine.slice/libpod/beef\n3::/libpod-cafe.scope\n";
    assert_eq!(extract_podman_container_id_from_cgroup(c), Some("beef".to_string()));
    assert_eq!(extract_podman_container_id_from_cgroup(""), None);
    assert_eq!(
        extract_podman_container_id_from_cgroup("0::/libpod-ABC123\r\n"),
        Some("ABC123".to_string())
    );
}

#[test]
fn socket_path_uses_uid_in_decimal() {
    assert_eq!(socket_path_for_uid(1000), "/run/user/1000/agent-portal/portal.sock");
    assert_eq!(socket_path_for_uid(0), "/run/user/0/agent-portal/portal.sock");
    assert!(default_socket_path().starts_with("/run/user/"));
    assert_eq!(default_allowed_mime(), vec!["image/png", "image/jpeg", "image/webp"]);
}

#[test]
fn error_response_carries_code_and_message() {
    let r = PortalResponse::err(3, "rate_limited", "request rate exceeded");
    assert_eq!(r.version, 1);
    let e = r.error.unwrap();
    assert_eq!(e.code, "rate_limited");
    assert_eq!(e.message, "request rate exceeded");
}

#[test]
fn policy_without_container_uses_defaults() {
    let cfg = PortalConfig::default();
    let p = cfg.policy_for_container(None);
    assert_eq!(p.clipboard_read_image, PolicyDecision::Allow);
    assert_eq!(cfg.socket_path_buf(), cfg.socket_path);
}
