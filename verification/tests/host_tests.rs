use agent_box_common::host::{
    accept_clipboard_image, admit_connection, after_prompt, binary_candidates, choose_clipboard_type,
    classify_gh_operation, finish_work, gh_approval, offered_types, parse_operation, pick_host_binary,
    plan_request, prompt_menu, prompt_outcome, prompt_preflight, rate_key, socket_wait_ms, split_command,
    CallerIdentity, GhCommandOperation, GhPolicyData, HostStep, HostWork, RateLimiter, WorkOutcome,
    RATE_WINDOW_NANOS,
};
use agent_box_common::portal::{
    GhExecPolicyMode, MethodPolicy, PolicyDecision, PortalConfig, PortalRequest, RequestMethod, ResponseResult,
};

fn rows() -> Vec<(String, String)> {
    [("pr list", "Read"), ("pr create", "Write"), ("issue edit", "Read/Write"), ("api", "Unknown")]
        .iter()
        .map(|(c, o)| (c.to_string(), o.to_string()))
        .collect()
}

fn argv(words: &[&str]) -> Vec<String> {
    words.iter().map(|s| s.to_string()).collect()
}

fn identity(container: Option<&str>) -> CallerIdentity {
    CallerIdentity { pid: 42, uid: 1000, gid: 100, container_id: container.map(|c| c.to_string()) }
}

#[test]
fn policy_data_from_report_rows() {
    let p = GhPolicyData::from_rows(&rows());
    assert_eq!(p.roots, vec!["pr", "pr", "issue", "api"]);
    assert!(p.prefixes.contains(&"pr".to_string()));
    assert!(p.prefixes.contains(&"pr create".to_string()));
    assert_eq!(p.op_map.get("issue edit"), Some(&GhCommandOperation::ReadWrite));
    assert_eq!(parse_operation("Read/Write"), GhCommandOperation::ReadWrite);
    assert_eq!(parse_operation("read"), GhCommandOperation::Unknown);
}

#[test]
fn classify_reads_and_writes() {
    let p = GhPolicyData::from_rows(&rows());
    assert_eq!(classify_gh_operation(&p, &argv(&["pr", "list"])), GhCommandOperation::Read);
    assert_eq!(classify_gh_operation(&p, &argv(&["--repo", "x/y", "pr", "-w", "create"])), GhCommandOperation::Write);
    assert_eq!(classify_gh_operation(&p, &argv(&["issue", "edit", "12"])), GhCommandOperation::ReadWrite);
    // `pr` alone is a prefix but no command.
    assert_eq!(classify_gh_operation(&p, &argv(&["pr", "merge"])), GhCommandOperation::Unknown);
    assert_eq!(classify_gh_operation(&p, &argv(&["repo", "view"])), GhCommandOperation::Unknown);
    assert_eq!(classify_gh_operation(&p, &argv(&[])), GhCommandOperation::Unknown);
}

#[test]
fn approval_by_policy_mode() {
    assert_eq!(gh_approval(GhExecPolicyMode::AskForWrites, GhCommandOperation::Read), Some(false));
    assert_eq!(gh_approval(GhExecPolicyMode::AskForWrites, GhCommandOperation::Unknown), Some(true));
    assert_eq!(gh_approval(GhExecPolicyMode::AskForAll, GhCommandOperation::Read), Some(true));
    assert_eq!(gh_approval(GhExecPolicyMode::AskForNone, GhCommandOperation::Write), Some(false));
    assert_eq!(gh_approval(GhExecPolicyMode::DenyAll, GhCommandOperation::Read), None);
}

#[test]
fn rate_limiter_counts_per_key_within_window() {
    let mut l = RateLimiter::new(2, 1);
    assert!(l.allow_at("k", 0));
    assert!(l.allow_at("k", 10));
    assert!(!l.allow_at("k", 20));
    assert!(l.allow_at("other", 20));
    // Once the first request leaves the window there is room again.
    assert!(l.allow_at("k", RATE_WINDOW_NANOS + 1));
    assert!(!l.allow_at("k", RATE_WINDOW_NANOS + 2));
    let mut zero = RateLimiter::new(0, 0);
    assert!(!zero.allow_at("k", 0));
    let mut burst = RateLimiter::new(1, 3);
    assert!(burst.allow_at("k", 0) && burst.allow_at("k", 1) && burst.allow_at("k", 2));
    assert!(!burst.allow_at("k", 3));
    let mut now = RateLimiter::new(60, 10);
    assert!(now.allow("k"));
}

#[test]
fn rate_key_prefers_container() {
    assert_eq!(rate_key(&identity(Some("abc"))), "abc");
    assert_eq!(rate_key(&identity(None)), "pid:42");
    let neg = CallerIdentity { pid: -3, uid: 0, gid: 0, container_id: None };
    assert_eq!(rate_key(&neg), "pid:-3");
}

fn request(id: u64, method: RequestMethod) -> PortalRequest {
    PortalRequest { version: 1, id, method }
}

#[test]
fn plan_answers_each_method() {
    let mut cfg = PortalConfig::default();
    let gh = GhPolicyData::from_rows(&rows());
    let who = identity(Some("c1"));

    match plan_request(&cfg, &gh, &who, request(1, RequestMethod::Ping), false, 5) {
        HostStep::Reply(r) => {
            assert!(!r.ok);
            assert_eq!(r.error.unwrap().code, "rate_limited");
        }
        other => panic!("unexpected {other:?}"),
    }
    match plan_request(&cfg, &gh, &who, request(1, RequestMethod::Ping), true, 5) {
        HostStep::Reply(r) => assert!(matches!(r.result, Some(ResponseResult::Pong { now_unix_ms: 5 }))),
        other => panic!("unexpected {other:?}"),
    }
    match plan_request(&cfg, &gh, &who, request(2, RequestMethod::WhoAmI), true, 5) {
        HostStep::Reply(r) => match r.result {
            Some(ResponseResult::WhoAmI { pid, container_id, .. }) => {
                assert_eq!(pid, 42);
                assert_eq!(container_id.as_deref(), Some("c1"));
            }
            other => panic!("unexpected {other:?}"),
        },
        other => panic!("unexpected {other:?}"),
    }
    let clip = RequestMethod::ClipboardReadImage { reason: None };
    assert!(matches!(
        plan_request(&cfg, &gh, &who, request(3, clip.clone()), true, 5),
        HostStep::Run(HostWork::ReadClipboard)
    ));
    cfg.policy.containers.insert(
        "c1".to_string(),
        MethodPolicy { clipboard_read_image: PolicyDecision::Deny, gh_exec: GhExecPolicyMode::DenyAll },
    );
    match plan_request(&cfg, &gh, &who, request(3, clip.clone()), true, 5) {
        HostStep::Reply(r) => assert_eq!(r.error.unwrap().message, "request denied by policy"),
        other => panic!("unexpected {other:?}"),
    }
    let read = RequestMethod::GhExec { argv: argv(&["pr", "list"]), reason: None, require_approval: false };
    match plan_request(&cfg, &gh, &who, request(4, read.clone()), true, 5) {
        HostStep::Reply(r) => assert_eq!(r.error.unwrap().message, "gh.exec denied by policy"),
        other => panic!("unexpected {other:?}"),
    }
    let other = identity(Some("c2"));
    assert!(matches!(
        plan_request(&cfg, &gh, &other, request(4, read), true, 5),
        HostStep::Run(HostWork::RunGh { .. })
    ));
    let write = RequestMethod::GhExec { argv: argv(&["pr", "create"]), reason: Some("r".to_string()), require_approval: false };
    assert!(matches!(
        plan_request(&cfg, &gh, &other, request(5, write), true, 5),
        HostStep::Ask { work: HostWork::RunGh { .. }, .. }
    ));
    let exec = RequestMethod::Exec { argv: argv(&["ls"]), reason: None, cwd: None, env: None };
    assert!(matches!(
        plan_request(&cfg, &gh, &other, request(6, exec), true, 5),
        HostStep::Ask { work: HostWork::RunExec { .. }, .. }
    ));
}

#[test]
fn prompt_answers_lead_to_work_or_refusal() {
    assert!(matches!(after_prompt(1, HostWork::ReadClipboard, Ok(true)), HostStep::Run(HostWork::ReadClipboard)));
    match after_prompt(1, HostWork::ReadClipboard, Ok(false)) {
        HostStep::Reply(r) => assert_eq!(r.error.unwrap().code, "denied"),
        other => panic!("unexpected {other:?}"),
    }
    match after_prompt(1, HostWork::ReadClipboard, Err("prompt timed out".to_string())) {
        HostStep::Reply(r) => {
            let e = r.error.unwrap();
            assert_eq!(e.code, "prompt_failed");
            assert_eq!(e.message, "prompt timed out");
        }
        other => panic!("unexpected {other:?}"),
    }
}

#[test]
fn work_outcomes_become_responses() {
    let r = finish_work(9, WorkOutcome::Gh(Ok((0, b"out".to_vec(), vec![]))));
    assert!(r.ok);
    assert!(matches!(r.result, Some(ResponseResult::GhExec { exit_code: 0, .. })));
    let r = finish_work(9, WorkOutcome::Exec(Err("failed".to_string())));
    assert_eq!(r.error.unwrap().code, "exec_failed");
    let r = finish_work(9, WorkOutcome::Clipboard(Err("none".to_string())));
    assert_eq!(r.error.unwrap().code, "clipboard_failed");
    let r = finish_work(9, WorkOutcome::Clipboard(Ok(("image/png".to_string(), vec![1]))));
    assert!(matches!(r.result, Some(ResponseResult::ClipboardImage { .. })));
}

#[test]
fn prompt_text_and_answer() {
    assert_eq!(
        prompt_menu(&identity(Some("c1")), Some("copy")),
        "allow-once (container=c1 pid=42 reason=copy)\ndeny (container=c1 pid=42 reason=copy)\n"
    );
    assert_eq!(
        prompt_menu(&identity(None), None),
        "allow-once (container=unknown pid=42 reason=(none))\ndeny (container=unknown pid=42 reason=(none))\n"
    );
    assert_eq!(prompt_outcome(true, "", "  Allow-once (x)\n"), Ok(true));
    assert_eq!(prompt_outcome(true, "", "deny (x)"), Ok(false));
    assert_eq!(
        prompt_outcome(false, "exit status: 1", "allow"),
        Err("prompt command returned non-zero status: exit status: 1".to_string())
    );
    let mut cfg = PortalConfig::default();
    assert_eq!(prompt_preflight(&cfg, 0), Err("prompt_command not configured".to_string()));
    cfg.prompt_command = Some("rofi".to_string());
    assert_eq!(prompt_preflight(&cfg, 0), Ok("rofi".to_string()));
    assert_eq!(prompt_preflight(&cfg, 64), Err("prompt queue full".to_string()));
}

#[test]
fn clipboard_type_selection() {
    let allowed = vec!["image/png".to_string(), "image/jpeg".to_string()];
    assert_eq!(offered_types(" text/plain \n\nimage/jpeg\r\nimage/png\n"), vec!["text/plain", "image/jpeg", "image/png"]);
    assert_eq!(choose_clipboard_type(&allowed, true, "image/jpeg\nimage/png\n", ""), Ok("image/png".to_string()));
    assert_eq!(
        choose_clipboard_type(&allowed, true, "text/plain\n", ""),
        Err("clipboard does not currently contain an allowed image MIME".to_string())
    );
    assert_eq!(
        choose_clipboard_type(&allowed, false, "", "no wayland"),
        Err("wl-paste --list-types failed: no wayland".to_string())
    );
    assert_eq!(accept_clipboard_image("image/png", true, 10, "", 10), Ok(()));
    assert_eq!(
        accept_clipboard_image("image/png", true, 11, "", 10),
        Err("clipboard image exceeds size limit (11 > 10)".to_string())
    );
    assert_eq!(
        accept_clipboard_image("image/png", false, 0, "boom", 10),
        Err("wl-paste failed for mime image/png: boom".to_string())
    );
}

#[test]
fn commands_and_binaries() {
    assert_eq!(split_command(&argv(&[])), Err("empty command".to_string()));
    assert_eq!(split_command(&argv(&["ls", "-la", "/"])), Ok(("ls".to_string(), argv(&["-la", "/"]))));
    assert_eq!(binary_candidates("/usr/bin:/bin:", "gh"), vec!["/usr/bin/gh", "/bin/gh", "gh"]);
    let existing = vec!["/usr/bin/gh".to_string()];
    assert_eq!(pick_host_binary(Some("/opt/gh"), &existing, "gh"), "/opt/gh");
    assert_eq!(pick_host_binary(Some("  "), &existing, "gh"), "/usr/bin/gh");
    assert_eq!(pick_host_binary(None, &vec![], "gh"), "gh");
}

#[test]
fn admission_and_waiting() {
    assert!(admit_connection(31, 32).is_none());
    let busy = admit_connection(32, 32).unwrap();
    assert_eq!(busy.id, 0);
    assert_eq!(busy.error.unwrap().code, "too_busy");
    assert_eq!(socket_wait_ms(0), 5000);
    assert_eq!(socket_wait_ms(200), 1000);
    assert_eq!(socket_wait_ms(3000), 3000);
}

#[test]
fn rate_limit_over_a_run_of_calls_in_one_window() {
    let mut l = RateLimiter::new(3, 2);
    let window_end: u128 = 60_000_000_000;
    let mut results = Vec::new();
    for (i, key) in ["k", "k", "other", "k", "k", "other", "k"].iter().enumerate() {
        let t = (i as u128) * (window_end / 10);
        results.push(l.allow_at(key, t));
    }
    assert_eq!(results, vec![true, true, true, true, false, true, false]);
}
