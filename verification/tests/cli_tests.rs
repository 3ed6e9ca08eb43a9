use agent_box_common::cli::{
    bare_name_hint, byte_len, group_line, jj_workspace_lines, managed_socket_path, new_workspace_type,
    removal_line, unresolved_groups, validate_report, wants_managed_portal, worktree_line,
};
use agent_box_common::config::{Config, MountsConfig, ProfileConfig, RuntimeConfig};
use agent_box_common::named_map::NamedMap;
use agent_box_common::path::{GitWorktreeInfo, JjWorkspaceInfo, WorkspaceInfo, WorkspaceStatus, WorkspaceType};
use agent_box_common::portal::PortalConfig;
use agent_box_common::profiles::validate_config;

fn config() -> Config {
    Config {
        workspace_dir: "/w".to_string(),
        base_repo_dir: "/r".to_string(),
        base_repo_dir_explicit: true,
        default_profile: None,
        profiles: NamedMap::new(),
        runtime: RuntimeConfig {
            backend: "podman".to_string(),
            image: "i".to_string(),
            entrypoint: None,
            mounts: MountsConfig::default(),
            env: vec![],
            env_passthrough: vec![],
            ports: vec![],
            hosts: vec![],
            skip_mounts: vec![],
        },
        context: String::new(),
        context_path: "/tmp/context".to_string(),
        portal: PortalConfig::default(),
    }
}

fn group(count: usize, status: WorkspaceStatus) -> WorkspaceInfo {
    WorkspaceInfo {
        source_path: "/r/p".to_string(),
        workspace_type: WorkspaceType::Git,
        session_count: count,
        status,
        relative_path: "p".to_string(),
    }
}

#[test]
fn workspace_types_and_hints() {
    assert_eq!(new_workspace_type(true, false), WorkspaceType::Git);
    assert_eq!(new_workspace_type(false, false), WorkspaceType::Jj);
    assert!(bare_name_hint(Some("a/b")).is_none());
    assert!(bare_name_hint(None).is_none());
    assert_eq!(
        bare_name_hint(Some("proj")).unwrap(),
        "could not find a git repository at 'proj'\nHint: use 'cd proj && ab new' or pass a full path like 'ab new /path/to/proj'"
    );
}

#[test]
fn managed_portal_choice_and_socket() {
    let mut cfg = PortalConfig::default();
    assert!(wants_managed_portal(&cfg));
    cfg.global = true;
    assert!(!wants_managed_portal(&cfg));
    assert_eq!(managed_socket_path(Some("/run/user/1"), "/tmp", 7, 99), "/run/user/1/agent-box/portal-7-99.sock");
    assert_eq!(managed_socket_path(None, "/tmp", 7, 99), "/tmp/agent-portal/agent-box/portal-7-99.sock");
}

#[test]
fn listing_lines() {
    assert_eq!(group_line(&group(1, WorkspaceStatus::Healthy)), "/r/p  git  1 session  healthy");
    assert_eq!(group_line(&group(3, WorkspaceStatus::Unresolved)), "/r/p  git  3 sessions  unresolved");
    assert_eq!(removal_line(&config(), &group(1, WorkspaceStatus::Unresolved)), "  /w/git/p (git, 1 session)");
    assert_eq!(removal_line(&config(), &group(2, WorkspaceStatus::Unresolved)), "  /w/git/p (git, 2 sessions)");
    let groups = vec![group(1, WorkspaceStatus::Healthy), group(2, WorkspaceStatus::Unresolved)];
    let u = unresolved_groups(&groups);
    assert_eq!(u.len(), 1);
    assert_eq!(u[0].session_count, 2);
    assert_eq!(u[0].relative_path, groups[1].relative_path);
    assert_eq!(u[0].source_path, groups[1].source_path);
    assert_eq!(u[0].workspace_type, groups[1].workspace_type);
    assert_eq!(u[0].status, WorkspaceStatus::Unresolved);
}

#[test]
fn repository_information_lines() {
    let main = GitWorktreeInfo { path: "/r/p".to_string(), id: None, is_main: true, is_locked: false };
    assert_eq!(worktree_line(&main), "  \u{1b}[36m/r/p\u{1b}[0m \u{1b}[2m(main)\u{1b}[0m");
    let linked = GitWorktreeInfo { path: "/w/s".to_string(), id: Some("s".to_string()), is_main: false, is_locked: true };
    assert_eq!(
        worktree_line(&linked),
        "  \u{1b}[36m/w/s\u{1b}[0m \u{1b}[32m[s]\u{1b}[0m \u{1b}[33m[locked]\u{1b}[0m"
    );
    let ws = vec![
        JjWorkspaceInfo { name: "default".to_string(), commit_id: "01234567".to_string(), description: "first\nsecond".to_string(), is_empty: false },
        JjWorkspaceInfo { name: "é".to_string(), commit_id: "89abcdef".to_string(), description: String::new(), is_empty: true },
    ];
    let lines = jj_workspace_lines(&ws);
    assert_eq!(lines[0], "  \u{1b}[32mdefault\u{1b}[0m  \u{1b}[35m01234567\u{1b}[0m  first");
    assert_eq!(
        lines[1],
        "  \u{1b}[32mé\u{1b}[0m       \u{1b}[35m89abcdef\u{1b}[0m  \u{1b}[2m(no description)\u{1b}[0m \u{1b}[2m(empty)\u{1b}[0m"
    );
    assert_eq!(byte_len("é"), 2);
}

#[test]
fn validation_report() {
    let mut c = config();
    let report = validate_report(&c, &validate_config(&c));
    assert!(report.success);
    assert_eq!(report.stdout, vec!["Configuration valid. No errors or warnings."]);
    assert!(report.stderr.is_empty());

    c.profiles.insert(
        "p".to_string(),
        ProfileConfig {
            extends: vec![],
            mounts: MountsConfig::default(),
            env: vec![],
            env_passthrough: vec![],
            ports: vec![],
            hosts: vec![],
            context: String::new(),
        },
    );
    c.default_profile = Some("p".to_string());
    let report = validate_report(&c, &validate_config(&c));
    assert!(report.success);
    assert_eq!(
        report.stdout,
        vec!["\nConfiguration valid with 1 warning(s).", "\nProfiles defined: 1", "  - p", "\nDefault profile: p"]
    );
    assert_eq!(report.stderr[0], "Warnings:");

    c.default_profile = Some("missing".to_string());
    let report = validate_report(&c, &validate_config(&c));
    assert!(!report.success);
    assert!(report.stdout.is_empty());
    assert_eq!(report.stderr[0], "Errors:");
    assert!(report.stderr[1].starts_with("  \u{2717} default_profile 'missing'"));
    assert_eq!(report.stderr[2], "");
    assert_eq!(report.stderr.last().unwrap(), "\nConfiguration invalid: 1 error(s), 1 warning(s).");
}
