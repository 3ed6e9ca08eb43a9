use agent_box_common::config::{Config, MountsConfig, RuntimeConfig};
use agent_box_common::named_map::NamedMap;
use agent_box_common::path::{
    calculate_relative_path, discovery_admits, expand_tilde, file_name_of, looks_canonical_path, parent_of, path_to_str,
    record_session, scan_action, sort_groups, workspace_info, JjWorkspaceInfo, PathError, RepoIdentifier, ScanAction,
    WorkspaceInfo, WorkspaceStatus, WorkspaceType,
};
use agent_box_common::portal::PortalConfig;

fn make_test_config() -> Config {
    make_test_config_with("/home/user/repos", true, "/mnt/workspace")
}

fn make_test_config_with(base_repo_dir: &str, base_repo_dir_explicit: bool, workspace_dir: &str) -> Config {
    Config {
        base_repo_dir: base_repo_dir.to_string(),
        base_repo_dir_explicit,
        workspace_dir: workspace_dir.to_string(),
        default_profile: None,
        profiles: NamedMap::new(),
        runtime: RuntimeConfig {
            backend: "podman".to_string(),
            image: "test:latest".to_string(),
            entrypoint: None,
            mounts: MountsConfig::default(),
            skip_mounts: vec![],
            env: vec![],
            env_passthrough: vec![],
            ports: vec![],
            hosts: vec![],
        },
        context: String::new(),
        context_path: "/tmp/context".to_string(),
        portal: PortalConfig::default(),
    }
}

#[test]
fn test_repo_identifier_from_repo_path() {
    let config = make_test_config();
    let full_path = "/home/user/repos/myproject";

    let id = RepoIdentifier::from_repo_path(&config, full_path).unwrap();
    assert_eq!(id.relative_path(), "myproject");
}

#[test]
fn test_repo_identifier_path_builders() {
    let config = make_test_config();
    let id = RepoIdentifier { relative_path: "work/project".to_string() };

    assert_eq!(id.source_path(&config), "/home/user/repos/work/project");
    assert_eq!(id.git_workspace_path(&config, "session1"), "/mnt/workspace/git/work/project/session1");
    assert_eq!(id.jj_workspace_path(&config, "session2"), "/mnt/workspace/jj/work/project/session2");
}

#[test]
fn test_find_matching_base_repo_dir_not_exists() {
    let config = make_test_config();
    // The base repository directory does not exist, so nothing is discovered in it.
    assert!(RepoIdentifier::discovery_root(&config).is_ok());
    let discovered: Vec<RepoIdentifier> = Vec::new();

    let matches = RepoIdentifier::find_matching(&discovered, "anything");
    assert!(matches.is_empty());
}

#[test]
fn test_nested_directory_mirroring() {
    let config = make_test_config_with("/", false, "/mnt/workspace");

    let repo_path = "/home/user/repos/myproject";
    let id = RepoIdentifier::from_repo_path(&config, repo_path).unwrap();

    assert_eq!(id.relative_path(), "home/user/repos/myproject");
    assert_eq!(id.source_path(&config), "/home/user/repos/myproject");
    assert_eq!(
        id.git_workspace_path(&config, "my-session"),
        "/mnt/workspace/git/home/user/repos/myproject/my-session"
    );
}

#[test]
fn test_nested_mirroring_with_explicit_base() {
    let config = make_test_config();
    let repo_path = "/home/user/repos/myproject";
    let id = RepoIdentifier::from_repo_path(&config, repo_path).unwrap();

    assert_eq!(id.relative_path(), "myproject");
    assert_eq!(id.git_workspace_path(&config, "session1"), "/mnt/workspace/git/myproject/session1");
}

#[test]
fn test_discover_no_dirs_configured() {
    let config = make_test_config_with("/", false, "/mnt/workspace");

    let result = RepoIdentifier::discovery_root(&config);
    assert!(result.is_err(), "discover_repo_ids should error when no dirs configured");
    let err_msg = result.unwrap_err().message();
    assert!(
        err_msg.contains("no repository discovery directories configured"),
        "error should mention no discovery dirs configured, got: {err_msg}"
    );
}

#[test]
fn test_discover_explicit_root_base_repo_dir() {
    let config = make_test_config_with("/", true, "/mnt/workspace");

    let result = RepoIdentifier::discovery_root(&config);
    assert!(result.is_err(), "discover_repo_ids should error when base_repo_dir is /");
    let err_msg = result.unwrap_err().message();
    assert!(
        err_msg.contains("no repository discovery directories configured"),
        "error should mention no discovery dirs configured, got: {err_msg}",
    );
}

// Further cases of this library.

fn ids(paths: &[&str]) -> Vec<RepoIdentifier> {
    paths.iter().map(|p| RepoIdentifier { relative_path: p.to_string() }).collect()
}

#[test]
fn find_matching_exact_and_partial() {
    let repos = ids(&["fr/agent-box", "other/box", "agent-box-2"]);
    let exact = RepoIdentifier::find_matching(&repos, "fr/agent-box");
    assert_eq!(exact.len(), 1);
    assert_eq!(exact[0].relative_path(), "fr/agent-box");
    let partial = RepoIdentifier::find_matching(&repos, "agent-box");
    assert_eq!(partial.len(), 1);
    assert_eq!(partial[0].relative_path(), "fr/agent-box");
    assert!(RepoIdentifier::find_matching(&repos, "nonexistent").is_empty());
    // A leading `./` is a component of its own, as with `Path::ends_with`.
    assert!(RepoIdentifier::find_matching(&repos, "./agent-box").is_empty());
}

#[test]
fn discovery_root_uses_explicit_base() {
    let config = make_test_config_with("/srv/repos", true, "/mnt/workspace");
    assert_eq!(RepoIdentifier::discovery_root(&config).unwrap(), "/srv/repos");
    let not_explicit = make_test_config_with("/srv/repos", false, "/mnt/workspace");
    assert!(RepoIdentifier::discovery_root(&not_explicit).is_err());
    let double_slash_root = make_test_config_with("//", true, "/mnt/workspace");
    assert!(RepoIdentifier::discovery_root(&double_slash_root).is_err());
}

#[test]
fn from_discovered_skips_paths_outside_base() {
    let paths = vec!["/r/a".to_string(), "/elsewhere/b".to_string(), "/r/c/d".to_string()];
    let (found, outside) = RepoIdentifier::from_discovered("/r", &paths);
    assert_eq!(found.iter().map(|i| i.relative_path()).collect::<Vec<_>>(), vec!["a", "c/d"]);
    assert_eq!(outside, vec!["/elsewhere/b"]);
}

#[test]
fn relative_path_errors_outside_base() {
    assert_eq!(calculate_relative_path("/a", "/a/b/c").unwrap(), "b/c");
    assert_eq!(calculate_relative_path("/a/", "/a//b").unwrap(), "b");
    let err = calculate_relative_path("/a", "/b").unwrap_err();
    assert!(matches!(err, PathError::NotUnder { .. }));
    assert_eq!(err.message(), "Path /b is not under base directory /a");
    let config = make_test_config();
    assert!(RepoIdentifier::from_repo_path(&config, "/elsewhere/x").is_err());
}

#[test]
fn canonical_form_check() {
    assert!(looks_canonical_path("/home/user/repos/myproject"));
    assert!(!looks_canonical_path("/home/user/repos/../repos/myproject"));
    assert!(!looks_canonical_path("./x"));
    assert_eq!(path_to_str("/x/y"), "/x/y");
}

#[test]
fn workspace_type_and_status_names() {
    assert_eq!(WorkspaceType::Git.as_str(), "git");
    assert_eq!(WorkspaceType::Jj.as_str(), "jj");
    assert_eq!(WorkspaceStatus::Healthy.as_str(), "healthy");
    assert_eq!(WorkspaceStatus::Unresolved.as_str(), "unresolved");
}

#[test]
fn workspace_dir_of_group() {
    let config = make_test_config();
    let ws = WorkspaceInfo {
        source_path: "/home/user/repos/p".to_string(),
        workspace_type: WorkspaceType::Jj,
        session_count: 2,
        status: WorkspaceStatus::Healthy,
        relative_path: "p".to_string(),
    };
    assert_eq!(ws.workspace_dir(&config), "/mnt/workspace/jj/p");
    let id = RepoIdentifier { relative_path: "p".to_string() };
    assert_eq!(id.workspace_path(&config, WorkspaceType::Git, "s"), "/mnt/workspace/git/p/s");
}

#[test]
fn parents_and_file_names() {
    assert_eq!(parent_of("/a/b/c").unwrap(), "/a/b");
    assert_eq!(parent_of("/a").unwrap(), "/");
    assert!(parent_of("/").is_none());
    assert_eq!(parent_of("a").unwrap(), "");
    assert_eq!(file_name_of("/a/.git").unwrap(), ".git");
    assert!(file_name_of("/a/..").is_none());
}

#[test]
fn scan_actions() {
    let t = "/w/git";
    assert_eq!(scan_action(WorkspaceType::Git, t, "/w/git", true, false, false, false), ScanAction::Pass);
    assert_eq!(scan_action(WorkspaceType::Git, t, "/w/git/r/.git", true, false, false, false), ScanAction::SkipSubtree);
    assert_eq!(scan_action(WorkspaceType::Git, t, "/w/git/r/s", true, true, false, false), ScanAction::Session);
    assert_eq!(scan_action(WorkspaceType::Git, t, "/w/git/r", true, false, true, false), ScanAction::SkipSubtree);
    assert_eq!(scan_action(WorkspaceType::Git, t, "/w/git/r", true, false, false, false), ScanAction::Descend);
    assert_eq!(scan_action(WorkspaceType::Jj, "/w/jj", "/w/jj/r/s", true, false, false, true), ScanAction::Session);
    assert_eq!(scan_action(WorkspaceType::Jj, "/w/jj", "/w/jj/r/f", false, false, false, false), ScanAction::Pass);
}

#[test]
fn sessions_are_counted_per_repository() {
    let mut counts: NamedMap<usize> = NamedMap::new();
    record_session(&mut counts, "/w/git", "/w/git/source-repo/session-1");
    record_session(&mut counts, "/w/git", "/w/git/source-repo/session-2");
    record_session(&mut counts, "/w/git", "/w/git/a/b/s");
    assert_eq!(counts.get("source-repo"), Some(&2));
    assert_eq!(counts.get("a/b"), Some(&1));
    let config = make_test_config();
    let info = workspace_info(&config, WorkspaceType::Git, "source-repo", 2, true);
    assert_eq!(info.source_path, "/home/user/repos/source-repo");
    assert_eq!(info.status, WorkspaceStatus::Healthy);
    let gone = workspace_info(&config, WorkspaceType::Git, "gone-repo", 1, false);
    assert_eq!(gone.status, WorkspaceStatus::Unresolved);
}

#[test]
fn tilde_expansion() {
    assert_eq!(expand_tilde("~/x/y", "/home/u"), "/home/u/x/y");
    assert_eq!(expand_tilde("~", "/home/u"), "/home/u/");
    assert_eq!(expand_tilde("~user/x", "/home/u"), "~user/x");
    assert_eq!(expand_tilde("/abs", "/home/u"), "/abs");
}

#[test]
fn jj_workspace_entry_shortens_commit() {
    let w = JjWorkspaceInfo::from_commit("default", "0123456789abcdef", "  fix bug \n", false);
    assert_eq!(w.commit_id, "01234567");
    assert_eq!(w.description, "fix bug");
}

#[test]
fn discovery_walk_admits() {
    assert!(discovery_admits("/r", "/r", true));
    assert!(!discovery_admits("/r", "/r/a/.git", false));
    assert!(!discovery_admits("/r", "/r/a/src", true));
    assert!(discovery_admits("/r", "/r/a", true));
    assert!(discovery_admits("/r", "/r/a/src", false));
}

#[test]
fn workspace_lies_inside_its_group() {
    let config = make_test_config();
    let id = RepoIdentifier { relative_path: "work/project".to_string() };
    let ws = WorkspaceInfo {
        source_path: id.source_path(&config),
        workspace_type: WorkspaceType::Git,
        session_count: 1,
        status: WorkspaceStatus::Healthy,
        relative_path: "work/project".to_string(),
    };
    let path = id.git_workspace_path(&config, "s1");
    assert_eq!(calculate_relative_path(&ws.workspace_dir(&config), &path).unwrap(), "s1");
    assert_eq!(calculate_relative_path(&config.workspace_dir, &path).unwrap(), "git/work/project/s1");
}

#[test]
fn source_path_round_trip() {
    let config = make_test_config();
    let id = RepoIdentifier::from_repo_path(&config, "/home/user//repos/a/b/").unwrap();
    assert_eq!(id.relative_path(), "a/b");
    assert_eq!(id.source_path(&config), "/home/user/repos/a/b");
}

#[test]
fn source_path_round_trips_for_a_relative_base() {
    let config = make_test_config_with("repos", true, "ws");
    let id = RepoIdentifier::from_repo_path(&config, "repos/team/app").unwrap();
    assert_eq!(id.relative_path, "team/app");
    assert_eq!(id.source_path(&config), "repos/team/app");
    let config = make_test_config_with("", true, "ws");
    let id = RepoIdentifier::from_repo_path(&config, "team/app").unwrap();
    assert_eq!(id.source_path(&config), "team/app");
}

#[test]
fn groups_sort_in_path_order() {
    let input: Vec<(String, usize)> = ["b", "a/c", "a", "a-b", "a/b", "ä", "Z", "./x", "..", "/r", "a/b/c"]
        .iter()
        .enumerate()
        .map(|(i, s)| (s.to_string(), i))
        .collect();
    let sorted = sort_groups(input.clone());
    let mut expected = input.clone();
    expected.sort_by(|a, b| std::path::Path::new(&a.0).cmp(std::path::Path::new(&b.0)));
    assert_eq!(sorted, expected);
    let names: Vec<&str> = sorted.iter().map(|(s, _)| s.as_str()).collect();
    assert_eq!(names, vec!["/r", "./x", "..", "Z", "a", "a/b", "a/b/c", "a/c", "a-b", "b", "ä"]);
}
