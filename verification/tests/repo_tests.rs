use agent_box_common::config::{Config, MountsConfig, RuntimeConfig};
use agent_box_common::named_map::NamedMap;
use agent_box_common::path::RepoIdentifier;
use agent_box_common::portal::PortalConfig;
use agent_box_common::repo::{
    branch_ref, git_worktree_args, jj_workspace_args, locate_repo, pick_selected, removal_targets, root_source,
    session_input_problem, validate_session_name, GitRootError, Located, RepoKind, RootSource,
};

fn ids(paths: &[&str]) -> Vec<RepoIdentifier> {
    paths.iter().map(|p| RepoIdentifier { relative_path: p.to_string() }).collect()
}

#[test]
fn locate_one_none_or_many() {
    match locate_repo(ids(&["fr/agent-box"]), Some("agent-box")) {
        Located::Found(id) => assert_eq!(id.relative_path(), "fr/agent-box"),
        other => panic!("unexpected {other:?}"),
    }
    match locate_repo(ids(&[]), Some("x")) {
        Located::NotFound(t) => assert_eq!(t, "Could not find repository matching 'x'"),
        other => panic!("unexpected {other:?}"),
    }
    match locate_repo(ids(&[]), None) {
        Located::NotFound(t) => assert_eq!(t, "Could not find repository"),
        other => panic!("unexpected {other:?}"),
    }
    match locate_repo(ids(&["a/x", "b/x"]), Some("x")) {
        Located::Choose { prompt, options, repos } => {
            assert_eq!(prompt, "Multiple repositories match 'x'. Select one:");
            assert_eq!(options, vec!["a/x", "b/x"]);
            assert_eq!(pick_selected(repos, "b/x").unwrap().relative_path(), "b/x");
        }
        other => panic!("unexpected {other:?}"),
    }
    match locate_repo(ids(&["a", "b"]), None) {
        Located::Choose { prompt, .. } => assert_eq!(prompt, "Select a repository:"),
        other => panic!("unexpected {other:?}"),
    }
    assert_eq!(pick_selected(ids(&["a"]), "z").unwrap_err(), "Selected repository not found");
}

#[test]
fn session_names_are_trimmed_and_checked() {
    assert_eq!(validate_session_name("  feature-1 "), Ok("feature-1".to_string()));
    assert_eq!(
        validate_session_name("two words"),
        Err("Session name cannot contain whitespace: 'two words'".to_string())
    );
    assert_eq!(validate_session_name("   "), Err("Session name cannot be empty".to_string()));
    assert_eq!(session_input_problem(" "), Some("Session name cannot be empty".to_string()));
    assert_eq!(session_input_problem("a b"), Some("Session name cannot contain spaces".to_string()));
    assert_eq!(session_input_problem(" ok "), None);
}

fn config() -> Config {
    Config {
        workspace_dir: "/w".to_string(),
        base_repo_dir: "/r".to_string(),
        base_repo_dir_explicit: true,
        default_profile: None,
        profiles: NamedMap::new(),
        runtime: RuntimeConfig {
            backend: "podman".to_string(),
            image: "i".to_string(),
            entrypoint: None,
            mounts: MountsConfig::default(),
            env: vec![],
            env_passthrough: vec![],
            ports: vec![],
            hosts: vec![],
            skip_mounts: vec![],
        },
        context: String::new(),
        context_path: "/tmp/context".to_string(),
        portal: PortalConfig::default(),
    }
}

#[test]
fn removal_covers_both_workspace_types() {
    let id = RepoIdentifier { relative_path: "fr/agent-box".to_string() };
    let t = removal_targets(&config(), &id);
    assert_eq!(t[0], ("Git worktrees".to_string(), "/w/git/fr/agent-box".to_string()));
    assert_eq!(t[1], ("JJ workspaces".to_string(), "/w/jj/fr/agent-box".to_string()));
}

#[test]
fn tool_arguments() {
    assert_eq!(git_worktree_args("s", "/w/p", true), vec!["worktree", "add", "/w/p", "s"]);
    assert_eq!(git_worktree_args("s", "/w/p", false), vec!["worktree", "add", "-b", "s", "/w/p"]);
    assert_eq!(jj_workspace_args("s", "/w/p"), vec!["workspace", "add", "--name", "s", "/w/p"]);
    assert_eq!(branch_ref("s"), "refs/heads/s");
}

#[test]
fn repository_roots() {
    assert_eq!(root_source(RepoKind::LinkedWorktree), Some(RootSource::MainRepository));
    assert_eq!(root_source(RepoKind::Bare), None);
    assert_eq!(root_source(RepoKind::Other), Some(RootSource::OwnWorkdir));
    assert_eq!(
        GitRootError::Bare { git_dir: "/b.git".to_string() }.message(),
        "bare repository at /b.git has no working directory; use a non-bare clone instead"
    );
    assert!(GitRootError::MainBare { common_dir: "/c".to_string() }.message().contains("is bare"));
    assert_eq!(GitRootError::NoWorkdir.message(), "repository has no working directory");
}
