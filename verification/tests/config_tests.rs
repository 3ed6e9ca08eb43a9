use agent_box_common::config::{
    container_home_for, parse_entrypoint, ChainStep, HostPaths, Mount, MountMode, MountPaths, MountsConfig, ProfileConfig, ResolvedMount,
    RuntimeConfig, Config,
};
use agent_box_common::named_map::NamedMap;
use agent_box_common::portal::PortalConfig;
use agent_box_common::profiles::{
    collect_profiles_to_apply, resolve_profiles, validate_config, validate_config_or_err,
};

fn make_test_config() -> Config {
    Config {
        workspace_dir: "/workspaces".to_string(),
        base_repo_dir: "/repos".to_string(),
        base_repo_dir_explicit: true,
        default_profile: None,
        profiles: NamedMap::new(),
        runtime: RuntimeConfig {
            backend: "docker".to_string(),
            image: "test:latest".to_string(),
            entrypoint: None,
            mounts: MountsConfig::default(),
            env: vec!["BASE=1".to_string()],
            env_passthrough: vec![],
            ports: vec![],
            hosts: vec![],
            skip_mounts: vec![],
        },
        context: String::new(),
        context_path: "/tmp/context".to_string(),
        portal: PortalConfig::default(),
    }
}

fn host() -> HostPaths {
    HostPaths::new("/home/user", "/home/user")
}

fn env_profile(extends: &[&str], env: &[&str]) -> ProfileConfig {
    ProfileConfig {
        extends: extends.iter().map(|s| s.to_string()).collect(),
        mounts: MountsConfig::default(),
        env: env.iter().map(|s| s.to_string()).collect(),
        env_passthrough: vec![],
        ports: vec![],
        hosts: vec![],
        context: String::new(),
    }
}

#[test]
fn test_resolve_profiles_no_profiles() {
    let config = make_test_config();
    let resolved = resolve_profiles(&config, &[], &host()).unwrap();

    assert_eq!(resolved.env, vec!["BASE=1"]);
    assert!(resolved.mounts.is_empty());
}

#[test]
fn test_resolve_profiles_single_profile() {
    let mut config = make_test_config();
    config.profiles.insert(
        "git".to_string(),
        ProfileConfig {
            extends: vec![],
            mounts: MountsConfig {
                ro: MountPaths { absolute: vec![], home_relative: vec!["~/.gitconfig".to_string()] },
                ..Default::default()
            },
            env: vec!["GIT=1".to_string()],
            ports: vec![],
            env_passthrough: vec![],
            hosts: vec![],
            context: String::new(),
        },
    );

    let resolved = resolve_profiles(&config, &["git".to_string()], &host()).unwrap();

    assert_eq!(resolved.env, vec!["BASE=1", "GIT=1"]);
    assert_eq!(resolved.get_mount_specs(MountMode::Ro, true), vec!["~/.gitconfig"]);
}

#[test]
fn test_resolve_profiles_with_extends() {
    let mut config = make_test_config();
    config.profiles.insert(
        "base".to_string(),
        ProfileConfig {
            extends: vec![],
            mounts: MountsConfig {
                ro: MountPaths { absolute: vec!["/nix/store".to_string()], home_relative: vec![] },
                ..Default::default()
            },
            env: vec!["PROFILE_BASE=1".to_string()],
            env_passthrough: vec![],
            ports: vec![],
            hosts: vec![],
            context: String::new(),
        },
    );
    config.profiles.insert(
        "git".to_string(),
        ProfileConfig {
            extends: vec!["base".to_string()],
            mounts: MountsConfig {
                ro: MountPaths { absolute: vec![], home_relative: vec!["~/.gitconfig".to_string()] },
                ..Default::default()
            },
            env: vec!["GIT=1".to_string()],
            env_passthrough: vec![],
            ports: vec![],
            hosts: vec![],
            context: String::new(),
        },
    );

    let resolved = resolve_profiles(&config, &["git".to_string()], &host()).unwrap();

    assert_eq!(resolved.env, vec!["BASE=1", "PROFILE_BASE=1", "GIT=1"]);
    assert_eq!(resolved.get_mount_specs(MountMode::Ro, false), vec!["/nix/store"]);
    assert_eq!(resolved.get_mount_specs(MountMode::Ro, true), vec!["~/.gitconfig"]);
}

#[test]
fn test_resolve_profiles_with_default_profile() {
    let mut config = make_test_config();
    config.default_profile = Some("base".to_string());
    config.profiles.insert("base".to_string(), env_profile(&[], &["DEFAULT=1"]));
    config.profiles.insert("extra".to_string(), env_profile(&[], &["EXTRA=1"]));

    let resolved = resolve_profiles(&config, &["extra".to_string()], &host()).unwrap();

    assert_eq!(resolved.env, vec!["BASE=1", "DEFAULT=1", "EXTRA=1"]);
}

#[test]
fn test_resolve_profiles_multiple_cli_profiles() {
    let mut config = make_test_config();
    config.profiles.insert("git".to_string(), env_profile(&[], &["GIT=1"]));
    config.profiles.insert("rust".to_string(), env_profile(&[], &["RUST=1"]));

    let resolved =
        resolve_profiles(&config, &["git".to_string(), "rust".to_string()], &host()).unwrap();

    assert_eq!(resolved.env, vec!["BASE=1", "GIT=1", "RUST=1"]);
}

#[test]
fn test_resolve_profiles_diamond_inheritance() {
    let mut config = make_test_config();
    config.profiles.insert("base".to_string(), env_profile(&[], &["BASE_PROFILE=1"]));
    config.profiles.insert("git".to_string(), env_profile(&["base"], &["GIT=1"]));
    config.profiles.insert("jj".to_string(), env_profile(&["base"], &["JJ=1"]));
    config.profiles.insert("dev".to_string(), env_profile(&["git", "jj"], &["DEV=1"]));

    let resolved = resolve_profiles(&config, &["dev".to_string()], &host()).unwrap();

    assert_eq!(
        resolved.env,
        vec!["BASE=1", "BASE_PROFILE=1", "GIT=1", "BASE_PROFILE=1", "JJ=1", "DEV=1"]
    );
}

#[test]
fn test_resolve_profiles_circular_dependency_detected() {
    let mut config = make_test_config();
    config.profiles.insert("a".to_string(), env_profile(&["b"], &[]));
    config.profiles.insert("b".to_string(), env_profile(&["a"], &[]));

    let result = resolve_profiles(&config, &["a".to_string()], &host());
    assert!(result.is_err());
    let err = result.unwrap_err().message();
    assert!(err.contains("Circular"));
}

#[test]
fn test_resolve_profiles_self_reference_detected() {
    let mut config = make_test_config();
    config.profiles.insert("self".to_string(), env_profile(&["self"], &[]));

    let result = resolve_profiles(&config, &["self".to_string()], &host());
    assert!(result.is_err());
    assert!(result.unwrap_err().message().contains("Circular"));
}

#[test]
fn test_resolve_profiles_unknown_profile_error() {
    let config = make_test_config();

    let result = resolve_profiles(&config, &["nonexistent".to_string()], &host());
    assert!(result.is_err());
    let err = result.unwrap_err().message();
    assert!(err.contains("Unknown profile"));
    assert!(err.contains("nonexistent"));
}

#[test]
fn test_resolve_profiles_unknown_extends_error() {
    let mut config = make_test_config();
    config.profiles.insert("broken".to_string(), env_profile(&["nonexistent"], &[]));

    let result = resolve_profiles(&config, &["broken".to_string()], &host());
    assert!(result.is_err());
    assert!(result.unwrap_err().message().contains("Unknown profile"));
}

#[test]
fn test_resolve_profiles_mounts_merge_correctly() {
    let mut config = make_test_config();
    config.runtime.mounts.ro.absolute = vec!["/runtime".to_string()];
    config.profiles.insert(
        "base".to_string(),
        ProfileConfig {
            extends: vec![],
            mounts: MountsConfig {
                ro: MountPaths {
                    absolute: vec!["/base".to_string()],
                    home_relative: vec!["~/.base".to_string()],
                },
                rw: MountPaths { absolute: vec![], home_relative: vec!["~/.base-rw".to_string()] },
                o: MountPaths::default(),
            },
            env: vec![],
            env_passthrough: vec![],
            ports: vec![],
            hosts: vec![],
            context: String::new(),
        },
    );
    config.profiles.insert(
        "extra".to_string(),
        ProfileConfig {
            extends: vec!["base".to_string()],
            mounts: MountsConfig {
                ro: MountPaths { absolute: vec!["/extra".to_string()], home_relative: vec![] },
                rw: MountPaths::default(),
                o: MountPaths { absolute: vec![], home_relative: vec!["~/.extra-o".to_string()] },
            },
            env: vec![],
            env_passthrough: vec![],
            ports: vec![],
            hosts: vec![],
            context: String::new(),
        },
    );

    let resolved = resolve_profiles(&config, &["extra".to_string()], &host()).unwrap();

    assert_eq!(resolved.get_mount_specs(MountMode::Ro, false), vec!["/runtime", "/base", "/extra"]);
    assert_eq!(resolved.get_mount_specs(MountMode::Ro, true), vec!["~/.base"]);
    assert_eq!(resolved.get_mount_specs(MountMode::Rw, true), vec!["~/.base-rw"]);
    assert_eq!(resolved.get_mount_specs(MountMode::Overlay, true), vec!["~/.extra-o"]);
}

#[test]
fn test_resolve_profiles_mounts_deduplicated() {
    let mut config = make_test_config();
    config.runtime.mounts.ro.absolute = vec!["/nix/store".to_string()];
    config.profiles.insert(
        "base".to_string(),
        ProfileConfig {
            extends: vec![],
            mounts: MountsConfig {
                ro: MountPaths {
                    absolute: vec!["/nix/store".to_string(), "/base-only".to_string()],
                    home_relative: vec!["~/.config".to_string()],
                },
                ..Default::default()
            },
            env: vec![],
            env_passthrough: vec![],
            ports: vec![],
            hosts: vec![],
            context: String::new(),
        },
    );
    config.profiles.insert(
        "extra".to_string(),
        ProfileConfig {
            extends: vec![],
            mounts: MountsConfig {
                ro: MountPaths {
                    absolute: vec!["/nix/store".to_string(), "/extra-only".to_string()],
                    home_relative: vec!["~/.config".to_string()],
                },
                ..Default::default()
            },
            env: vec![],
            env_passthrough: vec![],
            ports: vec![],
            hosts: vec![],
            context: String::new(),
        },
    );

    let resolved =
        resolve_profiles(&config, &["base".to_string(), "extra".to_string()], &host()).unwrap();

    assert_eq!(
        resolved.get_mount_specs(MountMode::Ro, false),
        vec!["/nix/store", "/base-only", "/extra-only"]
    );
    assert_eq!(resolved.get_mount_specs(MountMode::Ro, true), vec!["~/.config"]);
}

fn ro_profile(extends: &[&str], absolute: &[&str], home_relative: &[&str]) -> ProfileConfig {
    ProfileConfig {
        extends: extends.iter().map(|s| s.to_string()).collect(),
        mounts: MountsConfig {
            ro: MountPaths {
                absolute: absolute.iter().map(|s| s.to_string()).collect(),
                home_relative: home_relative.iter().map(|s| s.to_string()).collect(),
            },
            ..Default::default()
        },
        env: vec![],
        env_passthrough: vec![],
        ports: vec![],
        hosts: vec![],
        context: String::new(),
    }
}

#[test]
fn test_resolve_profiles_diamond_mounts_deduplicated() {
    let mut config = make_test_config();
    config.profiles.insert("base".to_string(), ro_profile(&[], &["/nix/store"], &["~/.config"]));
    config.profiles.insert("git".to_string(), ro_profile(&["base"], &[], &["~/.gitconfig"]));
    config.profiles.insert("jj".to_string(), ro_profile(&["base"], &[], &["~/.jjconfig.toml"]));
    config.profiles.insert("dev".to_string(), env_profile(&["git", "jj"], &[]));

    let resolved = resolve_profiles(&config, &["dev".to_string()], &host()).unwrap();

    assert_eq!(resolved.get_mount_specs(MountMode::Ro, false), vec!["/nix/store"]);
    assert_eq!(
        resolved.get_mount_specs(MountMode::Ro, true),
        vec!["~/.config", "~/.gitconfig", "~/.jjconfig.toml"]
    );
}

#[test]
fn test_validate_config_valid() {
    let mut config = make_test_config();
    config.default_profile = Some("base".to_string());
    config.profiles.insert("base".to_string(), env_profile(&[], &["A=1"]));

    let result = validate_config(&config);
    assert!(result.is_ok());
    assert!(result.errors.is_empty());
}

#[test]
fn test_validate_config_invalid_default_profile() {
    let mut config = make_test_config();
    config.default_profile = Some("nonexistent".to_string());

    let result = validate_config(&config);
    assert!(!result.is_ok());
    assert_eq!(result.errors.len(), 1);
    assert!(result.errors[0].message.contains("default_profile"));
    assert!(result.errors[0].message.contains("nonexistent"));
}

#[test]
fn test_validate_config_invalid_extends() {
    let mut config = make_test_config();
    config.profiles.insert("broken".to_string(), env_profile(&["nonexistent"], &[]));

    let result = validate_config(&config);
    assert!(!result.is_ok());
    assert_eq!(result.errors.len(), 1);
    assert!(result.errors[0].message.contains("nonexistent"));
    assert_eq!(result.errors[0].profile_name, Some("broken".to_string()));
}

#[test]
fn test_validate_config_self_reference() {
    let mut config = make_test_config();
    config.profiles.insert("self_ref".to_string(), env_profile(&["self_ref"], &[]));

    let result = validate_config(&config);
    assert!(!result.is_ok());
    assert!(result.errors.iter().any(|e| e.message.contains("self-reference")));
}

#[test]
fn test_validate_config_circular_dependency() {
    let mut config = make_test_config();
    config.profiles.insert("a".to_string(), env_profile(&["b"], &[]));
    config.profiles.insert("b".to_string(), env_profile(&["c"], &[]));
    config.profiles.insert("c".to_string(), env_profile(&["a"], &[]));

    let result = validate_config(&config);
    assert!(!result.is_ok());
    assert!(result.errors.iter().any(|e| e.message.contains("circular")));
}

#[test]
fn test_validate_config_empty_profile_warning() {
    let mut config = make_test_config();
    config.profiles.insert("empty".to_string(), env_profile(&[], &[]));

    let result = validate_config(&config);
    assert!(result.is_ok());
    assert!(result.has_warnings());
    assert!(result.warnings[0]
        .message
        .contains("no mounts, env, env_passthrough, ports, hosts, context, or extends"));
}

#[test]
fn test_validate_config_multiple_errors() {
    let mut config = make_test_config();
    config.default_profile = Some("nonexistent".to_string());
    config.profiles.insert("broken1".to_string(), env_profile(&["also_nonexistent"], &[]));
    config.profiles.insert("broken2".to_string(), env_profile(&["broken2"], &[]));

    let result = validate_config(&config);
    assert!(!result.is_ok());
    assert!(result.errors.len() >= 3);
}

#[test]
fn test_validate_config_or_err_success() {
    let mut config = make_test_config();
    config.profiles.insert("valid".to_string(), env_profile(&[], &["A=1"]));

    let result = validate_config_or_err(&config);
    assert!(result.is_ok());
}

#[test]
fn test_validate_config_or_err_failure() {
    let mut config = make_test_config();
    config.default_profile = Some("nonexistent".to_string());

    let result = validate_config_or_err(&config);
    assert!(result.is_err());
    let err = result.unwrap_err().message();
    assert!(err.contains("validation failed"));
    assert!(err.contains("nonexistent"));
}

#[test]
fn test_validate_config_no_profiles_is_valid() {
    let config = make_test_config();

    let result = validate_config(&config);
    assert!(result.is_ok());
    assert!(!result.has_warnings());
}

#[test]
fn test_validate_config_deep_valid_chain() {
    let mut config = make_test_config();
    config.profiles.insert("a".to_string(), env_profile(&[], &["A=1"]));
    config.profiles.insert("b".to_string(), env_profile(&["a"], &["B=1"]));
    config.profiles.insert("c".to_string(), env_profile(&["b"], &["C=1"]));
    config.profiles.insert("d".to_string(), env_profile(&["c"], &["D=1"]));
    config.default_profile = Some("d".to_string());

    let result = validate_config(&config);
    assert!(result.is_ok());
}

fn context_profile(extends: &[&str], context: &str) -> ProfileConfig {
    ProfileConfig { context: context.to_string(), ..env_profile(extends, &[]) }
}

#[test]
fn test_resolve_profiles_context_merged() {
    let mut config = make_test_config();
    config.context = "root-context".to_string();
    config.profiles.insert("base".to_string(), context_profile(&[], "base-context"));
    config.profiles.insert("extended".to_string(), context_profile(&["base"], "extended-context"));

    let resolved = resolve_profiles(&config, &["extended".to_string()], &host()).unwrap();

    assert_eq!(resolved.context, vec!["root-context", "base-context", "extended-context"]);
}

#[test]
fn test_resolve_profiles_context_from_root_only() {
    let mut config = make_test_config();
    config.context = "root-context".to_string();

    let resolved = resolve_profiles(&config, &[], &host()).unwrap();

    assert_eq!(resolved.context, vec!["root-context"]);
}

#[test]
fn test_resolve_profiles_context_from_profile_only() {
    let mut config = make_test_config();
    config.profiles.insert("with_context".to_string(), context_profile(&[], "profile-context"));

    let resolved = resolve_profiles(&config, &["with_context".to_string()], &host()).unwrap();

    assert_eq!(resolved.context, vec!["profile-context"]);
}

// Further cases of this library.

#[test]
fn collect_profiles_puts_default_first() {
    let mut config = make_test_config();
    config.default_profile = Some("base".to_string());
    let names = vec!["git".to_string(), "rust".to_string()];
    assert_eq!(collect_profiles_to_apply(&config, &names), vec!["base", "git", "rust"]);
    config.default_profile = None;
    assert_eq!(collect_profiles_to_apply(&config, &names), vec!["git", "rust"]);
}

#[test]
fn valid_config_resolves_every_defined_profile() {
    let mut config = make_test_config();
    config.profiles.insert("base".to_string(), env_profile(&[], &["A=1"]));
    config.profiles.insert("dev".to_string(), env_profile(&["base"], &["B=1"]));
    config.default_profile = Some("base".to_string());
    assert!(validate_config(&config).is_ok());
    for name in ["base", "dev"] {
        assert!(resolve_profiles(&config, &[name.to_string()], &host()).is_ok());
    }
}

#[test]
fn ports_and_hosts_keep_first_occurrence() {
    let mut config = make_test_config();
    config.runtime.ports = vec!["8080:8080".to_string(), "3000".to_string()];
    config.runtime.hosts = vec!["a:1".to_string()];
    config.profiles.insert(
        "p".to_string(),
        ProfileConfig {
            ports: vec!["3000".to_string(), "9090".to_string(), "8080:8080".to_string()],
            hosts: vec!["a:1".to_string(), "b:2".to_string()],
            ..env_profile(&[], &[])
        },
    );
    let resolved = resolve_profiles(&config, &["p".to_string()], &host()).unwrap();
    assert_eq!(resolved.ports, vec!["8080:8080", "3000", "9090"]);
    assert_eq!(resolved.hosts, vec!["a:1", "b:2"]);
}

#[test]
fn circular_error_names_the_chain() {
    let mut config = make_test_config();
    config.profiles.insert("a".to_string(), env_profile(&["b"], &[]));
    config.profiles.insert("b".to_string(), env_profile(&["a"], &[]));
    let err = resolve_profiles(&config, &["a".to_string()], &host()).unwrap_err().message();
    assert_eq!(
        err,
        "Circular profile dependency detected: 'a' was already visited in chain: {\"a\", \"b\"}"
    );
}

#[test]
fn unknown_error_lists_available_profiles() {
    let mut config = make_test_config();
    config.profiles.insert("x".to_string(), env_profile(&[], &["X=1"]));
    let err = resolve_profiles(&config, &["y".to_string()], &host()).unwrap_err().message();
    assert_eq!(err, "Unknown profile 'y'. Available profiles: [\"x\"]");
}

#[test]
fn validation_messages_are_exact() {
    let mut config = make_test_config();
    config.default_profile = Some("nope".to_string());
    config.profiles.insert("a".to_string(), env_profile(&["b"], &[]));
    config.profiles.insert("b".to_string(), env_profile(&["a"], &[]));
    let result = validate_config(&config);
    assert_eq!(result.errors.len(), 3);
    assert_eq!(
        result.errors[0].message,
        "default_profile 'nope' is not defined. Available profiles: [\"a\", \"b\"]"
    );
    assert_eq!(result.errors[1].to_display_string(), "Profile 'a': circular dependency detected: a -> b -> a");
    assert_eq!(result.errors[2].message, "circular dependency detected: b -> a -> b");
    let err = validate_config_or_err(&config).unwrap_err().message();
    assert!(err.starts_with("Configuration validation failed:\n  - default_profile 'nope'"));
}

#[test]
fn mount_mode_text_round_trips() {
    for m in [MountMode::Ro, MountMode::Rw, MountMode::Overlay] {
        assert_eq!(MountMode::parse(m.as_str()).unwrap(), m);
    }
    assert_eq!(MountMode::parse("o").unwrap(), MountMode::Overlay);
    assert!(MountMode::parse("x").is_err());
}

#[test]
fn bind_string_joins_with_colons() {
    let m = ResolvedMount { host: "/h".to_string(), container: "/c".to_string(), mode: MountMode::Overlay };
    assert_eq!(m.to_bind_string(), "/h:/c:O");
}

#[test]
fn mounts_with_same_resolved_paths_are_equal() {
    let a = Mount { spec: "~/x".to_string(), home_relative: true, mode: MountMode::Ro };
    let b = Mount { spec: "/home/user/x".to_string(), home_relative: true, mode: MountMode::Ro };
    let c = Mount { spec: "/home/user/x".to_string(), home_relative: true, mode: MountMode::Rw };
    assert!(a == b);
    assert!(a != c);
}

#[test]
fn container_home_prefers_user_then_logname() {
    assert_eq!(container_home_for(Some("ann"), Some("bob")), "/home/ann");
    assert_eq!(container_home_for(None, Some("bob")), "/home/bob");
    assert_eq!(container_home_for(None, None), "/home/user");
}

#[test]
fn entrypoint_is_split_like_a_shell() {
    assert_eq!(
        parse_entrypoint(Some("git commit -m 'some message with spaces'".to_string())).unwrap(),
        Some(vec!["git".to_string(), "commit".to_string(), "-m".to_string(), "some message with spaces".to_string()])
    );
    assert_eq!(
        parse_entrypoint(Some("echo \"hello world\"".to_string())).unwrap(),
        Some(vec!["echo".to_string(), "hello world".to_string()])
    );
    assert_eq!(parse_entrypoint(None).unwrap(), None);
    let err = parse_entrypoint(Some("echo 'open".to_string())).unwrap_err();
    assert_eq!(err.entrypoint, "echo 'open");
    assert_eq!(err.message(), "missing closing quote");
}

#[test]
fn symlink_chain_steps() {
    let m = Mount { spec: "~/.config".to_string(), home_relative: true, mode: MountMode::Ro };
    let seen: Vec<String> = vec!["/data/real".to_string()];
    match m.chain_step("/home/u/.config", "/data/cfg", &seen, Some("../store/cfg"), "/home/u", "/home/c") {
        ChainStep::Link { mount, next } => {
            assert_eq!(mount.host, "/home/u/.config");
            assert_eq!(mount.container, "/home/c/.config");
            assert_eq!(next, "/home/u/../store/cfg");
        }
        other => panic!("unexpected {other:?}"),
    }
    match m.chain_step("/home/u/x", "/home/u/y", &seen, Some("/abs/t"), "/home/u", "/home/c") {
        ChainStep::Link { next, .. } => assert_eq!(next, "/abs/t"),
        other => panic!("unexpected {other:?}"),
    }
    match m.chain_step("/home/u/.config/z", "/home/u/.config/z", &seen, None, "/home/u", "/home/c") {
        ChainStep::Target { mount } => assert_eq!(mount.container, "/home/c/.config/z"),
        other => panic!("unexpected {other:?}"),
    }
    assert!(matches!(m.chain_step("/x", "/data/real", &seen, None, "/home/u", "/home/c"), ChainStep::Done));
}

#[test]
fn home_paths_need_a_slash_after_the_tilde() {
    let m = Mount { spec: "~foo".to_string(), home_relative: true, mode: MountMode::Ro };
    match m.resolve_paths("/home/u", "/home/c") {
        Err(agent_box_common::config::MountError::InvalidPath { path, host_side, .. }) => {
            assert_eq!(path, "~foo");
            assert!(host_side);
        }
        other => panic!("unexpected {other:?}"),
    }
    let m = Mount { spec: "/a:~bar".to_string(), home_relative: false, mode: MountMode::Ro };
    match m.resolve_paths("/home/u", "/home/c") {
        Err(agent_box_common::config::MountError::InvalidPath { path, host_side, .. }) => {
            assert_eq!(path, "~bar");
            assert!(!host_side);
        }
        other => panic!("unexpected {other:?}"),
    }
    let m = Mount { spec: "~".to_string(), home_relative: true, mode: MountMode::Ro };
    let (h, c) = m.resolve_paths("/home/u", "/home/c").unwrap();
    assert_eq!(h, "/home/u");
    assert_eq!(c, "/home/c");
    let m = Mount { spec: "~/x:~/y".to_string(), home_relative: false, mode: MountMode::Ro };
    let (h, c) = m.resolve_paths("/home/u", "/home/c").unwrap();
    assert_eq!(h, "/home/u/x");
    assert_eq!(c, "/home/c/y");
}
