use cargo_version_info::build_version::{
    build_version, build_version_default, build_version_for_repo, compute_version_string,
    default_args, env_version, format_version_line, is_blank, manifest_path_in,
    manifest_version_to_use, resolve, BuildStep, BuildVersionArgs, BuildVersionError, Lookup,
    Resolution, VersionSource, VersionSources, VersionStep,
};

fn args(format: &str) -> BuildVersionArgs {
    BuildVersionArgs {
        owner: None,
        repo: None,
        github_token: None,
        manifest: "./Cargo.toml".into(),
        repo_path: ".".into(),
        format: format.to_string(),
    }
}

fn nothing() -> VersionSources {
    VersionSources {
        build_version: None,
        version_override: None,
        github_actions: false,
        github_next: Lookup::NotAsked,
        manifest_version: Lookup::NotAsked,
        short_sha: Lookup::NotAsked,
    }
}

fn found(text: &str) -> Lookup {
    Lookup::Found(text.to_string())
}

fn print(line: &str) -> BuildStep {
    BuildStep::Print { line: line.to_string() }
}

#[test]
fn test_build_version_env_priority() {
    let mut sources = nothing();
    sources.build_version = Some("1.2.3".to_string());
    let result = build_version(&args("version"), &sources);
    assert_eq!(result, print("1.2.3"));
}

#[test]
fn test_build_version_env_json() {
    let mut sources = nothing();
    sources.build_version = Some("2.0.0".to_string());
    let result = build_version(&args("json"), &sources);
    assert_eq!(result, print("{\"version\":\"2.0.0\",\"source\":\"environment\"}"));
}

#[test]
fn test_build_version_cargo_pkg_version() {
    let mut sources = nothing();
    sources.manifest_version = found("1.5.0");
    sources.short_sha = Lookup::Missing;
    let result = build_version(&args("version"), &sources);
    assert_eq!(result, print("1.5.0"));
}

#[test]
fn test_build_version_invalid_format() {
    let mut sources = nothing();
    sources.build_version = Some("1.0.0".to_string());
    let result = build_version(&args("invalid"), &sources);
    assert_eq!(
        result,
        BuildStep::Fail { error: BuildVersionError::InvalidFormat { format: "invalid".to_string() } }
    );
}

#[test]
fn test_build_version_empty_env_var() {
    let mut sources = nothing();
    sources.build_version = Some("".to_string());
    // Should fall through to next priority
    let result = build_version(&args("version"), &sources);
    assert_eq!(result, BuildStep::AskManifest { manifest: "./Cargo.toml".to_string() });
}

#[test]
fn test_build_version_override_priority() {
    let mut sources = nothing();
    sources.build_version = Some("1.0.0".to_string());
    sources.version_override = Some("2.0.0".to_string());
    // BUILD_VERSION should take priority
    let result = build_version(&args("version"), &sources);
    assert_eq!(result, print("1.0.0"));
}

#[test]
fn blank_build_version_hides_the_override() {
    assert_eq!(env_version(&Some("  ".to_string()), &Some("2.0.0".to_string())), None);
    assert_eq!(env_version(&None, &Some("2.0.0".to_string())), Some("2.0.0".to_string()));
    assert_eq!(env_version(&None, &Some("\t\n".to_string())), None);
    assert_eq!(env_version(&Some(" 1.0 ".to_string()), &None), Some(" 1.0 ".to_string()));
    assert_eq!(env_version(&None, &None), None);
    assert!(is_blank(""));
    assert!(is_blank(" \t\r\n\u{a0}\u{3000}"));
    assert!(!is_blank(" x "));
    assert!(!is_blank("\u{200b}"));
}

#[test]
fn sources_are_asked_in_order() {
    let mut sources = nothing();
    assert_eq!(resolve(&sources), Resolution::AskManifest);
    sources.github_actions = true;
    assert_eq!(resolve(&sources), Resolution::AskGithub);
    sources.github_next = Lookup::Missing;
    assert_eq!(resolve(&sources), Resolution::AskManifest);
    sources.manifest_version = Lookup::Missing;
    assert_eq!(resolve(&sources), Resolution::AskSha);
    sources.short_sha = Lookup::Missing;
    assert_eq!(resolve(&sources), Resolution::Unavailable);
    sources.short_sha = found("a1b2c3d");
    assert_eq!(
        resolve(&sources),
        Resolution::Version {
            version: "0.0.0-dev-a1b2c3d".to_string(),
            source: VersionSource::Git,
            sha: Some("a1b2c3d".to_string())
        }
    );
    sources.manifest_version = found(" 0.1.2\n");
    assert_eq!(
        resolve(&sources),
        Resolution::Version {
            version: "0.1.2-a1b2c3d".to_string(),
            source: VersionSource::CargoToml,
            sha: None
        }
    );
    sources.github_next = found("0.1.3");
    assert_eq!(
        resolve(&sources),
        Resolution::Version {
            version: "0.1.3".to_string(),
            source: VersionSource::GithubApi,
            sha: None
        }
    );
    sources.github_actions = false;
    assert_eq!(
        resolve(&sources),
        Resolution::Version {
            version: "0.1.2-a1b2c3d".to_string(),
            source: VersionSource::CargoToml,
            sha: None
        }
    );
    sources.version_override = Some("9.9.9".to_string());
    assert_eq!(
        resolve(&sources),
        Resolution::Version {
            version: "9.9.9".to_string(),
            source: VersionSource::Environment,
            sha: None
        }
    );
}

#[test]
fn placeholder_manifest_version_does_not_count() {
    assert_eq!(manifest_version_to_use(&found("0.0.0")), None);
    assert_eq!(manifest_version_to_use(&found(" 0.0.0 ")), None);
    assert_eq!(manifest_version_to_use(&found("")), None);
    assert_eq!(manifest_version_to_use(&found("   ")), None);
    assert_eq!(manifest_version_to_use(&Lookup::Missing), None);
    assert_eq!(manifest_version_to_use(&Lookup::NotAsked), None);
    assert_eq!(manifest_version_to_use(&found("0.0.1")), Some("0.0.1".to_string()));
    assert_eq!(manifest_version_to_use(&found(" 1.2.3 ")), Some("1.2.3".to_string()));
    let mut sources = nothing();
    sources.manifest_version = found("0.0.0");
    sources.short_sha = found("abc1234");
    assert_eq!(build_version(&args("version"), &sources), print("0.0.0-dev-abc1234"));
    assert_eq!(
        build_version(&args("json"), &sources),
        print("{\"version\":\"0.0.0-dev-abc1234\",\"sha\":\"abc1234\",\"source\":\"git\"}")
    );
}

#[test]
fn json_lines_name_the_source() {
    assert_eq!(
        format_version_line("json", "0.1.3", VersionSource::GithubApi, None),
        Ok("{\"version\":\"0.1.3\",\"source\":\"github_api\"}".to_string())
    );
    assert_eq!(
        format_version_line("json", "0.1.2", VersionSource::CargoToml, None),
        Ok("{\"version\":\"0.1.2\",\"source\":\"cargo_toml\"}".to_string())
    );
    assert_eq!(
        format_version_line("json", "0.0.0-dev-a1b2c3d", VersionSource::Git, Some("a1b2c3d")),
        Ok("{\"version\":\"0.0.0-dev-a1b2c3d\",\"sha\":\"a1b2c3d\",\"source\":\"git\"}".to_string())
    );
    assert_eq!(
        format_version_line("version", "1.0.0", VersionSource::Git, Some("a1b2c3d")),
        Ok("1.0.0".to_string())
    );
    let error = format_version_line("Version", "1.0.0", VersionSource::Git, None).unwrap_err();
    assert_eq!(error, BuildVersionError::InvalidFormat { format: "Version".to_string() });
    assert_eq!(error.to_string(), "Invalid format: Version");
    assert_eq!(BuildVersionError::NoCommit.to_string(), "HEAD does not point to a commit");
}

#[test]
fn steps_pass_the_arguments_on() {
    let arguments = BuildVersionArgs {
        owner: Some("o".to_string()),
        repo: Some("r".to_string()),
        github_token: Some("SECRET-REDACTED".to_string()),
        manifest: "m/Cargo.toml".to_string(),
        repo_path: "m".to_string(),
        format: "nonsense".to_string(),
    };
    let mut sources = nothing();
    sources.github_actions = true;
    assert_eq!(
        build_version(&arguments, &sources),
        BuildStep::AskGithub {
            owner: Some("o".to_string()),
            repo: Some("r".to_string()),
            github_token: Some("SECRET-REDACTED".to_string())
        }
    );
    sources.github_next = Lookup::Missing;
    assert_eq!(
        build_version(&arguments, &sources),
        BuildStep::AskManifest { manifest: "m/Cargo.toml".to_string() }
    );
    sources.manifest_version = Lookup::Missing;
    assert_eq!(build_version(&arguments, &sources), BuildStep::AskSha { repo_path: "m".to_string() });
    sources.short_sha = Lookup::Missing;
    assert_eq!(
        build_version(&arguments, &sources),
        BuildStep::Fail { error: BuildVersionError::NoCommit }
    );
}

#[test]
fn default_arguments_of_a_repository() {
    assert_eq!(manifest_path_in("."), "./Cargo.toml");
    assert_eq!(manifest_path_in(""), "Cargo.toml");
    assert_eq!(manifest_path_in("/repo/"), "/repo/Cargo.toml");
    assert_eq!(manifest_path_in("/repo"), "/repo/Cargo.toml");
    assert_eq!(
        default_args("work/repo"),
        BuildVersionArgs {
            owner: None,
            repo: None,
            github_token: None,
            manifest: "work/repo/Cargo.toml".to_string(),
            repo_path: "work/repo".to_string(),
            format: "version".to_string(),
        }
    );
    let sources = nothing();
    assert_eq!(
        build_version_for_repo("work/repo", &sources),
        BuildStep::AskManifest { manifest: "work/repo/Cargo.toml".to_string() }
    );
    assert_eq!(
        build_version_default(&sources),
        BuildStep::AskManifest { manifest: "./Cargo.toml".to_string() }
    );
    let mut answered = nothing();
    answered.manifest_version = Lookup::Missing;
    assert_eq!(build_version_default(&answered), BuildStep::AskSha { repo_path: ".".to_string() });
    answered.build_version = Some("3.2.1".to_string());
    assert_eq!(build_version_default(&answered), print("3.2.1"));
}

#[test]
fn version_string_for_a_build_script() {
    let mut sources = nothing();
    assert_eq!(
        compute_version_string("repo", &sources),
        VersionStep::AskManifest { manifest: "repo/Cargo.toml".to_string() }
    );
    sources.github_actions = true;
    assert_eq!(compute_version_string("repo", &sources), VersionStep::AskGithub);
    sources.github_next = found("1.0.1");
    assert_eq!(
        compute_version_string("repo", &sources),
        VersionStep::Done { version: "1.0.1".to_string() }
    );
    sources.github_next = Lookup::Missing;
    sources.manifest_version = found("0.0.0");
    assert_eq!(
        compute_version_string("repo", &sources),
        VersionStep::AskSha { repo_path: "repo".to_string() }
    );
    sources.short_sha = Lookup::Missing;
    assert_eq!(
        compute_version_string("repo", &sources),
        VersionStep::Fail { error: BuildVersionError::NoCommit }
    );
    sources.short_sha = found("fff0000");
    assert_eq!(
        compute_version_string("repo", &sources),
        VersionStep::Done { version: "0.0.0-dev-fff0000".to_string() }
    );
    sources.build_version = Some("7.0.0".to_string());
    assert_eq!(
        compute_version_string("repo", &sources),
        VersionStep::Done { version: "7.0.0".to_string() }
    );
}
