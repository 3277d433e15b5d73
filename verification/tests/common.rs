use cargo_version_info::common::{
    detect_repo, extract_package_version, extract_workspace_version, get_owner_repo,
    get_package_version, repo_from_remote_url, repo_from_variable, CommonError, PackageInfo,
    WorkspaceInfo,
};

#[test]
fn test_get_owner_repo_both_provided() {
    let result = get_owner_repo(Some("owner".to_string()), Some("repo".to_string()));
    assert!(result.is_ok());
    assert_eq!(result.unwrap(), Some(("owner".to_string(), "repo".to_string())));
}

#[test]
fn test_get_owner_repo_only_owner() {
    let result = get_owner_repo(Some("owner".to_string()), None);
    assert!(result.is_err());
    assert!(result
        .unwrap_err()
        .to_string()
        .contains("Both --owner and --repo must be provided"));
}

#[test]
fn test_get_owner_repo_only_repo() {
    let result = get_owner_repo(None, Some("repo".to_string()));
    assert!(result.is_err());
    assert!(result
        .unwrap_err()
        .to_string()
        .contains("Both --owner and --repo must be provided"));
}

#[test]
fn get_owner_repo_neither_asks_for_detection() {
    assert_eq!(get_owner_repo(None, None), Ok(None));
}

#[test]
fn test_extract_workspace_version() {
    let content = r#"
[workspace.package]
version = "0.1.2"
"#;
    assert_eq!(extract_workspace_version(content), Some("0.1.2".to_string()));
}

#[test]
fn test_extract_workspace_version_with_spaces() {
    let content = r#"
[workspace.package]
version = "1.2.3"
"#;
    assert_eq!(extract_workspace_version(content), Some("1.2.3".to_string()));
}

#[test]
fn test_extract_workspace_version_not_found() {
    let content = r#"
[package]
version = "0.1.2"
"#;
    assert_eq!(extract_workspace_version(content), None);
}

#[test]
fn test_extract_package_version() {
    let content = r#"
[package]
name = "test"
version = "0.1.2"
"#;
    assert_eq!(extract_package_version(content).unwrap(), "0.1.2".to_string());
}

#[test]
fn test_extract_package_version_with_spaces() {
    let content = r#"
[package]
name = "test"
version = "1.2.3"
"#;
    assert_eq!(extract_package_version(content).unwrap(), "1.2.3".to_string());
}

#[test]
fn test_extract_package_version_not_found() {
    let content = r#"
[package]
name = "test"
"#;
    assert!(extract_package_version(content).is_err());
}

#[test]
fn test_extract_workspace_version_precedence() {
    // Workspace version should be found even if package version exists
    let content = r#"
[workspace.package]
version = "0.1.0"

[package]
name = "test"
version = "0.1.2"
"#;
    assert_eq!(extract_workspace_version(content), Some("0.1.0".to_string()));
}

#[test]
fn extract_version_errors() {
    assert_eq!(extract_package_version("[package"), Err(CommonError::ManifestUnreadable));
    assert_eq!(
        extract_package_version("[package]\nname = \"x\"\n"),
        Err(CommonError::NoPackageVersion)
    );
    assert_eq!(
        extract_package_version("[package]\nversion = 3\n"),
        Err(CommonError::NoPackageVersion)
    );
    assert_eq!(
        extract_package_version("package = \"text\"\n"),
        Err(CommonError::NoPackageVersion)
    );
    assert_eq!(
        extract_package_version("[package.version]\nworkspace = true\n"),
        Err(CommonError::NoPackageVersion)
    );
    assert_eq!(extract_workspace_version("not toml at all ["), None);
    assert_eq!(extract_workspace_version("[workspace]\nmembers = []\n"), None);
    assert_eq!(extract_workspace_version(""), None);
}

#[test]
fn error_messages() {
    assert_eq!(
        CommonError::OwnerRepoMismatch.to_string(),
        "Both --owner and --repo must be provided together"
    );
    assert_eq!(
        CommonError::RepoNotDetected.to_string(),
        "Could not detect GitHub repository. Set GITHUB_REPOSITORY or use --owner/--repo flags"
    );
    assert_eq!(CommonError::ManifestUnreadable.to_string(), "Failed to parse Cargo.toml");
    assert_eq!(
        CommonError::NoPackageVersion.to_string(),
        "No version found in `[package]` section"
    );
    assert_eq!(CommonError::NoPackage.to_string(), "No package found in metadata");
}

fn pair(a: &str, b: &str) -> Option<(String, String)> {
    Some((a.to_string(), b.to_string()))
}

#[test]
fn repo_from_variable_needs_exactly_two_parts() {
    assert_eq!(repo_from_variable("owner/repo"), pair("owner", "repo"));
    assert_eq!(repo_from_variable("owner/"), pair("owner", ""));
    assert_eq!(repo_from_variable("/repo"), pair("", "repo"));
    assert_eq!(repo_from_variable("/"), pair("", ""));
    assert_eq!(repo_from_variable("owner"), None);
    assert_eq!(repo_from_variable(""), None);
    assert_eq!(repo_from_variable("a/b/c"), None);
}

#[test]
fn repo_from_remote_url_reads_both_forms() {
    assert_eq!(repo_from_remote_url("git@github.com:owner/repo.git"), pair("owner", "repo"));
    assert_eq!(repo_from_remote_url("git@github.com:owner/repo"), pair("owner", "repo"));
    assert_eq!(repo_from_remote_url("https://github.com/owner/repo.git"), pair("owner", "repo"));
    assert_eq!(repo_from_remote_url("https://github.com/owner/repo"), pair("owner", "repo"));
    assert_eq!(repo_from_remote_url("https://github.com/owner/repo/extra"), pair("owner", "repo"));
    assert_eq!(repo_from_remote_url("https://github.com/owner"), None);
    assert_eq!(repo_from_remote_url("https://gitlab.com/owner/repo"), None);
    assert_eq!(repo_from_remote_url("git@github.com:owner.git"), None);
    assert_eq!(repo_from_remote_url(""), None);
}

#[test]
fn detect_repo_prefers_the_variable() {
    assert_eq!(
        detect_repo(Some("env/one"), Some("https://github.com/url/two")),
        Ok(("env".to_string(), "one".to_string()))
    );
    assert_eq!(
        detect_repo(Some("no-slash"), Some("https://github.com/url/two.git")),
        Ok(("url".to_string(), "two".to_string()))
    );
    assert_eq!(
        detect_repo(None, Some("git@github.com:url/two.git")),
        Ok(("url".to_string(), "two".to_string()))
    );
    assert_eq!(detect_repo(None, None), Err(CommonError::RepoNotDetected));
    assert_eq!(detect_repo(Some("a/b/c"), None), Err(CommonError::RepoNotDetected));
    assert_eq!(
        detect_repo(None, Some("ssh://example.com/a/b")),
        Err(CommonError::RepoNotDetected)
    );
}

fn package(id: &str, version: &str) -> PackageInfo {
    PackageInfo { id: id.to_string(), version: version.to_string() }
}

#[test]
fn package_version_choice() {
    let packages = vec![package("a", "1.0.0"), package("b", "2.0.0"), package("c", "3.0.0")];
    let root_member = WorkspaceInfo {
        packages: packages.clone(),
        workspace_members: vec!["a".to_string(), "b".to_string()],
        root: Some("b".to_string()),
    };
    assert_eq!(get_package_version(&root_member), Ok("2.0.0".to_string()));
    let root_outside = WorkspaceInfo {
        packages: packages.clone(),
        workspace_members: vec!["a".to_string()],
        root: Some("c".to_string()),
    };
    assert_eq!(get_package_version(&root_outside), Ok("1.0.0".to_string()));
    let no_root = WorkspaceInfo {
        packages: packages.clone(),
        workspace_members: vec!["c".to_string(), "a".to_string()],
        root: None,
    };
    assert_eq!(get_package_version(&no_root), Ok("3.0.0".to_string()));
    let member_unknown = WorkspaceInfo {
        packages: packages.clone(),
        workspace_members: vec!["x".to_string()],
        root: Some("c".to_string()),
    };
    assert_eq!(get_package_version(&member_unknown), Ok("3.0.0".to_string()));
    let no_members = WorkspaceInfo {
        packages: packages.clone(),
        workspace_members: Vec::new(),
        root: Some("a".to_string()),
    };
    assert_eq!(get_package_version(&no_members), Ok("1.0.0".to_string()));
    let nothing = WorkspaceInfo {
        packages: packages.clone(),
        workspace_members: Vec::new(),
        root: None,
    };
    assert_eq!(get_package_version(&nothing), Err(CommonError::NoPackage));
    let root_unknown = WorkspaceInfo {
        packages,
        workspace_members: vec!["x".to_string()],
        root: Some("y".to_string()),
    };
    assert_eq!(get_package_version(&root_unknown), Err(CommonError::NoPackage));
}
