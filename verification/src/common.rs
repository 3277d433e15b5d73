//! What the commands share: the repository they speak of and the version of
//! the package they run in.

use vstd::prelude::*;

use crate::manifest::{
    parse_toml, string_at, string_at_three, string_at_two, toml_document,
};
use crate::text::{
    chars_of, split, split_chars, string_of, strip_prefix, strip_suffix, strs_equal, texts_view,
    without_prefix, without_suffix,
};

verus! {

/// Errors of the shared helpers.
#[derive(Clone, Copy, Debug, PartialEq, Eq, Structural)]
pub enum CommonError {
    /// Only one of owner and repository was given.
    OwnerRepoMismatch,
    /// Neither the environment nor the remote names a GitHub repository.
    RepoNotDetected,
    /// The manifest is no TOML document.
    ManifestUnreadable,
    /// The manifest has no string under `package.version`.
    NoPackageVersion,
    /// The metadata names no package to take the version from.
    NoPackage,
}

impl CommonError {
    /// The message of this error.
    pub fn to_string(&self) -> (message: String)
        ensures
            message@ == (match *self {
                CommonError::OwnerRepoMismatch =>
                    "Both --owner and --repo must be provided together"@,
                CommonError::RepoNotDetected =>
                    "Could not detect GitHub repository. Set GITHUB_REPOSITORY or use --owner/--repo flags"@,
                CommonError::ManifestUnreadable => "Failed to parse Cargo.toml"@,
                CommonError::NoPackageVersion => "No version found in `[package]` section"@,
                CommonError::NoPackage => "No package found in metadata"@,
            }),
    {
        match self {
            CommonError::OwnerRepoMismatch =>
                "Both --owner and --repo must be provided together".to_owned(),
            CommonError::RepoNotDetected =>
                "Could not detect GitHub repository. Set GITHUB_REPOSITORY or use --owner/--repo flags".to_owned(),
            CommonError::ManifestUnreadable => "Failed to parse Cargo.toml".to_owned(),
            CommonError::NoPackageVersion => "No version found in `[package]` section".to_owned(),
            CommonError::NoPackage => "No package found in metadata".to_owned(),
        }
    }
}

/// The owner and the repository as the arguments give them.
///
/// Both given: they are the answer. Neither given: `None`, and the caller has
/// to detect the repository. Only one given: an error.
pub fn get_owner_repo(
    owner: Option<String>,
    repo: Option<String>,
) -> (result: Result<Option<(String, String)>, CommonError>)
    ensures
        match (owner, repo) {
            (Some(o), Some(r)) => result == Ok::<Option<(String, String)>, CommonError>(
                Some((o, r)),
            ),
            (None, None) => result == Ok::<Option<(String, String)>, CommonError>(None),
            _ => result == Err::<Option<(String, String)>, CommonError>(
                CommonError::OwnerRepoMismatch,
            ),
        },
{
    match (owner, repo) {
        (Some(o), Some(r)) => Ok(Some((o, r))),
        (None, None) => Ok(None),
        _ => Err(CommonError::OwnerRepoMismatch),
    }
}

/// The owner and the repository that `GITHUB_REPOSITORY` names: its two
/// parts, where a slash parts it in exactly two.
pub open spec fn repo_in_variable(value: Seq<char>) -> Option<(Seq<char>, Seq<char>)> {
    let parts = split(value, '/');
    if parts.len() == 2 {
        Some((parts[0], parts[1]))
    } else {
        None
    }
}

/// The part of a remote URL that names owner and repository: what follows
/// `git@github.com:` or `https://github.com/`, without `.git` at its end.
pub open spec fn repo_part_of_url(url: Seq<char>) -> Option<Seq<char>> {
    let rest = match without_prefix(url, "git@github.com:"@) {
        Some(rest) => Some(rest),
        None => without_prefix(url, "https://github.com/"@),
    };
    match rest {
        Some(rest) => match without_suffix(rest, ".git"@) {
            Some(trimmed) => Some(trimmed),
            None => Some(rest),
        },
        None => None,
    }
}

/// The owner and the repository that a remote URL names: the first two of
/// the parts that slashes make of `repo_part_of_url`.
pub open spec fn repo_in_url(url: Seq<char>) -> Option<(Seq<char>, Seq<char>)> {
    match repo_part_of_url(url) {
        Some(part) => {
            let parts = split(part, '/');
            if parts.len() >= 2 {
                Some((parts[0], parts[1]))
            } else {
                None
            }
        },
        None => None,
    }
}

/// The repository that the environment and the remote name: what
/// `GITHUB_REPOSITORY` names, else what the URL of the remote names.
pub open spec fn detected_repo(
    variable: Option<Seq<char>>,
    url: Option<Seq<char>>,
) -> Option<(Seq<char>, Seq<char>)> {
    let from_variable = match variable {
        Some(v) => repo_in_variable(v),
        None => None,
    };
    match from_variable {
        Some(found) => Some(found),
        None => match url {
            Some(u) => repo_in_url(u),
            None => None,
        },
    }
}

/// The views of an optional pair of strings.
pub open spec fn pair_view(pair: Option<(String, String)>) -> Option<(Seq<char>, Seq<char>)> {
    match pair {
        Some((a, b)) => Some((a@, b@)),
        None => None,
    }
}

/// The view of an optional string.
pub open spec fn text_view(text: Option<&str>) -> Option<Seq<char>> {
    match text {
        Some(t) => Some(t@),
        None => None,
    }
}

/// The owner and the repository that the value of `GITHUB_REPOSITORY` names.
pub fn repo_from_variable(value: &str) -> (found: Option<(String, String)>)
    ensures
        pair_view(found) == repo_in_variable(value@),
{
    let chars = chars_of(value);
    let parts = split_chars(chars.as_slice(), '/');
    proof {
        assert(texts_view(parts@).len() == parts@.len());
    }
    if parts.len() == 2 {
        proof {
            assert(texts_view(parts@)[0] == parts@[0]@);
            assert(texts_view(parts@)[1] == parts@[1]@);
        }
        Some((string_of(parts[0].as_slice()), string_of(parts[1].as_slice())))
    } else {
        None
    }
}

/// The owner and the repository that the URL of a remote names.
pub fn repo_from_remote_url(url: &str) -> (found: Option<(String, String)>)
    ensures
        pair_view(found) == repo_in_url(url@),
{
    let chars = chars_of(url);
    let ssh = chars_of("git@github.com:");
    let https = chars_of("https://github.com/");
    let suffix = chars_of(".git");
    let rest = match strip_prefix(chars.as_slice(), ssh.as_slice()) {
        Some(rest) => Some(rest),
        None => strip_prefix(chars.as_slice(), https.as_slice()),
    };
    match rest {
        None => None,
        Some(rest) => {
            let part = match strip_suffix(rest.as_slice(), suffix.as_slice()) {
                Some(trimmed) => trimmed,
                None => rest,
            };
            assert(repo_part_of_url(url@) == Some(part@));
            let parts = split_chars(part.as_slice(), '/');
            proof {
                assert(texts_view(parts@).len() == parts@.len());
            }
            if parts.len() >= 2 {
                proof {
                    assert(texts_view(parts@)[0] == parts@[0]@);
                    assert(texts_view(parts@)[1] == parts@[1]@);
                }
                Some((string_of(parts[0].as_slice()), string_of(parts[1].as_slice())))
            } else {
                None
            }
        },
    }
}

/// The GitHub repository that the environment and the remote name.
///
/// `github_repository` is the value of `GITHUB_REPOSITORY` where it is set,
/// `remote_url` the URL of the default remote where there is one. The
/// variable goes first.
pub fn detect_repo(
    github_repository: Option<&str>,
    remote_url: Option<&str>,
) -> (result: Result<(String, String), CommonError>)
    ensures
        match detected_repo(text_view(github_repository), text_view(remote_url)) {
            Some(found) => result is Ok && result->Ok_0.0@ == found.0 && result->Ok_0.1@
                == found.1,
            None => result == Err::<(String, String), CommonError>(CommonError::RepoNotDetected),
        },
{
    let from_variable = match github_repository {
        Some(value) => repo_from_variable(value),
        None => None,
    };
    match from_variable {
        Some(found) => Ok(found),
        None => {
            let from_url = match remote_url {
                Some(url) => repo_from_remote_url(url),
                None => None,
            };
            match from_url {
                Some(found) => Ok(found),
                None => Err(CommonError::RepoNotDetected),
            }
        },
    }
}

/// The keys of the version of a workspace.
pub open spec fn workspace_version_keys() -> Seq<Seq<char>> {
    seq!["workspace"@, "package"@, "version"@]
}

/// The keys of the version of a package.
pub open spec fn package_version_keys() -> Seq<Seq<char>> {
    seq!["package"@, "version"@]
}

/// The string under `workspace.package.version` of a manifest, if the
/// manifest is a TOML document that has one.
pub fn extract_workspace_version(content: &str) -> (version: Option<String>)
    ensures
        match version {
            Some(v) => toml_document(content@) is Some && string_at(
                toml_document(content@)->Some_0,
                workspace_version_keys(),
            ) == Some(v@),
            None => toml_document(content@) is None || string_at(
                toml_document(content@)->Some_0,
                workspace_version_keys(),
            ) is None,
        },
{
    match parse_toml(content) {
        None => None,
        Some(value) => string_at_three(&value, "workspace", "package", "version"),
    }
}

/// The string under `package.version` of a manifest.
pub fn extract_package_version(content: &str) -> (version: Result<String, CommonError>)
    ensures
        match version {
            Ok(v) => toml_document(content@) is Some && string_at(
                toml_document(content@)->Some_0,
                package_version_keys(),
            ) == Some(v@),
            Err(e) => if toml_document(content@) is None {
                e == CommonError::ManifestUnreadable
            } else {
                e == CommonError::NoPackageVersion && string_at(
                    toml_document(content@)->Some_0,
                    package_version_keys(),
                ) is None
            },
        },
{
    match parse_toml(content) {
        None => Err(CommonError::ManifestUnreadable),
        Some(value) => match string_at_two(&value, "package", "version") {
            Some(v) => Ok(v),
            None => Err(CommonError::NoPackageVersion),
        },
    }
}

/// A package as the metadata of cargo lists it.
#[derive(Clone, Debug, PartialEq, Eq)]
pub struct PackageInfo {
    pub id: String,
    pub version: String,
}

/// What the metadata of cargo says of a workspace.
#[derive(Clone, Debug, PartialEq, Eq)]
pub struct WorkspaceInfo {
    /// Every package, in the order of the metadata.
    pub packages: Vec<PackageInfo>,
    /// The identities of the members of the workspace, in order.
    pub workspace_members: Vec<String>,
    /// The identity of the root of the dependency graph, if there is one.
    pub root: Option<String>,
}

/// The place of the first package with this identity.
pub open spec fn package_index(packages: Seq<PackageInfo>, id: Seq<char>) -> Option<int> {
    if exists|i: int| 0 <= i < packages.len() && (#[trigger] packages[i]).id@ == id {
        Some(
            choose|i: int|
                0 <= i < packages.len() && (#[trigger] packages[i]).id@ == id && forall|j: int|
                    0 <= j < i ==> (#[trigger] packages[j]).id@ != id,
        )
    } else {
        None
    }
}

/// `id` is one of `members`.
pub open spec fn is_member(members: Seq<String>, id: Seq<char>) -> bool {
    exists|i: int| 0 <= i < members.len() && (#[trigger] members[i])@ == id
}

/// The root package: the first package with the identity of the root.
pub open spec fn root_index(info: WorkspaceInfo) -> Option<int> {
    match info.root {
        Some(root) => package_index(info.packages@, root@),
        None => None,
    }
}

/// The package whose version stands for the workspace: the root package
/// where it is a member, else the package of the first member, else the root
/// package.
pub open spec fn chosen_package(info: WorkspaceInfo) -> Option<int> {
    let root = root_index(info);
    if info.workspace_members@.len() > 0 {
        if root is Some && is_member(info.workspace_members@, info.packages@[root->Some_0].id@) {
            root
        } else {
            match package_index(info.packages@, info.workspace_members@[0]@) {
                Some(i) => Some(i),
                None => root,
            }
        }
    } else {
        root
    }
}

/// The place of the first package with this identity.
pub fn find_package_index(packages: &Vec<PackageInfo>, id: &str) -> (found: Option<usize>)
    ensures
        match found {
            Some(i) => package_index(packages@, id@) == Some(i as int) && i < packages@.len(),
            None => package_index(packages@, id@) is None,
        },
{
    let mut i: usize = 0;
    while i < packages.len()
        invariant
            i <= packages.len(),
            forall|j: int| 0 <= j < i ==> (#[trigger] packages@[j]).id@ != id@,
        decreases packages.len() - i,
    {
        if strs_equal(packages[i].id.as_str(), id) {
            proof {
                let k = choose|k: int|
                    0 <= k < packages@.len() && (#[trigger] packages@[k]).id@ == id@ && forall|
                        j: int,
                    |
                        0 <= j < k ==> (#[trigger] packages@[j]).id@ != id@;
                assert(packages@[i as int].id@ == id@);
                assert(k == i);
            }
            return Some(i);
        }
        i += 1;
    }
    None
}

/// Whether `id` is one of `members`.
pub fn contains_member(members: &Vec<String>, id: &str) -> (found: bool)
    ensures
        found == is_member(members@, id@),
{
    let mut i: usize = 0;
    while i < members.len()
        invariant
            i <= members.len(),
            forall|j: int| 0 <= j < i ==> (#[trigger] members@[j])@ != id@,
        decreases members.len() - i,
    {
        if strs_equal(members[i].as_str(), id) {
            return true;
        }
        i += 1;
    }
    false
}

/// The version of the package that stands for the workspace.
pub fn get_package_version(info: &WorkspaceInfo) -> (version: Result<String, CommonError>)
    ensures
        match chosen_package(*info) {
            Some(i) => version is Ok && 0 <= i < info.packages@.len() && version->Ok_0@
                == info.packages@[i].version@,
            None => version == Err::<String, CommonError>(CommonError::NoPackage),
        },
{
    let root = match &info.root {
        Some(id) => find_package_index(&info.packages, id.as_str()),
        None => None,
    };
    if info.workspace_members.len() > 0 {
        if let Some(r) = root {
            if contains_member(&info.workspace_members, info.packages[r].id.as_str()) {
                return Ok(info.packages[r].version.clone());
            }
        }
        if let Some(i) = find_package_index(
            &info.packages,
            info.workspace_members[0].as_str(),
        ) {
            return Ok(info.packages[i].version.clone());
        }
    }
    match root {
        Some(r) => Ok(info.packages[r].version.clone()),
        None => Err(CommonError::NoPackage),
    }
}

} // verus!
