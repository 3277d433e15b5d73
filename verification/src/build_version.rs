//! The build version: which of several sources gives it, in what order they
//! are asked, and what is printed.
//!
//! The sources are, in this order: the variable `BUILD_VERSION` or, where
//! that is not set, `CARGO_PKG_VERSION_OVERRIDE`; under GitHub Actions the
//! next version that the releases of the repository call for; the version of
//! the manifest, followed by the short hash of the head commit where one can
//! be had; and the short hash alone, as `0.0.0-dev-<hash>`.
//!
//! Nothing here reads a source. `resolve` is given what has been answered so
//! far and says what to ask next, or what the version is.

use vstd::prelude::*;

use crate::text::{chars_equal, chars_of, string_of, strs_equal, trim_chars, trimmed};

verus! {

/// Arguments of the `build-version` command.
#[derive(Clone, Debug, PartialEq, Eq)]
pub struct BuildVersionArgs {
    /// The owner of the repository, for the query of its releases.
    pub owner: Option<String>,
    /// The name of the repository, for the query of its releases.
    pub repo: Option<String>,
    /// The token for the query of the releases.
    pub github_token: Option<String>,
    /// The path of the manifest.
    pub manifest: String,
    /// The path of the repository.
    pub repo_path: String,
    /// `version` for the version alone, `json` for the version and its source.
    pub format: String,
}

/// The answer of a source that is asked only when it is needed.
#[derive(Clone, Debug, PartialEq, Eq)]
pub enum Lookup {
    /// The source has not been asked.
    NotAsked,
    /// The source gave this.
    Found(String),
    /// The source was asked and gave nothing.
    Missing,
}

/// A `Lookup` as contracts see it.
pub enum LookupView {
    NotAsked,
    Found(Seq<char>),
    Missing,
}

impl View for Lookup {
    type V = LookupView;

    open spec fn view(&self) -> LookupView {
        match *self {
            Lookup::NotAsked => LookupView::NotAsked,
            Lookup::Found(text) => LookupView::Found(text@),
            Lookup::Missing => LookupView::Missing,
        }
    }
}

/// What the sources of the build version have answered so far.
#[derive(Clone, Debug, PartialEq, Eq)]
pub struct VersionSources {
    /// The value of `BUILD_VERSION`, where it is set.
    pub build_version: Option<String>,
    /// The value of `CARGO_PKG_VERSION_OVERRIDE`, where it is set.
    pub version_override: Option<String>,
    /// Whether `GITHUB_ACTIONS` is set.
    pub github_actions: bool,
    /// The next version that the releases of the repository call for.
    pub github_next: Lookup,
    /// The string under `package.version` of the manifest.
    pub manifest_version: Lookup,
    /// The short hash of the head commit.
    pub short_sha: Lookup,
}

/// Where a build version comes from.
#[derive(Clone, Copy, Debug, PartialEq, Eq, Structural)]
pub enum VersionSource {
    Environment,
    GithubApi,
    CargoToml,
    Git,
}

/// What `resolve` decides.
#[derive(Clone, Debug, PartialEq, Eq)]
pub enum Resolution {
    /// Ask for the next version that the releases call for.
    AskGithub,
    /// Ask for the version of the manifest.
    AskManifest,
    /// Ask for the short hash of the head commit.
    AskSha,
    /// The build version, its source and, where the source is `Git`, the
    /// short hash.
    Version { version: String, source: VersionSource, sha: Option<String> },
    /// No source gives a version.
    Unavailable,
}

/// A `Resolution` as contracts see it.
pub enum ResolutionView {
    AskGithub,
    AskManifest,
    AskSha,
    Version { version: Seq<char>, source: VersionSource, sha: Option<Seq<char>> },
    Unavailable,
}

impl View for Resolution {
    type V = ResolutionView;

    open spec fn view(&self) -> ResolutionView {
        match *self {
            Resolution::AskGithub => ResolutionView::AskGithub,
            Resolution::AskManifest => ResolutionView::AskManifest,
            Resolution::AskSha => ResolutionView::AskSha,
            Resolution::Version { version, source, sha } => ResolutionView::Version {
                version: version@,
                source,
                sha: match sha {
                    Some(s) => Some(s@),
                    None => None,
                },
            },
            Resolution::Unavailable => ResolutionView::Unavailable,
        }
    }
}

/// The view of an optional string.
pub open spec fn optional_view(text: Option<String>) -> Option<Seq<char>> {
    match text {
        Some(t) => Some(t@),
        None => None,
    }
}

/// The version that the environment gives: the value of `BUILD_VERSION` or,
/// where that is not set, of `CARGO_PKG_VERSION_OVERRIDE`, unless that value
/// is blank.
pub open spec fn environment_version(
    build_version: Option<Seq<char>>,
    version_override: Option<Seq<char>>,
) -> Option<Seq<char>> {
    let first = match build_version {
        Some(v) => Some(v),
        None => version_override,
    };
    match first {
        Some(v) => if trimmed(v).len() > 0 {
            Some(v)
        } else {
            None
        },
        None => None,
    }
}

/// The version of the manifest that counts: trimmed, and neither empty nor
/// the placeholder `0.0.0`.
pub open spec fn usable_manifest_version(manifest_version: LookupView) -> Option<Seq<char>> {
    match manifest_version {
        LookupView::Found(v) => if trimmed(v).len() > 0 && trimmed(v) != "0.0.0"@ {
            Some(trimmed(v))
        } else {
            None
        },
        _ => None,
    }
}

/// What to do next given the answers so far.
pub open spec fn resolution(
    build_version: Option<Seq<char>>,
    version_override: Option<Seq<char>>,
    github_actions: bool,
    github_next: LookupView,
    manifest_version: LookupView,
    short_sha: LookupView,
) -> ResolutionView {
    if let Some(v) = environment_version(build_version, version_override) {
        ResolutionView::Version { version: v, source: VersionSource::Environment, sha: None }
    } else if github_actions && github_next is NotAsked {
        ResolutionView::AskGithub
    } else if github_actions && github_next is Found {
        ResolutionView::Version {
            version: github_next->Found_0,
            source: VersionSource::GithubApi,
            sha: None,
        }
    } else if manifest_version is NotAsked {
        ResolutionView::AskManifest
    } else if short_sha is NotAsked {
        ResolutionView::AskSha
    } else if let Some(v) = usable_manifest_version(manifest_version) {
        ResolutionView::Version {
            version: match short_sha {
                LookupView::Found(sha) => v + "-"@ + sha,
                _ => v,
            },
            source: VersionSource::CargoToml,
            sha: None,
        }
    } else {
        match short_sha {
            LookupView::Found(sha) => ResolutionView::Version {
                version: "0.0.0-dev-"@ + sha,
                source: VersionSource::Git,
                sha: Some(sha),
            },
            _ => ResolutionView::Unavailable,
        }
    }
}

/// What to do next given the answers in `sources`.
pub open spec fn resolution_of(sources: VersionSources) -> ResolutionView {
    resolution(
        optional_view(sources.build_version),
        optional_view(sources.version_override),
        sources.github_actions,
        sources.github_next@,
        sources.manifest_version@,
        sources.short_sha@,
    )
}

/// Whether a text holds nothing but white space.
pub fn is_blank(text: &str) -> (blank: bool)
    ensures
        blank == (trimmed(text@).len() == 0),
{
    let chars = chars_of(text);
    let trimmed = trim_chars(chars.as_slice());
    trimmed.len() == 0
}

/// The version that the environment gives.
pub fn env_version(
    build_version: &Option<String>,
    version_override: &Option<String>,
) -> (version: Option<String>)
    ensures
        optional_view(version) == environment_version(
            optional_view(*build_version),
            optional_view(*version_override),
        ),
{
    let first = match build_version {
        Some(v) => Some(v),
        None => match version_override {
            Some(v) => Some(v),
            None => None,
        },
    };
    match first {
        Some(v) => if is_blank(v.as_str()) {
            None
        } else {
            Some(v.clone())
        },
        None => None,
    }
}

/// The version of the manifest that counts.
pub fn manifest_version_to_use(manifest_version: &Lookup) -> (version: Option<String>)
    ensures
        optional_view(version) == usable_manifest_version(manifest_version@),
{
    match manifest_version {
        Lookup::Found(v) => {
            let chars = chars_of(v.as_str());
            let trimmed = trim_chars(chars.as_slice());
            let placeholder = chars_of("0.0.0");
            if trimmed.len() > 0 && !chars_equal(trimmed.as_slice(), placeholder.as_slice()) {
                Some(string_of(trimmed.as_slice()))
            } else {
                None
            }
        },
        _ => None,
    }
}

/// Decides what to do next: which source to ask, or what the build version
/// is. A source is asked only when every source before it has given nothing.
pub fn resolve(sources: &VersionSources) -> (next: Resolution)
    ensures
        next@ == resolution_of(*sources),
{
    if let Some(version) = env_version(&sources.build_version, &sources.version_override) {
        return Resolution::Version { version, source: VersionSource::Environment, sha: None };
    }
    if sources.github_actions {
        match &sources.github_next {
            Lookup::NotAsked => {
                return Resolution::AskGithub;
            },
            Lookup::Found(next) => {
                return Resolution::Version {
                    version: next.clone(),
                    source: VersionSource::GithubApi,
                    sha: None,
                };
            },
            Lookup::Missing => {},
        }
    }
    if let Lookup::NotAsked = &sources.manifest_version {
        return Resolution::AskManifest;
    }
    if let Lookup::NotAsked = &sources.short_sha {
        return Resolution::AskSha;
    }
    if let Some(version) = manifest_version_to_use(&sources.manifest_version) {
        let mut version = version;
        if let Lookup::Found(sha) = &sources.short_sha {
            version.append("-");
            version.append(sha.as_str());
        }
        return Resolution::Version { version, source: VersionSource::CargoToml, sha: None };
    }
    match &sources.short_sha {
        Lookup::Found(sha) => {
            let mut version = "0.0.0-dev-".to_owned();
            version.append(sha.as_str());
            Resolution::Version { version, source: VersionSource::Git, sha: Some(sha.clone()) }
        },
        _ => Resolution::Unavailable,
    }
}

/// Errors of the `build-version` command.
#[derive(Clone, Debug, PartialEq, Eq)]
pub enum BuildVersionError {
    /// The format is neither `version` nor `json`.
    InvalidFormat { format: String },
    /// No source gives a version: there is no head commit to name.
    NoCommit,
}

/// A `BuildVersionError` as contracts see it.
pub enum BuildVersionErrorView {
    InvalidFormat { format: Seq<char> },
    NoCommit,
}

impl View for BuildVersionError {
    type V = BuildVersionErrorView;

    open spec fn view(&self) -> BuildVersionErrorView {
        match *self {
            BuildVersionError::InvalidFormat { format } => BuildVersionErrorView::InvalidFormat {
                format: format@,
            },
            BuildVersionError::NoCommit => BuildVersionErrorView::NoCommit,
        }
    }
}

impl BuildVersionError {
    /// The message of this error.
    pub fn to_string(&self) -> (message: String)
        ensures
            message@ == (match self@ {
                BuildVersionErrorView::InvalidFormat { format } => "Invalid format: "@ + format,
                BuildVersionErrorView::NoCommit => "HEAD does not point to a commit"@,
            }),
    {
        match self {
            BuildVersionError::InvalidFormat { format } => {
                let mut message = "Invalid format: ".to_owned();
                message.append(format.as_str());
                message
            },
            BuildVersionError::NoCommit => "HEAD does not point to a commit".to_owned(),
        }
    }
}

/// The name of a source as the JSON output gives it.
pub open spec fn source_name(source: VersionSource) -> Seq<char> {
    match source {
        VersionSource::Environment => "environment"@,
        VersionSource::GithubApi => "github_api"@,
        VersionSource::CargoToml => "cargo_toml"@,
        VersionSource::Git => "git"@,
    }
}

/// The line that the `json` format prints.
pub open spec fn json_line(
    version: Seq<char>,
    source: VersionSource,
    sha: Option<Seq<char>>,
) -> Seq<char> {
    match sha {
        Some(sha) => "{\"version\":\""@ + version + "\",\"sha\":\""@ + sha + "\",\"source\":\""@
            + source_name(source) + "\"}"@,
        None => "{\"version\":\""@ + version + "\",\"source\":\""@ + source_name(source)
            + "\"}"@,
    }
}

/// The line that a format prints for a version, or `None` where the format
/// is neither `version` nor `json`.
pub open spec fn output_line(
    format: Seq<char>,
    version: Seq<char>,
    source: VersionSource,
    sha: Option<Seq<char>>,
) -> Option<Seq<char>> {
    if format == "version"@ {
        Some(version)
    } else if format == "json"@ {
        Some(json_line(version, source, sha))
    } else {
        None
    }
}

/// The line to print for a version in a format.
pub fn format_version_line(
    format: &str,
    version: &str,
    source: VersionSource,
    sha: Option<&str>,
) -> (line: Result<String, BuildVersionError>)
    ensures
        match output_line(
            format@,
            version@,
            source,
            match sha {
                Some(s) => Some(s@),
                None => None,
            },
        ) {
            Some(text) => line is Ok && line->Ok_0@ == text,
            None => line is Err && line->Err_0@ == (BuildVersionErrorView::InvalidFormat {
                format: format@,
            }),
        },
{
    if strs_equal(format, "version") {
        Ok(version.to_owned())
    } else if strs_equal(format, "json") {
        let mut line = "{\"version\":\"".to_owned();
        line.append(version);
        if let Some(sha) = sha {
            line.append("\",\"sha\":\"");
            line.append(sha);
        }
        line.append("\",\"source\":\"");
        match source {
            VersionSource::Environment => line.append("environment"),
            VersionSource::GithubApi => line.append("github_api"),
            VersionSource::CargoToml => line.append("cargo_toml"),
            VersionSource::Git => line.append("git"),
        }
        line.append("\"}");
        Ok(line)
    } else {
        Err(BuildVersionError::InvalidFormat { format: format.to_owned() })
    }
}

/// What the `build-version` command does next.
#[derive(Clone, Debug, PartialEq, Eq)]
pub enum BuildStep {
    /// Ask for the next version that the releases of the repository call for
    /// and come back with the answer in `github_next`.
    AskGithub { owner: Option<String>, repo: Option<String>, github_token: Option<String> },
    /// Read the manifest and come back with its version in
    /// `manifest_version`.
    AskManifest { manifest: String },
    /// Look for the head commit of the repository and come back with its
    /// short hash in `short_sha`.
    AskSha { repo_path: String },
    /// Print the line: the command is done.
    Print { line: String },
    /// Fail with the error.
    Fail { error: BuildVersionError },
}

/// A `BuildStep` as contracts see it.
pub enum BuildStepView {
    AskGithub { owner: Option<Seq<char>>, repo: Option<Seq<char>>, github_token: Option<Seq<char>> },
    AskManifest { manifest: Seq<char> },
    AskSha { repo_path: Seq<char> },
    Print { line: Seq<char> },
    Fail { error: BuildVersionErrorView },
}

impl View for BuildStep {
    type V = BuildStepView;

    open spec fn view(&self) -> BuildStepView {
        match *self {
            BuildStep::AskGithub { owner, repo, github_token } => BuildStepView::AskGithub {
                owner: optional_view(owner),
                repo: optional_view(repo),
                github_token: optional_view(github_token),
            },
            BuildStep::AskManifest { manifest } => BuildStepView::AskManifest {
                manifest: manifest@,
            },
            BuildStep::AskSha { repo_path } => BuildStepView::AskSha { repo_path: repo_path@ },
            BuildStep::Print { line } => BuildStepView::Print { line: line@ },
            BuildStep::Fail { error } => BuildStepView::Fail { error: error@ },
        }
    }
}

/// The step that follows from a resolution: a question is passed on with
/// what the arguments say of it, and a version is printed in the format of
/// the arguments.
pub open spec fn step_for(args: BuildVersionArgs, resolved: ResolutionView) -> BuildStepView {
    match resolved {
        ResolutionView::AskGithub => BuildStepView::AskGithub {
            owner: optional_view(args.owner),
            repo: optional_view(args.repo),
            github_token: optional_view(args.github_token),
        },
        ResolutionView::AskManifest => BuildStepView::AskManifest { manifest: args.manifest@ },
        ResolutionView::AskSha => BuildStepView::AskSha { repo_path: args.repo_path@ },
        ResolutionView::Version { version, source, sha } => match output_line(
            args.format@,
            version,
            source,
            sha,
        ) {
            Some(line) => BuildStepView::Print { line },
            None => BuildStepView::Fail {
                error: BuildVersionErrorView::InvalidFormat { format: args.format@ },
            },
        },
        ResolutionView::Unavailable => BuildStepView::Fail {
            error: BuildVersionErrorView::NoCommit,
        },
    }
}

/// A copy of an optional string.
pub fn copy_optional(text: &Option<String>) -> (copy: Option<String>)
    ensures
        optional_view(copy) == optional_view(*text),
{
    match text {
        Some(t) => Some(t.clone()),
        None => None,
    }
}

/// One step of the `build-version` command: given the arguments and what the
/// sources have answered so far, what to ask next, what to print, or how to
/// fail. The format is looked at only when there is a version to print.
pub fn build_version(args: &BuildVersionArgs, sources: &VersionSources) -> (step: BuildStep)
    ensures
        step@ == step_for(*args, resolution_of(*sources)),
{
    match resolve(sources) {
        Resolution::AskGithub => BuildStep::AskGithub {
            owner: copy_optional(&args.owner),
            repo: copy_optional(&args.repo),
            github_token: copy_optional(&args.github_token),
        },
        Resolution::AskManifest => BuildStep::AskManifest { manifest: args.manifest.clone() },
        Resolution::AskSha => BuildStep::AskSha { repo_path: args.repo_path.clone() },
        Resolution::Version { version, source, sha } => {
            let sha_text = match &sha {
                Some(s) => Some(s.as_str()),
                None => None,
            };
            match format_version_line(args.format.as_str(), version.as_str(), source, sha_text) {
                Ok(line) => BuildStep::Print { line },
                Err(error) => BuildStep::Fail { error },
            }
        },
        Resolution::Unavailable => BuildStep::Fail { error: BuildVersionError::NoCommit },
    }
}

/// The path of the manifest of the repository at `repo_path`: `Cargo.toml`
/// in that directory.
pub open spec fn manifest_in(repo_path: Seq<char>) -> Seq<char> {
    if repo_path.len() == 0 {
        "Cargo.toml"@
    } else if repo_path.last() == '/' {
        repo_path + "Cargo.toml"@
    } else {
        repo_path + "/"@ + "Cargo.toml"@
    }
}

/// The path of the manifest of the repository at `repo_path`.
pub fn manifest_path_in(repo_path: &str) -> (manifest: String)
    ensures
        manifest@ == manifest_in(repo_path@),
{
    let chars = chars_of(repo_path);
    let mut manifest = repo_path.to_owned();
    if chars.len() > 0 && chars[chars.len() - 1] != '/' {
        manifest.append("/");
    }
    manifest.append("Cargo.toml");
    proof {
        assert(Seq::<char>::empty() + "Cargo.toml"@ =~= "Cargo.toml"@);
    }
    manifest
}

/// The arguments with which the build version of a repository is computed
/// when nothing else is said: no owner, repository or token, the manifest of
/// the repository, and the format `version`.
pub open spec fn default_args_matches(args: BuildVersionArgs, repo_path: Seq<char>) -> bool {
    &&& args.owner is None
    &&& args.repo is None
    &&& args.github_token is None
    &&& args.manifest@ == manifest_in(repo_path)
    &&& args.repo_path@ == repo_path
    &&& args.format@ == "version"@
}

/// The arguments for the repository at `repo_path`.
pub fn default_args(repo_path: &str) -> (args: BuildVersionArgs)
    ensures
        default_args_matches(args, repo_path@),
{
    BuildVersionArgs {
        owner: None,
        repo: None,
        github_token: None,
        manifest: manifest_path_in(repo_path),
        repo_path: repo_path.to_owned(),
        format: "version".to_owned(),
    }
}

/// One step of computing the build version of the repository at
/// `repo_path`, with the manifest of that repository and the format
/// `version`.
pub fn build_version_for_repo(repo_path: &str, sources: &VersionSources) -> (step: BuildStep)
    ensures
        exists|args: BuildVersionArgs|
            default_args_matches(args, repo_path@) && step@ == #[trigger] step_for(
                args,
                resolution_of(*sources),
            ),
{
    let args = default_args(repo_path);
    build_version(&args, sources)
}

/// One step of computing the build version of the repository in the current
/// directory.
pub fn build_version_default(sources: &VersionSources) -> (step: BuildStep)
    ensures
        exists|args: BuildVersionArgs|
            default_args_matches(args, "."@) && step@ == #[trigger] step_for(
                args,
                resolution_of(*sources),
            ),
{
    build_version_for_repo(".", sources)
}

/// What computing the version string does next.
#[derive(Clone, Debug, PartialEq, Eq)]
pub enum VersionStep {
    /// Ask for the next version that the releases of the repository call
    /// for.
    AskGithub,
    /// Read the manifest at this path.
    AskManifest { manifest: String },
    /// Look for the head commit of the repository at this path.
    AskSha { repo_path: String },
    /// The version string.
    Done { version: String },
    /// No source gives a version.
    Fail { error: BuildVersionError },
}

/// A `VersionStep` as contracts see it.
pub enum VersionStepView {
    AskGithub,
    AskManifest { manifest: Seq<char> },
    AskSha { repo_path: Seq<char> },
    Done { version: Seq<char> },
    Fail { error: BuildVersionErrorView },
}

impl View for VersionStep {
    type V = VersionStepView;

    open spec fn view(&self) -> VersionStepView {
        match *self {
            VersionStep::AskGithub => VersionStepView::AskGithub,
            VersionStep::AskManifest { manifest } => VersionStepView::AskManifest {
                manifest: manifest@,
            },
            VersionStep::AskSha { repo_path } => VersionStepView::AskSha { repo_path: repo_path@ },
            VersionStep::Done { version } => VersionStepView::Done { version: version@ },
            VersionStep::Fail { error } => VersionStepView::Fail { error: error@ },
        }
    }
}

/// The step of computing the version string that follows from a resolution.
pub open spec fn version_step_for(repo_path: Seq<char>, resolved: ResolutionView) -> VersionStepView {
    match resolved {
        ResolutionView::AskGithub => VersionStepView::AskGithub,
        ResolutionView::AskManifest => VersionStepView::AskManifest {
            manifest: manifest_in(repo_path),
        },
        ResolutionView::AskSha => VersionStepView::AskSha { repo_path },
        ResolutionView::Version { version, source, sha } => VersionStepView::Done { version },
        ResolutionView::Unavailable => VersionStepView::Fail {
            error: BuildVersionErrorView::NoCommit,
        },
    }
}

/// One step of computing the build version of the repository at `repo_path`
/// as a string, for a build script: the sources and their order are those of
/// `build_version`, and the version comes back instead of being printed.
pub fn compute_version_string(repo_path: &str, sources: &VersionSources) -> (step: VersionStep)
    ensures
        step@ == version_step_for(repo_path@, resolution_of(*sources)),
{
    match resolve(sources) {
        Resolution::AskGithub => VersionStep::AskGithub,
        Resolution::AskManifest => VersionStep::AskManifest {
            manifest: manifest_path_in(repo_path),
        },
        Resolution::AskSha => VersionStep::AskSha { repo_path: repo_path.to_owned() },
        Resolution::Version { version, source, sha } => VersionStep::Done { version },
        Resolution::Unavailable => VersionStep::Fail { error: BuildVersionError::NoCommit },
    }
}

} // verus!
