//! The `release-page` command: the page of a release, put together from its
//! parts.

use vstd::prelude::*;

use crate::pr_log::{pr_log, PrLogArgs, PrLogError};

verus! {

/// Arguments of the `release-page` command.
#[derive(Clone, Debug, PartialEq, Eq)]
pub struct ReleasePageArgs {
    /// The tag to start from.
    pub since_tag: Option<String>,
    /// The range of commits of the changelog.
    pub range: Option<String>,
    /// The file to write to; standard output where there is none.
    pub output: Option<String>,
    /// Make no request to the network.
    pub no_network: bool,
    /// The owner of the repository.
    pub owner: Option<String>,
    /// The name of the repository.
    pub repo: Option<String>,
}

/// Arguments of the changelog of a release page.
#[derive(Clone, Debug, PartialEq, Eq)]
pub struct ChangelogArgs {
    /// The tag to start from.
    pub at: Option<String>,
    /// The range of commits.
    pub range: Option<String>,
    /// The file to write to; none, as the page holds the changelog.
    pub output: Option<String>,
    /// The owner of the repository.
    pub owner: Option<String>,
    /// The name of the repository.
    pub repo: Option<String>,
}

/// A copy of an optional string.
fn copy_of(text: &Option<String>) -> (copy: Option<String>)
    ensures
        copy == *text,
{
    match text {
        Some(t) => Some(t.clone()),
        None => None,
    }
}

/// The log of pull requests of a release page: not yet. Whatever the
/// arguments, the answer is that of `pr_log`.
pub fn generate_pr_log(args: &ReleasePageArgs) -> (result: Result<(), PrLogError>)
    ensures
        result == Err::<(), PrLogError>(PrLogError::NotImplemented),
{
    pr_log(
        PrLogArgs {
            since_tag: copy_of(&args.since_tag),
            output: None,
            owner: copy_of(&args.owner),
            repo: copy_of(&args.repo),
        },
    )
}

/// The arguments of the changelog of a release page: the tag, the range and
/// the repository of the page, and no file to write to.
pub fn generate_changelog(args: &ReleasePageArgs) -> (changelog: ChangelogArgs)
    ensures
        changelog.at == args.since_tag,
        changelog.range == args.range,
        changelog.output is None,
        changelog.owner == args.owner,
        changelog.repo == args.repo,
{
    ChangelogArgs {
        at: copy_of(&args.since_tag),
        range: copy_of(&args.range),
        output: None,
        owner: copy_of(&args.owner),
        repo: copy_of(&args.repo),
    }
}

/// The section of the pull requests: the log, or that it could not be made
/// and why.
pub open spec fn pr_log_section(pr_log: Result<Seq<char>, Seq<char>>) -> Seq<char> {
    match pr_log {
        Ok(log) => log,
        Err(message) => "_PR log generation failed: "@ + message + "_\n\n"@,
    }
}

/// The page of a release: a heading with the name and the version of the
/// package, the badges, the pull requests and the changelog.
pub open spec fn release_page_text(
    name: Seq<char>,
    version: Seq<char>,
    badges: Seq<char>,
    pr_log: Result<Seq<char>, Seq<char>>,
    changelog: Seq<char>,
) -> Seq<char> {
    "# "@ + name + " v"@ + version + "\n\n"@ + badges + "\n"@ + "## Pull Requests\n\n"@
        + pr_log_section(pr_log) + "\n"@ + "## Changelog\n\n"@ + changelog
}

/// The view of a result of two strings.
pub open spec fn log_view(log: Result<&str, &str>) -> Result<Seq<char>, Seq<char>> {
    match log {
        Ok(text) => Ok(text@),
        Err(message) => Err(message@),
    }
}

/// The page of a release, put together from its parts.
pub fn release_page(
    name: &str,
    version: &str,
    badges: &str,
    pr_log: Result<&str, &str>,
    changelog: &str,
) -> (page: String)
    ensures
        page@ == release_page_text(name@, version@, badges@, log_view(pr_log), changelog@),
{
    let mut page = "# ".to_owned();
    page.append(name);
    page.append(" v");
    page.append(version);
    page.append("\n\n");
    page.append(badges);
    page.append("\n");
    page.append("## Pull Requests\n\n");
    match pr_log {
        Ok(log) => {
            page.append(log);
        },
        Err(message) => {
            page.append("_PR log generation failed: ");
            page.append(message);
            page.append("_\n\n");
        },
    }
    page.append("\n");
    page.append("## Changelog\n\n");
    page.append(changelog);
    page
}

/// What to say once the page is written to a file.
pub fn written_message(output_path: &str) -> (message: String)
    ensures
        message@ == "Release page written to "@ + output_path@,
{
    let mut message = "Release page written to ".to_owned();
    message.append(output_path);
    message
}

} // verus!
