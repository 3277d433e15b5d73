//! The releases of a repository on GitHub: which version the latest release
//! has, which one comes next, and what a failed query means.
//!
//! The query itself is made by the caller.

use vstd::prelude::*;

use crate::text::{chars_of, contains_text, copy_chars, str_contains, string_of};
use crate::version::{
    format_version, increment_patch, parse_version, version_numbers, version_text,
};

verus! {

/// The version that the tag of a release names: the tag without a `v` at its
/// beginning and then without a `V` at its beginning.
pub open spec fn tag_version(tag: Seq<char>) -> Seq<char> {
    let rest = if tag.len() > 0 && tag[0] == 'v' {
        tag.skip(1)
    } else {
        tag
    };
    if rest.len() > 0 && rest[0] == 'V' {
        rest.skip(1)
    } else {
        rest
    }
}

/// The version that the tag of a release names.
pub fn version_of_tag(tag: &str) -> (version: String)
    ensures
        version@ == tag_version(tag@),
{
    let chars = chars_of(tag);
    let mut from: usize = 0;
    if from < chars.len() && chars[from] == 'v' {
        from += 1;
    }
    proof {
        assert(chars@.skip(0) == chars@);
    }
    let ghost rest = chars@.skip(from as int);
    if from < chars.len() && chars[from] == 'V' {
        proof {
            assert(rest[0] == chars@[from as int]);
            assert(rest.skip(1) == chars@.skip(from + 1));
        }
        from += 1;
    }
    let kept = copy_chars(chars.as_slice(), from, chars.len());
    proof {
        assert(kept@ == chars@.skip(from as int));
    }
    string_of(kept.as_slice())
}

/// The token to query with: the one of the arguments or, where there is
/// none, the one of the environment.
pub fn effective_token(
    argument: Option<String>,
    environment: Option<String>,
) -> (token: Option<String>)
    ensures
        token == (match argument {
            Some(t) => Some(t),
            None => environment,
        }),
{
    match argument {
        Some(t) => Some(t),
        None => environment,
    }
}

/// What the message of a failed query means.
#[derive(Clone, Copy, Debug, PartialEq, Eq, Structural)]
pub enum QueryFailure {
    /// The repository has no release.
    NoReleases,
    /// The repository was not found, and no token was sent: it may be
    /// private.
    NotFoundWithoutToken,
    /// The query was forbidden.
    Forbidden,
    /// Anything else.
    Other,
}

/// What the message of a failed query means: no release where it says so;
/// else not found where it says `404` or `Not Found`, which without a token
/// may mean a private repository; else forbidden where it says `403` or
/// `Forbidden`.
pub open spec fn failure_meaning(message: Seq<char>, has_token: bool) -> QueryFailure {
    if contains_text(message, "No releases found"@) {
        QueryFailure::NoReleases
    } else if contains_text(message, "404"@) || contains_text(message, "Not Found"@) {
        if has_token {
            QueryFailure::Other
        } else {
            QueryFailure::NotFoundWithoutToken
        }
    } else if contains_text(message, "403"@) || contains_text(message, "Forbidden"@) {
        QueryFailure::Forbidden
    } else {
        QueryFailure::Other
    }
}

/// What the message of a failed query means.
pub fn classify_failure(message: &str, has_token: bool) -> (meaning: QueryFailure)
    ensures
        meaning == failure_meaning(message@, has_token),
{
    if str_contains(message, "No releases found") {
        QueryFailure::NoReleases
    } else if str_contains(message, "404") || str_contains(message, "Not Found") {
        if has_token {
            QueryFailure::Other
        } else {
            QueryFailure::NotFoundWithoutToken
        }
    } else if str_contains(message, "403") || str_contains(message, "Forbidden") {
        QueryFailure::Forbidden
    } else {
        QueryFailure::Other
    }
}

/// Errors of the query of the releases.
#[derive(Clone, Debug, PartialEq, Eq)]
pub enum GithubError {
    /// The repository was not found, and no token was sent.
    NotFoundOrPrivate { cause: String },
    /// The query was forbidden.
    Forbidden { cause: String },
    /// The query failed otherwise.
    Query { cause: String },
    /// The version of the latest release is not three numbers.
    UnreadableVersion { version: String },
    /// The patch number of the latest release cannot grow.
    NoNextVersion { version: String },
}

/// A `GithubError` as contracts see it.
pub enum GithubErrorView {
    NotFoundOrPrivate { cause: Seq<char> },
    Forbidden { cause: Seq<char> },
    Query { cause: Seq<char> },
    UnreadableVersion { version: Seq<char> },
    NoNextVersion { version: Seq<char> },
}

impl View for GithubError {
    type V = GithubErrorView;

    open spec fn view(&self) -> GithubErrorView {
        match *self {
            GithubError::NotFoundOrPrivate { cause } => GithubErrorView::NotFoundOrPrivate {
                cause: cause@,
            },
            GithubError::Forbidden { cause } => GithubErrorView::Forbidden { cause: cause@ },
            GithubError::Query { cause } => GithubErrorView::Query { cause: cause@ },
            GithubError::UnreadableVersion { version } => GithubErrorView::UnreadableVersion {
                version: version@,
            },
            GithubError::NoNextVersion { version } => GithubErrorView::NoNextVersion {
                version: version@,
            },
        }
    }
}

impl GithubError {
    /// The message of this error: for a failed query the message of the
    /// query, for a version what is wrong with it.
    pub fn to_string(&self) -> (message: String)
        ensures
            message@ == (match self@ {
                GithubErrorView::NotFoundOrPrivate { cause } => cause,
                GithubErrorView::Forbidden { cause } => cause,
                GithubErrorView::Query { cause } => cause,
                GithubErrorView::UnreadableVersion { version } =>
                    "Failed to parse latest version: "@ + version,
                GithubErrorView::NoNextVersion { version } =>
                    "No version follows the latest version: "@ + version,
            }),
    {
        match self {
            GithubError::NotFoundOrPrivate { cause } => cause.clone(),
            GithubError::Forbidden { cause } => cause.clone(),
            GithubError::Query { cause } => cause.clone(),
            GithubError::UnreadableVersion { version } => {
                let mut message = "Failed to parse latest version: ".to_owned();
                message.append(version.as_str());
                message
            },
            GithubError::NoNextVersion { version } => {
                let mut message = "No version follows the latest version: ".to_owned();
                message.append(version.as_str());
                message
            },
        }
    }

    /// What to do about this error, where there is something to do.
    pub fn hint(&self) -> (hint: Option<String>)
        ensures
            match self@ {
                GithubErrorView::NotFoundOrPrivate { cause } => hint is Some && hint->Some_0@
                    == "Repository not found or is private. For private repositories, set GITHUB_TOKEN environment variable or pass --github-token"@,
                GithubErrorView::Forbidden { cause } => hint is Some && hint->Some_0@
                    == "Access forbidden. This may be a private repository. Ensure GITHUB_TOKEN has appropriate permissions."@,
                _ => hint is None,
            },
    {
        match self {
            GithubError::NotFoundOrPrivate { cause } => Some(
                "Repository not found or is private. For private repositories, set GITHUB_TOKEN environment variable or pass --github-token".to_owned(),
            ),
            GithubError::Forbidden { cause } => Some(
                "Access forbidden. This may be a private repository. Ensure GITHUB_TOKEN has appropriate permissions.".to_owned(),
            ),
            _ => None,
        }
    }
}

/// The version of the latest release, given what the query came back with:
/// the tag of the first release it lists, if it lists one, or the message
/// of its failure.
///
/// A repository without releases has no latest version, which is no error.
pub fn get_latest_release_version(
    answer: Result<Option<String>, String>,
    has_token: bool,
) -> (latest: Result<Option<String>, GithubError>)
    ensures
        match answer {
            Ok(Some(tag)) => latest is Ok && latest->Ok_0 is Some && latest->Ok_0->Some_0@
                == tag_version(tag@),
            Ok(None) => latest is Ok && latest->Ok_0 is None,
            Err(message) => match failure_meaning(message@, has_token) {
                QueryFailure::NoReleases => latest is Ok && latest->Ok_0 is None,
                QueryFailure::NotFoundWithoutToken => latest is Err && latest->Err_0@
                    == (GithubErrorView::NotFoundOrPrivate { cause: message@ }),
                QueryFailure::Forbidden => latest is Err && latest->Err_0@
                    == (GithubErrorView::Forbidden { cause: message@ }),
                QueryFailure::Other => latest is Err && latest->Err_0@ == (GithubErrorView::Query {
                    cause: message@,
                }),
            },
        },
{
    match answer {
        Ok(Some(tag)) => Ok(Some(version_of_tag(tag.as_str()))),
        Ok(None) => Ok(None),
        Err(message) => match classify_failure(message.as_str(), has_token) {
            QueryFailure::NoReleases => Ok(None),
            QueryFailure::NotFoundWithoutToken => Err(
                GithubError::NotFoundOrPrivate { cause: message },
            ),
            QueryFailure::Forbidden => Err(GithubError::Forbidden { cause: message }),
            QueryFailure::Other => Err(GithubError::Query { cause: message }),
        },
    }
}

/// The latest version and the version that comes next: the next patch
/// version of the latest release, or `0.0.1` after `0.0.0` where there is no
/// release yet.
pub fn calculate_next_version(
    latest: Option<String>,
) -> (versions: Result<(String, String), GithubError>)
    ensures
        match latest {
            None => versions is Ok && versions->Ok_0.0@ == "0.0.0"@ && versions->Ok_0.1@
                == "0.0.1"@,
            Some(v) => match version_numbers(v@) {
                None => versions is Err && versions->Err_0@
                    == (GithubErrorView::UnreadableVersion { version: v@ }),
                Some((major, minor, patch)) => if patch < u32::MAX {
                    versions is Ok && versions->Ok_0.0@ == v@ && versions->Ok_0.1@
                        == version_text(major, minor, (patch + 1) as u32)
                } else {
                    versions is Err && versions->Err_0@ == (GithubErrorView::NoNextVersion {
                        version: v@,
                    })
                },
            },
        },
{
    match latest {
        None => Ok(("0.0.0".to_owned(), "0.0.1".to_owned())),
        Some(v) => match parse_version(v.as_str()) {
            Err(_) => Err(GithubError::UnreadableVersion { version: v }),
            Ok((major, minor, patch)) => match increment_patch(major, minor, patch) {
                None => Err(GithubError::NoNextVersion { version: v }),
                Some((a, b, c)) => {
                    let next = format_version(a, b, c);
                    Ok((v, next))
                },
            },
        },
    }
}

} // verus!
