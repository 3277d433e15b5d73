//! The `bump` command: which version to go to, and what to do about it.

use vstd::prelude::*;

use crate::text::{chars_of, string_of, strs_equal, trim_chars, trimmed};
use crate::version::{
    format_version, increment_major, increment_minor, increment_patch, parse_version,
    version_numbers, version_text,
};

verus! {

/// Arguments of the `bump` command.
#[derive(Clone, Debug, PartialEq, Eq)]
pub struct BumpArgs {
    /// The path of the manifest; `./Cargo.toml` where there is none.
    pub manifest_path: Option<String>,
    /// The version to go to.
    pub version: Option<String>,
    /// Take the version that the releases on GitHub call for.
    pub auto: bool,
    /// Go to the next major version.
    pub major: bool,
    /// Go to the next minor version.
    pub minor: bool,
    /// Go to the next patch version.
    pub patch: bool,
    /// Change the manifest and make no commit.
    pub no_commit: bool,
    /// The owner of the repository.
    pub owner: Option<String>,
    /// The name of the repository.
    pub repo: Option<String>,
    /// The token for the query of the releases.
    pub github_token: Option<String>,
}

/// Which number of the version grows: the major number where that is asked
/// for, else the minor number where that is asked for, else the patch
/// number.
#[derive(Clone, Copy, Debug, PartialEq, Eq, Structural)]
pub enum Part {
    Major,
    Minor,
    Patch,
}

/// The number that grows under these arguments.
pub open spec fn part_to_bump(major: bool, minor: bool) -> Part {
    if major {
        Part::Major
    } else if minor {
        Part::Minor
    } else {
        Part::Patch
    }
}

/// The version after `part` has grown, where it can grow.
pub open spec fn bumped(numbers: (u32, u32, u32), part: Part) -> Option<(u32, u32, u32)> {
    match part {
        Part::Major => if numbers.0 < u32::MAX {
            Some(((numbers.0 + 1) as u32, 0u32, 0u32))
        } else {
            None
        },
        Part::Minor => if numbers.1 < u32::MAX {
            Some((numbers.0, (numbers.1 + 1) as u32, 0u32))
        } else {
            None
        },
        Part::Patch => if numbers.2 < u32::MAX {
            Some((numbers.0, numbers.1, (numbers.2 + 1) as u32))
        } else {
            None
        },
    }
}

/// Where the target version comes from.
#[derive(Clone, Debug, PartialEq, Eq)]
pub enum Target {
    /// This is the target version.
    Version { version: String },
    /// The target version is the one that the releases on GitHub call for:
    /// the caller has to ask.
    AskGithub,
}

/// Errors of the `bump` command.
#[derive(Clone, Debug, PartialEq, Eq)]
pub enum BumpError {
    /// The current version is not three numbers.
    InvalidVersion { version: String },
    /// The number to bump cannot grow.
    Overflow { version: String },
    /// The current version is the target version.
    NothingToBump { version: String },
}

/// A `BumpError` as contracts see it.
pub enum BumpErrorView {
    InvalidVersion { version: Seq<char> },
    Overflow { version: Seq<char> },
    NothingToBump { version: Seq<char> },
}

impl View for BumpError {
    type V = BumpErrorView;

    open spec fn view(&self) -> BumpErrorView {
        match *self {
            BumpError::InvalidVersion { version } => BumpErrorView::InvalidVersion {
                version: version@,
            },
            BumpError::Overflow { version } => BumpErrorView::Overflow { version: version@ },
            BumpError::NothingToBump { version } => BumpErrorView::NothingToBump {
                version: version@,
            },
        }
    }
}

impl BumpError {
    /// The message of this error.
    pub fn to_string(&self) -> (message: String)
        ensures
            message@ == (match self@ {
                BumpErrorView::InvalidVersion { version } => "Invalid version: "@ + version,
                BumpErrorView::Overflow { version } => "Version cannot be bumped: "@ + version,
                BumpErrorView::NothingToBump { version } => "Current version ("@ + version
                    + ") is already the target version. Nothing to bump."@,
            }),
    {
        match self {
            BumpError::InvalidVersion { version } => {
                let mut message = "Invalid version: ".to_owned();
                message.append(version.as_str());
                message
            },
            BumpError::Overflow { version } => {
                let mut message = "Version cannot be bumped: ".to_owned();
                message.append(version.as_str());
                message
            },
            BumpError::NothingToBump { version } => {
                let mut message = "Current version (".to_owned();
                message.append(version.as_str());
                message.append(") is already the target version. Nothing to bump.");
                message
            },
        }
    }
}

/// The version to go to.
///
/// A version that the arguments give is taken as it is, without the white
/// space around it. Else, where the arguments ask for it, the caller has to
/// ask GitHub. Else one number of the current version grows: the major
/// number where the arguments ask for it, else the minor number where they
/// ask for it, else the patch number; the numbers behind it become zero.
pub fn calculate_target_version(
    args: &BumpArgs,
    current_version: &str,
) -> (target: Result<Target, BumpError>)
    ensures
        match args.version {
            Some(v) => target is Ok && (target->Ok_0 matches Target::Version { version }
                && version@ == trimmed(v@)),
            None => if args.auto {
                target == Ok::<Target, BumpError>(Target::AskGithub)
            } else {
                match version_numbers(current_version@) {
                    None => target is Err && target->Err_0@ == (BumpErrorView::InvalidVersion {
                        version: current_version@,
                    }),
                    Some(numbers) => match bumped(numbers, part_to_bump(args.major, args.minor)) {
                        None => target is Err && target->Err_0@ == (BumpErrorView::Overflow {
                            version: current_version@,
                        }),
                        Some(next) => target is Ok && (target->Ok_0 matches Target::Version {
                            version,
                        } && version@ == version_text(next.0, next.1, next.2)),
                    },
                }
            },
        },
{
    if let Some(version) = &args.version {
        let chars = chars_of(version.as_str());
        let trimmed = trim_chars(chars.as_slice());
        return Ok(Target::Version { version: string_of(trimmed.as_slice()) });
    }
    if args.auto {
        return Ok(Target::AskGithub);
    }
    match parse_version(current_version) {
        Err(_) => Err(BumpError::InvalidVersion { version: current_version.to_owned() }),
        Ok((major, minor, patch)) => {
            let next = if args.major {
                increment_major(major, minor, patch)
            } else if args.minor {
                increment_minor(major, minor, patch)
            } else {
                increment_patch(major, minor, patch)
            };
            match next {
                None => Err(BumpError::Overflow { version: current_version.to_owned() }),
                Some((a, b, c)) => Ok(Target::Version { version: format_version(a, b, c) }),
            }
        },
    }
}

/// What the `bump` command does once the target version is known.
#[derive(Clone, Debug, PartialEq, Eq)]
pub struct BumpPlan {
    /// The manifest to change.
    pub manifest_path: String,
    /// What to say before anything is changed.
    pub announcement: String,
    /// Whether to commit the change.
    pub commit: bool,
    /// What to say when everything is done.
    pub report: String,
}

/// What to say before anything is changed.
pub open spec fn announcement_text(current: Seq<char>, target: Seq<char>) -> Seq<char> {
    "Bumping version: "@ + current + " -> "@ + target
}

/// What to say when everything is done.
pub open spec fn report_text(current: Seq<char>, target: Seq<char>, commit: bool) -> Seq<char> {
    if commit {
        "✓ Committed version bump: "@ + current + " -> "@ + target
    } else {
        "✓ Updated version to "@ + target + " (not committed)"@
    }
}

/// What to do to go from the current version to the target version: change
/// the manifest, and commit unless the arguments say not to. Where the two
/// versions are the same there is nothing to do, which is an error.
pub fn bump(
    args: &BumpArgs,
    current_version: &str,
    target_version: &str,
) -> (plan: Result<BumpPlan, BumpError>)
    ensures
        current_version@ == target_version@ ==> plan is Err && plan->Err_0@
            == (BumpErrorView::NothingToBump { version: current_version@ }),
        current_version@ != target_version@ ==> plan is Ok && plan->Ok_0.manifest_path@ == (
        match args.manifest_path {
            Some(path) => path@,
            None => "./Cargo.toml"@,
        }) && plan->Ok_0.announcement@ == announcement_text(current_version@, target_version@)
            && plan->Ok_0.commit == !args.no_commit && plan->Ok_0.report@ == report_text(
            current_version@,
            target_version@,
            !args.no_commit,
        ),
{
    if strs_equal(current_version, target_version) {
        return Err(BumpError::NothingToBump { version: current_version.to_owned() });
    }
    let manifest_path = match &args.manifest_path {
        Some(path) => path.clone(),
        None => "./Cargo.toml".to_owned(),
    };
    let mut announcement = "Bumping version: ".to_owned();
    announcement.append(current_version);
    announcement.append(" -> ");
    announcement.append(target_version);
    let report = if args.no_commit {
        let mut report = "✓ Updated version to ".to_owned();
        report.append(target_version);
        report.append(" (not committed)");
        report
    } else {
        let mut report = "✓ Committed version bump: ".to_owned();
        report.append(current_version);
        report.append(" -> ");
        report.append(target_version);
        report
    };
    Ok(BumpPlan { manifest_path, announcement, commit: !args.no_commit, report })
}

} // verus!
