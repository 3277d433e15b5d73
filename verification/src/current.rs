//! The `current` command: how the version of the package is given out.

use vstd::prelude::*;

use crate::text::strs_equal;

verus! {

/// Arguments of the `current` command.
#[derive(Clone, Debug, PartialEq, Eq)]
pub struct CurrentArgs {
    /// The path of the manifest.
    pub manifest_path: Option<String>,
    /// `version`, `json` or `github-actions`.
    pub format: String,
    /// The file that GitHub Actions reads outputs from.
    pub github_output: Option<String>,
}

/// What the `current` command gives out.
#[derive(Clone, Debug, PartialEq, Eq)]
pub enum CurrentOutput {
    /// Print the line.
    Print { line: String },
    /// Write the content to the file at the path.
    Write { path: String, content: String },
}

/// A `CurrentOutput` as contracts see it.
pub enum CurrentOutputView {
    Print { line: Seq<char> },
    Write { path: Seq<char>, content: Seq<char> },
}

impl View for CurrentOutput {
    type V = CurrentOutputView;

    open spec fn view(&self) -> CurrentOutputView {
        match *self {
            CurrentOutput::Print { line } => CurrentOutputView::Print { line: line@ },
            CurrentOutput::Write { path, content } => CurrentOutputView::Write {
                path: path@,
                content: content@,
            },
        }
    }
}

/// Errors of the `current` command.
#[derive(Clone, Debug, PartialEq, Eq)]
pub enum CurrentError {
    /// The format is none of `version`, `json` and `github-actions`.
    InvalidFormat { format: String },
}

impl CurrentError {
    /// The message of this error.
    pub fn to_string(&self) -> (message: String)
        ensures
            self matches CurrentError::InvalidFormat { format } && message@ == "Invalid format: "@
                + format@,
    {
        match self {
            CurrentError::InvalidFormat { format } => {
                let mut message = "Invalid format: ".to_owned();
                message.append(format.as_str());
                message
            },
        }
    }
}

/// What a format gives out for a version: `version` prints the version,
/// `json` prints it as the member `version` of an object, `github-actions`
/// writes `version=` and the version as a line to the output file, which is
/// standard output where the arguments name none. Any other format gives
/// nothing.
pub open spec fn current_output(
    format: Seq<char>,
    github_output: Option<Seq<char>>,
    version: Seq<char>,
) -> Option<CurrentOutputView> {
    if format == "version"@ {
        Some(CurrentOutputView::Print { line: version })
    } else if format == "json"@ {
        Some(CurrentOutputView::Print { line: "{\"version\":\""@ + version + "\"}"@ })
    } else if format == "github-actions"@ {
        Some(
            CurrentOutputView::Write {
                path: match github_output {
                    Some(path) => path,
                    None => "/dev/stdout"@,
                },
                content: "version="@ + version + "\n"@,
            },
        )
    } else {
        None
    }
}

/// Gives out the version of the package in the format of the arguments.
pub fn current(args: &CurrentArgs, version: &str) -> (output: Result<CurrentOutput, CurrentError>)
    ensures
        match current_output(
            args.format@,
            match args.github_output {
                Some(path) => Some(path@),
                None => None,
            },
            version@,
        ) {
            Some(expected) => output is Ok && output->Ok_0@ == expected,
            None => output is Err && (output->Err_0 matches CurrentError::InvalidFormat { format }
                && format@ == args.format@),
        },
{
    let format = args.format.as_str();
    if strs_equal(format, "version") {
        Ok(CurrentOutput::Print { line: version.to_owned() })
    } else if strs_equal(format, "json") {
        let mut line = "{\"version\":\"".to_owned();
        line.append(version);
        line.append("\"}");
        Ok(CurrentOutput::Print { line })
    } else if strs_equal(format, "github-actions") {
        let path = match &args.github_output {
            Some(path) => path.clone(),
            None => "/dev/stdout".to_owned(),
        };
        let mut content = "version=".to_owned();
        content.append(version);
        content.append("\n");
        Ok(CurrentOutput::Write { path, content })
    } else {
        Err(CurrentError::InvalidFormat { format: args.format.clone() })
    }
}

} // verus!
