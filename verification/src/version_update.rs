//! Setting the version of a manifest. The `toml_edit` crate reads, changes
//! and writes the text; this module decides where the version goes.

use vstd::prelude::*;

verus! {

/// Whether `toml_edit` reads the text as a TOML document.
pub uninterp spec fn editable_document(content: Seq<char>) -> bool;

/// The text of the document `content` after the string `value` has been put
/// under `key` in the table that `tables` leads to from the root, one key
/// after the other, as `toml_edit` writes it. `None` where `toml_edit` does
/// not read the text or finds no table there.
pub uninterp spec fn string_set_in_table(
    content: Seq<char>,
    tables: Seq<Seq<char>>,
    key: Seq<char>,
    value: Seq<char>,
) -> Option<Seq<char>>;

/// The view of an optional string.
pub open spec fn updated_view(text: Option<String>) -> Option<Seq<char>> {
    match text {
        Some(t) => Some(t@),
        None => None,
    }
}

/// Parses the text as a `toml_edit::DocumentMut`. Believed of `toml_edit`,
/// not proved: whether it reads a text depends on the text alone.
#[verifier::external_body]
pub(crate) fn manifest_parses(content: &str) -> (readable: bool)
    ensures
        readable == editable_document(content@),
{
    content.parse::<toml_edit::DocumentMut>().is_ok()
}

/// Parses the text as a `toml_edit::DocumentMut`, takes the table under
/// `table` with `get_mut` and `as_table_mut`, puts the string there with
/// `Table::insert` and `toml_edit::value`, and writes the document out.
/// Believed of `toml_edit`, not proved: the text that comes out depends on
/// the four texts that go in alone.
#[verifier::external_body]
pub(crate) fn with_string_in_table(
    content: &str,
    table: &str,
    key: &str,
    value: &str,
) -> (updated: Option<String>)
    ensures
        updated_view(updated) == string_set_in_table(content@, seq![table@], key@, value@),
{
    let mut doc = content.parse::<toml_edit::DocumentMut>().ok()?;
    let inner = doc.get_mut(table)?.as_table_mut()?;
    inner.insert(key, toml_edit::value(value));
    Some(doc.to_string())
}

/// As `with_string_in_table`, for the table under `table` in the table under
/// `outer`. Believed of `toml_edit`, not proved: the text that comes out
/// depends on the five texts that go in alone.
#[verifier::external_body]
pub(crate) fn with_string_in_subtable(
    content: &str,
    outer: &str,
    table: &str,
    key: &str,
    value: &str,
) -> (updated: Option<String>)
    ensures
        updated_view(updated) == string_set_in_table(
            content@,
            seq![outer@, table@],
            key@,
            value@,
        ),
{
    let mut doc = content.parse::<toml_edit::DocumentMut>().ok()?;
    let inner = doc.get_mut(outer)?.as_table_mut()?.get_mut(table)?.as_table_mut()?;
    inner.insert(key, toml_edit::value(value));
    Some(doc.to_string())
}

/// Errors of setting the version of a manifest.
#[derive(Clone, Copy, Debug, PartialEq, Eq, Structural)]
pub enum VersionUpdateError {
    /// The manifest is no TOML document.
    InvalidToml,
    /// The manifest has neither a table `package` nor a table
    /// `workspace.package`.
    NoPackageSection,
}

impl VersionUpdateError {
    /// The message of this error.
    pub fn to_string(&self) -> (message: String)
        ensures
            message@ == (match *self {
                VersionUpdateError::InvalidToml => "Failed to parse TOML"@,
                VersionUpdateError::NoPackageSection =>
                    "Could not find [package] or [workspace.package] section"@,
            }),
    {
        match self {
            VersionUpdateError::InvalidToml => "Failed to parse TOML".to_owned(),
            VersionUpdateError::NoPackageSection =>
                "Could not find [package] or [workspace.package] section".to_owned(),
        }
    }
}

/// The manifest with its version set, given what putting the version in
/// either place came to: the table `package` goes first, the table
/// `workspace.package` second. A text that is no document, or a document
/// with neither table, is an error.
pub open spec fn updated_manifest(
    readable: bool,
    in_package: Option<Seq<char>>,
    in_workspace: Option<Seq<char>>,
) -> Result<Seq<char>, VersionUpdateError> {
    if !readable {
        Err(VersionUpdateError::InvalidToml)
    } else {
        match in_package {
            Some(text) => Ok(text),
            None => match in_workspace {
                Some(text) => Ok(text),
                None => Err(VersionUpdateError::NoPackageSection),
            },
        }
    }
}

/// The view of a result that holds a string.
pub open spec fn result_view(result: Result<String, VersionUpdateError>) -> Result<
    Seq<char>,
    VersionUpdateError,
> {
    match result {
        Ok(text) => Ok(text@),
        Err(e) => Err(e),
    }
}

/// The manifest with its version set, given what putting the version in
/// either place came to.
pub fn choose_updated(
    readable: bool,
    in_package: Option<String>,
    in_workspace: Option<String>,
) -> (result: Result<String, VersionUpdateError>)
    ensures
        result_view(result) == updated_manifest(
            readable,
            updated_view(in_package),
            updated_view(in_workspace),
        ),
{
    if !readable {
        return Err(VersionUpdateError::InvalidToml);
    }
    match in_package {
        Some(text) => Ok(text),
        None => match in_workspace {
            Some(text) => Ok(text),
            None => Err(VersionUpdateError::NoPackageSection),
        },
    }
}

/// The text of a manifest with its version set to `new_version`: in the
/// table `package` where there is one, else in the table
/// `workspace.package`. Everything else in the text is left to `toml_edit`.
/// The old version plays no part.
pub fn update_cargo_toml_version(
    content: &str,
    _old_version: &str,
    new_version: &str,
) -> (result: Result<String, VersionUpdateError>)
    ensures
        result_view(result) == updated_manifest(
            editable_document(content@),
            string_set_in_table(content@, seq!["package"@], "version"@, new_version@),
            string_set_in_table(
                content@,
                seq!["workspace"@, "package"@],
                "version"@,
                new_version@,
            ),
        ),
{
    if !manifest_parses(content) {
        return Err(VersionUpdateError::InvalidToml);
    }
    match with_string_in_table(content, "package", "version", new_version) {
        Some(text) => Ok(text),
        None => choose_updated(
            true,
            None,
            with_string_in_subtable(content, "workspace", "package", "version", new_version),
        ),
    }
}

} // verus!
