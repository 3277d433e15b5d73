//! The `badge` command: the markdown of each badge, the order of the badges,
//! the package they are made for, and the number of its tests.
//!
//! What is asked of the file system, of the network and of cargo is asked by
//! the caller; the functions here are given the answers.

use vstd::prelude::*;

use crate::text::{
    chars_of, contains_text, has_prefix, split, split_chars, str_contains, string_of,
    strip_prefix, strs_equal, texts_view,
};
use crate::version::{decimal_text, push_number};

verus! {

/// Arguments of the `badge` command.
#[derive(Clone, Debug, PartialEq, Eq)]
pub struct BadgeArgs {
    /// Make no request to the network and guess instead.
    pub no_network: bool,
    /// The badge to make.
    pub subcommand: BadgeSubcommand,
}

/// The badges.
#[derive(Clone, Copy, Debug, PartialEq, Eq, Structural)]
pub enum BadgeSubcommand {
    /// Every badge.
    All,
    /// The documentation on docs.rs.
    Rustdocs,
    /// The package on crates.io.
    Cratesio,
    /// The license.
    License,
    /// The edition of Rust.
    RustEdition,
    /// The async runtime.
    Runtime,
    /// The web framework.
    Framework,
    /// The platforms.
    Platform,
    /// The architecture decision records.
    ADRs,
    /// The test coverage.
    Coverage,
    /// The number of tests.
    NumberOfTests,
}

/// The badges that a subcommand makes, in order: `All` makes every badge,
/// any other subcommand its own.
pub open spec fn badges_of(subcommand: BadgeSubcommand) -> Seq<BadgeSubcommand> {
    match subcommand {
        BadgeSubcommand::All => seq![
            BadgeSubcommand::Rustdocs,
            BadgeSubcommand::Cratesio,
            BadgeSubcommand::License,
            BadgeSubcommand::RustEdition,
            BadgeSubcommand::Runtime,
            BadgeSubcommand::Framework,
            BadgeSubcommand::Platform,
            BadgeSubcommand::ADRs,
            BadgeSubcommand::Coverage,
            BadgeSubcommand::NumberOfTests,
        ],
        other => seq![other],
    }
}

/// The badges that every badge is made of, in order.
pub fn badge_all() -> (badges: Vec<BadgeSubcommand>)
    ensures
        badges@ == badges_of(BadgeSubcommand::All),
{
    let mut badges: Vec<BadgeSubcommand> = Vec::new();
    badges.push(BadgeSubcommand::Rustdocs);
    badges.push(BadgeSubcommand::Cratesio);
    badges.push(BadgeSubcommand::License);
    badges.push(BadgeSubcommand::RustEdition);
    badges.push(BadgeSubcommand::Runtime);
    badges.push(BadgeSubcommand::Framework);
    badges.push(BadgeSubcommand::Platform);
    badges.push(BadgeSubcommand::ADRs);
    badges.push(BadgeSubcommand::Coverage);
    badges.push(BadgeSubcommand::NumberOfTests);
    proof {
        assert(badges@ =~= badges_of(BadgeSubcommand::All));
    }
    badges
}

/// The badges that the arguments ask for, in the order in which to make
/// them.
pub fn badge(args: &BadgeArgs) -> (badges: Vec<BadgeSubcommand>)
    ensures
        badges@ == badges_of(args.subcommand),
{
    match args.subcommand {
        BadgeSubcommand::All => badge_all(),
        other => {
            let mut badges: Vec<BadgeSubcommand> = Vec::new();
            badges.push(other);
            proof {
                assert(badges@ =~= badges_of(args.subcommand));
            }
            badges
        },
    }
}

/// The markdown of a badge: an image that links somewhere, on a line of its
/// own.
pub open spec fn badge_line(label: Seq<char>, image: Seq<char>, link: Seq<char>) -> Seq<char> {
    "[!["@ + label + "]("@ + image + ")]("@ + link + ")\n"@
}

/// The markdown of a badge.
pub fn make_badge_line(label: &str, image: &str, link: &str) -> (line: String)
    ensures
        line@ == badge_line(label@, image@, link@),
{
    let mut line = "[![".to_owned();
    line.append(label);
    line.append("](");
    line.append(image);
    line.append(")](");
    line.append(link);
    line.append(")\n");
    line
}

/// The badge of the architecture decision records, where the package has
/// any; nothing where it has none.
pub fn badge_adrs(has_adrs: bool) -> (markdown: String)
    ensures
        markdown@ == (if has_adrs {
            badge_line(
                "ADRs"@,
                "https://img.shields.io/badge/ADRs-index-informational"@,
                "docs/adr/index.typ"@,
            )
        } else {
            Seq::empty()
        }),
{
    if has_adrs {
        make_badge_line(
            "ADRs",
            "https://img.shields.io/badge/ADRs-index-informational",
            "docs/adr/index.typ",
        )
    } else {
        String::new()
    }
}

/// The address that tells whether crates.io has the package.
pub fn crates_io_api_url(package_name: &str) -> (url: String)
    ensures
        url@ == "https://crates.io/api/v1/crates/"@ + package_name@,
{
    let mut url = "https://crates.io/api/v1/crates/".to_owned();
    url.append(package_name);
    url
}

/// The address of the documentation of the package on docs.rs.
pub fn docs_rs_url(package_name: &str) -> (url: String)
    ensures
        url@ == "https://docs.rs/"@ + package_name@,
{
    let mut url = "https://docs.rs/".to_owned();
    url.append(package_name);
    url
}

/// The badge of the package on crates.io, where it is published there;
/// nothing where it is not.
pub fn badge_cratesio(package_name: &str, published: bool) -> (markdown: String)
    ensures
        markdown@ == (if published {
            badge_line(
                "crates.io"@,
                "https://img.shields.io/crates/v/"@ + package_name@,
                "https://crates.io/crates/"@ + package_name@,
            )
        } else {
            Seq::empty()
        }),
{
    if published {
        let mut image = "https://img.shields.io/crates/v/".to_owned();
        image.append(package_name);
        let mut link = "https://crates.io/crates/".to_owned();
        link.append(package_name);
        make_badge_line("crates.io", image.as_str(), link.as_str())
    } else {
        String::new()
    }
}

/// The badge of the documentation on docs.rs, where the package is published
/// there; nothing where it is not.
pub fn badge_rustdocs(package_name: &str, published: bool) -> (markdown: String)
    ensures
        markdown@ == (if published {
            badge_line(
                "docs.rs"@,
                "https://img.shields.io/docsrs/"@ + package_name@,
                "https://docs.rs/"@ + package_name@,
            )
        } else {
            Seq::empty()
        }),
{
    if published {
        let mut image = "https://img.shields.io/docsrs/".to_owned();
        image.append(package_name);
        let link = docs_rs_url(package_name);
        make_badge_line("docs.rs", image.as_str(), link.as_str())
    } else {
        String::new()
    }
}

/// One of the names is `name`.
pub open spec fn names_hold(names: Seq<String>, name: Seq<char>) -> bool {
    exists|i: int| 0 <= i < names.len() && (#[trigger] names[i])@ == name
}

/// Whether one of the names is `name`.
pub fn has_name(names: &Vec<String>, name: &str) -> (found: bool)
    ensures
        found == names_hold(names@, name@),
{
    let mut i: usize = 0;
    while i < names.len()
        invariant
            i <= names.len(),
            forall|j: int| 0 <= j < i ==> (#[trigger] names@[j])@ != name@,
        decreases names.len() - i,
    {
        if strs_equal(names[i].as_str(), name) {
            return true;
        }
        i += 1;
    }
    false
}

/// The badge of the web framework, where the package depends on `axum`;
/// nothing where it does not.
pub fn badge_framework(dependencies: &Vec<String>) -> (markdown: String)
    ensures
        markdown@ == (if names_hold(dependencies@, "axum"@) {
            badge_line(
                "Framework"@,
                "https://img.shields.io/badge/web%20framework-Axum-blueviolet"@,
                "docs/adr/0008-web-framework-axum.typ"@,
            )
        } else {
            Seq::empty()
        }),
{
    if has_name(dependencies, "axum") {
        make_badge_line(
            "Framework",
            "https://img.shields.io/badge/web%20framework-Axum-blueviolet",
            "docs/adr/0008-web-framework-axum.typ",
        )
    } else {
        String::new()
    }
}

/// The badge of the async runtime, where the package depends on `tokio`;
/// nothing where it does not.
pub fn badge_runtime(dependencies: &Vec<String>) -> (markdown: String)
    ensures
        markdown@ == (if names_hold(dependencies@, "tokio"@) {
            badge_line(
                "Runtime"@,
                "https://img.shields.io/badge/runtime-Tokio-blue"@,
                "docs/adr/0007-async-runtime-tokio.typ"@,
            )
        } else {
            Seq::empty()
        }),
{
    if has_name(dependencies, "tokio") {
        make_badge_line(
            "Runtime",
            "https://img.shields.io/badge/runtime-Tokio-blue",
            "docs/adr/0007-async-runtime-tokio.typ",
        )
    } else {
        String::new()
    }
}

/// A text with `%20` in place of each space.
pub open spec fn encode_spaces(text: Seq<char>) -> Seq<char>
    decreases text.len(),
{
    if text.len() == 0 {
        Seq::empty()
    } else if text.last() == ' ' {
        encode_spaces(text.drop_last()) + "%20"@
    } else {
        encode_spaces(text.drop_last()).push(text.last())
    }
}

/// A text with `%20` in place of each space.
pub fn encode_license(text: &str) -> (encoded: String)
    ensures
        encoded@ == encode_spaces(text@),
{
    let chars = chars_of(text);
    let mut encoded = String::new();
    let mut i: usize = 0;
    while i < chars.len()
        invariant
            i <= chars.len(),
            chars@ == text@,
            encoded@ == encode_spaces(chars@.take(i as int)),
        decreases chars.len() - i,
    {
        proof {
            assert(chars@.take(i + 1).drop_last() == chars@.take(i as int));
            assert(chars@.take(i + 1).last() == chars@[i as int]);
        }
        if chars[i] == ' ' {
            encoded.append("%20");
        } else {
            encoded.push(chars[i]);
        }
        i += 1;
    }
    proof {
        assert(chars@.take(i as int) == chars@);
    }
    encoded
}

/// The badge of the license, where the package names one; nothing where it
/// names none.
pub fn badge_license(license: Option<&str>) -> (markdown: String)
    ensures
        markdown@ == (match license {
            Some(l) => badge_line(
                "license"@,
                "https://img.shields.io/crates/l/"@ + encode_spaces(l@),
                "https://opensource.org/licenses/"@ + encode_spaces(l@),
            ),
            None => Seq::empty(),
        }),
{
    match license {
        Some(l) => {
            let encoded = encode_license(l);
            let mut image = "https://img.shields.io/crates/l/".to_owned();
            image.append(encoded.as_str());
            let mut link = "https://opensource.org/licenses/".to_owned();
            link.append(encoded.as_str());
            make_badge_line("license", image.as_str(), link.as_str())
        },
        None => String::new(),
    }
}

/// The badge of the edition of Rust.
pub fn badge_rust_edition(edition: &str) -> (markdown: String)
    ensures
        markdown@ == badge_line(
            "Rust Edition"@,
            "https://img.shields.io/badge/rust%20edition-"@ + edition@ + "-orange"@,
            "Cargo.toml"@,
        ),
{
    let mut image = "https://img.shields.io/badge/rust%20edition-".to_owned();
    image.append(edition);
    image.append("-orange");
    make_badge_line("Rust Edition", image.as_str(), "Cargo.toml")
}

/// The badge of the number of tests, where the number is known; nothing
/// where it is not.
pub fn badge_number_of_tests(test_count: Option<u32>) -> (markdown: String)
    ensures
        markdown@ == (match test_count {
            Some(count) => badge_line(
                "Tests"@,
                "https://img.shields.io/badge/tests-"@ + decimal_text(count as nat) + "-blue"@,
                "tests/"@,
            ),
            None => Seq::empty(),
        }),
{
    match test_count {
        Some(count) => {
            let mut digits: Vec<char> = Vec::new();
            push_number(&mut digits, count);
            proof {
                assert(digits@ =~= decimal_text(count as nat));
            }
            let number = string_of(digits.as_slice());
            let mut image = "https://img.shields.io/badge/tests-".to_owned();
            image.append(number.as_str());
            image.append("-blue");
            make_badge_line("Tests", image.as_str(), "tests/")
        },
        None => String::new(),
    }
}

/// A package as the metadata of cargo lists it, with where it lies.
#[derive(Clone, Debug, PartialEq, Eq)]
pub struct PackageLocation {
    /// The identity of the package.
    pub id: String,
    /// The directory of the manifest, resolved, where it can be resolved.
    pub directory: Option<String>,
    /// The path of the manifest, resolved, where it can be resolved.
    pub manifest: Option<String>,
}

/// Where the command runs and what the metadata of cargo says.
#[derive(Clone, Debug, PartialEq, Eq)]
pub struct PackageContext {
    /// The current directory, resolved, where it can be resolved.
    pub current_dir: Option<String>,
    /// The path of `Cargo.toml` in the current directory, resolved, where it
    /// can be resolved.
    pub current_manifest: Option<String>,
    /// Every package, in the order of the metadata.
    pub packages: Vec<PackageLocation>,
    /// The identity of the root package, if there is one.
    pub root: Option<String>,
    /// The identities of the default members of the workspace, where the
    /// metadata gives them.
    pub default_members: Option<Vec<String>>,
}

/// Errors of the `badge` command.
#[derive(Clone, Copy, Debug, PartialEq, Eq, Structural)]
pub enum BadgeError {
    /// No package can be made out.
    NoPackage,
}

impl BadgeError {
    /// The message of this error.
    pub fn to_string(&self) -> (message: String)
        ensures
            message@
                == "No package found in current directory. Run this command from a package directory, or use --manifest-path to specify a package."@,
    {
        "No package found in current directory. Run this command from a package directory, or use --manifest-path to specify a package.".to_owned()
    }
}

/// The view of an optional string.
pub open spec fn maybe_text(text: Option<String>) -> Option<Seq<char>> {
    match text {
        Some(t) => Some(t@),
        None => None,
    }
}

/// The first place from `from` on whose package lies in the directory
/// `dir`.
pub open spec fn first_in_directory(
    packages: Seq<PackageLocation>,
    dir: Seq<char>,
    from: int,
) -> Option<int>
    decreases packages.len() - from,
{
    if from < 0 || from >= packages.len() {
        None
    } else if maybe_text(packages[from].directory) == Some(dir) {
        Some(from)
    } else {
        first_in_directory(packages, dir, from + 1)
    }
}

/// The first place from `from` on whose package has the manifest
/// `manifest`.
pub open spec fn first_with_manifest(
    packages: Seq<PackageLocation>,
    manifest: Seq<char>,
    from: int,
) -> Option<int>
    decreases packages.len() - from,
{
    if from < 0 || from >= packages.len() {
        None
    } else if maybe_text(packages[from].manifest) == Some(manifest) {
        Some(from)
    } else {
        first_with_manifest(packages, manifest, from + 1)
    }
}

/// The first place from `from` on whose package has the identity `id`.
pub open spec fn first_with_id(
    packages: Seq<PackageLocation>,
    id: Seq<char>,
    from: int,
) -> Option<int>
    decreases packages.len() - from,
{
    if from < 0 || from >= packages.len() {
        None
    } else if packages[from].id@ == id {
        Some(from)
    } else {
        first_with_id(packages, id, from + 1)
    }
}

/// The package that the command is about: the first that lies in the current
/// directory; else the first whose manifest is `Cargo.toml` of the current
/// directory; else the root package; else the package of the first default
/// member.
pub open spec fn package_in_context(context: PackageContext) -> Option<int> {
    let packages = context.packages@;
    let by_directory = match context.current_dir {
        Some(dir) => first_in_directory(packages, dir@, 0),
        None => None,
    };
    let by_manifest = match context.current_manifest {
        Some(manifest) => first_with_manifest(packages, manifest@, 0),
        None => None,
    };
    let root = match context.root {
        Some(id) => first_with_id(packages, id@, 0),
        None => None,
    };
    let by_default = match context.default_members {
        Some(members) => if members@.len() > 0 {
            first_with_id(packages, members@[0]@, 0)
        } else {
            None
        },
        None => None,
    };
    if by_directory is Some {
        by_directory
    } else if by_manifest is Some {
        by_manifest
    } else if root is Some {
        root
    } else {
        by_default
    }
}

/// The first place whose package lies in the directory `dir`.
pub fn find_in_directory(packages: &Vec<PackageLocation>, dir: &str) -> (found: Option<usize>)
    ensures
        match found {
            Some(i) => first_in_directory(packages@, dir@, 0) == Some(i as int) && i
                < packages@.len(),
            None => first_in_directory(packages@, dir@, 0) is None,
        },
{
    let mut i: usize = 0;
    while i < packages.len()
        invariant
            i <= packages.len(),
            first_in_directory(packages@, dir@, 0) == first_in_directory(
                packages@,
                dir@,
                i as int,
            ),
        decreases packages.len() - i,
    {
        let here = match &packages[i].directory {
            Some(d) => strs_equal(d.as_str(), dir),
            None => false,
        };
        if here {
            return Some(i);
        }
        i += 1;
    }
    None
}

/// The first place whose package has the manifest `manifest`.
pub fn find_with_manifest(
    packages: &Vec<PackageLocation>,
    manifest: &str,
) -> (found: Option<usize>)
    ensures
        match found {
            Some(i) => first_with_manifest(packages@, manifest@, 0) == Some(i as int) && i
                < packages@.len(),
            None => first_with_manifest(packages@, manifest@, 0) is None,
        },
{
    let mut i: usize = 0;
    while i < packages.len()
        invariant
            i <= packages.len(),
            first_with_manifest(packages@, manifest@, 0) == first_with_manifest(
                packages@,
                manifest@,
                i as int,
            ),
        decreases packages.len() - i,
    {
        let here = match &packages[i].manifest {
            Some(m) => strs_equal(m.as_str(), manifest),
            None => false,
        };
        if here {
            return Some(i);
        }
        i += 1;
    }
    None
}

/// The first place whose package has the identity `id`.
pub fn find_with_id(packages: &Vec<PackageLocation>, id: &str) -> (found: Option<usize>)
    ensures
        match found {
            Some(i) => first_with_id(packages@, id@, 0) == Some(i as int) && i < packages@.len(),
            None => first_with_id(packages@, id@, 0) is None,
        },
{
    let mut i: usize = 0;
    while i < packages.len()
        invariant
            i <= packages.len(),
            first_with_id(packages@, id@, 0) == first_with_id(packages@, id@, i as int),
        decreases packages.len() - i,
    {
        if strs_equal(packages[i].id.as_str(), id) {
            return Some(i);
        }
        i += 1;
    }
    None
}

/// The place of the package that the command is about.
pub fn find_package(context: &PackageContext) -> (found: Result<usize, BadgeError>)
    ensures
        match package_in_context(*context) {
            Some(i) => found == Ok::<usize, BadgeError>(i as usize) && 0 <= i
                < context.packages@.len(),
            None => found == Err::<usize, BadgeError>(BadgeError::NoPackage),
        },
{
    if let Some(dir) = &context.current_dir {
        if let Some(i) = find_in_directory(&context.packages, dir.as_str()) {
            return Ok(i);
        }
    }
    if let Some(manifest) = &context.current_manifest {
        if let Some(i) = find_with_manifest(&context.packages, manifest.as_str()) {
            return Ok(i);
        }
    }
    if let Some(id) = &context.root {
        if let Some(i) = find_with_id(&context.packages, id.as_str()) {
            return Ok(i);
        }
    }
    if let Some(members) = &context.default_members {
        if members.len() > 0 {
            if let Some(i) = find_with_id(&context.packages, members[0].as_str()) {
                return Ok(i);
            }
        }
    }
    Err(BadgeError::NoPackage)
}

/// What cargo says of one thing it has built, as far as counting tests
/// goes.
#[derive(Clone, Debug, PartialEq, Eq)]
pub struct CargoMessage {
    /// The member `reason`, where it is a string.
    pub reason: Option<String>,
    /// The member `package_id`, where it is a string.
    pub package_id: Option<String>,
    /// The strings of the member `kind` of the member `target`, where that
    /// is an array.
    pub target_kinds: Option<Vec<String>>,
    /// Whether the member `executable` is a string.
    pub has_executable: bool,
}

/// The message tells of a test executable of the package: it is a compiler
/// artifact, of a package whose identity begins with the name of the package
/// and `@`, for a target of the kind `test`, with an executable.
pub open spec fn is_test_artifact(message: CargoMessage, package_name: Seq<char>) -> bool {
    &&& maybe_text(message.reason) == Some("compiler-artifact"@)
    &&& message.package_id is Some
    &&& has_prefix(message.package_id->Some_0@, package_name + "@"@)
    &&& message.target_kinds is Some
    &&& names_hold(message.target_kinds->Some_0@, "test"@)
    &&& message.has_executable
}

/// The number of messages among the first `n` that tell of a test
/// executable of the package.
pub open spec fn test_artifacts(messages: Seq<CargoMessage>, package_name: Seq<char>, n: int) -> nat
    decreases n,
{
    if n <= 0 {
        0
    } else {
        test_artifacts(messages, package_name, n - 1) + if is_test_artifact(
            messages[n - 1],
            package_name,
        ) {
            1nat
        } else {
            0nat
        }
    }
}

/// The number of test executables of the package that cargo has built.
pub fn count_test_artifacts(messages: &Vec<CargoMessage>, package_name: &str) -> (count: usize)
    ensures
        count == test_artifacts(messages@, package_name@, messages@.len() as int),
{
    let mut prefix = package_name.to_owned();
    prefix.append("@");
    let prefix_chars = chars_of(prefix.as_str());
    let mut count: usize = 0;
    let mut i: usize = 0;
    while i < messages.len()
        invariant
            i <= messages.len(),
            prefix_chars@ == package_name@ + "@"@,
            count == test_artifacts(messages@, package_name@, i as int),
            count <= i,
        decreases messages.len() - i,
    {
        let message = &messages[i];
        let is_artifact = match &message.reason {
            Some(reason) => strs_equal(reason.as_str(), "compiler-artifact"),
            None => false,
        };
        let ours = match &message.package_id {
            Some(id) => {
                let id_chars = chars_of(id.as_str());
                let rest = strip_prefix(id_chars.as_slice(), prefix_chars.as_slice());
                rest.is_some()
            },
            None => false,
        };
        let is_test = match &message.target_kinds {
            Some(kinds) => has_name(kinds, "test"),
            None => false,
        };
        if is_artifact && ours && is_test && message.has_executable {
            count += 1;
        }
        i += 1;
    }
    count
}

/// The number of parts among the first `n` that hold `: test`.
pub open spec fn listed_tests(lines: Seq<Seq<char>>, n: int) -> nat
    decreases n,
{
    if n <= 0 {
        0
    } else {
        listed_tests(lines, n - 1) + if contains_text(lines[n - 1], ": test"@) {
            1nat
        } else {
            0nat
        }
    }
}

/// The number of tests that the test harness lists: the lines of its output
/// that hold `: test`.
pub fn count_listed_tests(output: &str) -> (count: usize)
    ensures
        count == listed_tests(split(output@, '\n'), split(output@, '\n').len() as int),
{
    let chars = chars_of(output);
    let lines = split_chars(chars.as_slice(), '\n');
    let ghost all = split(output@, '\n');
    let mut count: usize = 0;
    let mut i: usize = 0;
    proof {
        assert(texts_view(lines@).len() == lines@.len());
    }
    while i < lines.len()
        invariant
            i <= lines.len(),
            texts_view(lines@) == all,
            all.len() == lines@.len(),
            count == listed_tests(all, i as int),
            count <= i,
        decreases lines.len() - i,
    {
        let line = string_of(lines[i].as_slice());
        proof {
            assert(all[i as int] == lines@[i as int]@);
        }
        if str_contains(line.as_str(), ": test") {
            count += 1;
        }
        i += 1;
    }
    count
}

/// What is remembered of a count of tests.
#[derive(Clone, Debug, PartialEq, Eq)]
pub struct TestCountCache {
    /// The name of the package.
    pub package: String,
    /// What the count was made from.
    pub cache_key: String,
    /// The number of tests.
    pub test_count: u32,
}

/// The count that is remembered for this package and this key, if any.
pub fn cached_test_count(
    cache: &Option<TestCountCache>,
    package_name: &str,
    cache_key: &str,
) -> (count: Option<u32>)
    ensures
        count == (match *cache {
            Some(c) => if c.cache_key@ == cache_key@ && c.package@ == package_name@ {
                Some(c.test_count)
            } else {
                None
            },
            None => None,
        }),
{
    match cache {
        Some(c) => if strs_equal(c.cache_key.as_str(), cache_key) && strs_equal(
            c.package.as_str(),
            package_name,
        ) {
            Some(c.test_count)
        } else {
            None
        },
        None => None,
    }
}

/// What has been found out about the tests of a package so far.
#[derive(Clone, Debug, PartialEq, Eq)]
pub struct TestCountProgress {
    /// The count that is remembered, where one was looked for.
    pub cached: Option<Option<u32>>,
    /// The test executables that `cargo test --no-run --message-format json`
    /// has built, or `None` where it failed; where it has run.
    pub artifacts: Option<Option<usize>>,
    /// Whether `cargo test --no-run` succeeded, where it has run.
    pub compiled: Option<bool>,
    /// The tests that `cargo test -- --list` lists, or `None` where it
    /// failed; where it has run.
    pub listed: Option<Option<usize>>,
}

/// What to do next to count the tests of a package.
#[derive(Clone, Copy, Debug, PartialEq, Eq, Structural)]
pub enum TestCountStep {
    /// Look for a remembered count.
    ReadCache,
    /// Run `cargo test --no-run --message-format json` and count the test
    /// executables.
    BuildWithMessages,
    /// Run `cargo test --no-run`.
    Build,
    /// Run `cargo test -- --list` and count the tests.
    List,
    /// The package has this many tests: remember the count.
    Counted { count: u32 },
    /// The package has this many tests, as remembered.
    Remembered { count: u32 },
    /// The number of tests is not known.
    Unknown,
}

/// What a count is worth: nothing where it is zero or does not fit.
pub open spec fn usable_count(count: usize) -> Option<u32> {
    if 0 < count <= u32::MAX {
        Some(count as u32)
    } else {
        None
    }
}

/// What to do next to count the tests, given what has been found out: a
/// remembered count is taken; else the test executables are counted; else,
/// where there is none, the tests are listed after a build; a failed command
/// or a count of zero leaves the number unknown.
pub open spec fn next_test_count_step(progress: TestCountProgress) -> TestCountStep {
    match progress.cached {
        None => TestCountStep::ReadCache,
        Some(Some(count)) => TestCountStep::Remembered { count },
        Some(None) => match progress.artifacts {
            None => TestCountStep::BuildWithMessages,
            Some(None) => TestCountStep::Unknown,
            Some(Some(built)) => if usable_count(built) is Some {
                TestCountStep::Counted { count: usable_count(built)->Some_0 }
            } else if built > 0 {
                TestCountStep::Unknown
            } else {
                match progress.compiled {
                    None => TestCountStep::Build,
                    Some(false) => TestCountStep::Unknown,
                    Some(true) => match progress.listed {
                        None => TestCountStep::List,
                        Some(None) => TestCountStep::Unknown,
                        Some(Some(listed)) => match usable_count(listed) {
                            Some(count) => TestCountStep::Counted { count },
                            None => TestCountStep::Unknown,
                        },
                    },
                }
            },
        },
    }
}

/// What to do next to count the tests of a package.
pub fn get_test_count(progress: &TestCountProgress) -> (step: TestCountStep)
    ensures
        step == next_test_count_step(*progress),
{
    match progress.cached {
        None => TestCountStep::ReadCache,
        Some(Some(count)) => TestCountStep::Remembered { count },
        Some(None) => match progress.artifacts {
            None => TestCountStep::BuildWithMessages,
            Some(None) => TestCountStep::Unknown,
            Some(Some(built)) => if built > 0 {
                if built <= 0xFFFF_FFFF {
                    TestCountStep::Counted { count: built as u32 }
                } else {
                    TestCountStep::Unknown
                }
            } else {
                match progress.compiled {
                    None => TestCountStep::Build,
                    Some(false) => TestCountStep::Unknown,
                    Some(true) => match progress.listed {
                        None => TestCountStep::List,
                        Some(None) => TestCountStep::Unknown,
                        Some(Some(listed)) => if 0 < listed && listed <= 0xFFFF_FFFF {
                            TestCountStep::Counted { count: listed as u32 }
                        } else {
                            TestCountStep::Unknown
                        },
                    },
                }
            },
        },
    }
}

} // verus!
