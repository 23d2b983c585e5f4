//! Versions by their parts.

use semver::Version;
use vstd::prelude::*;

verus! {

/// The parts of a version: three numbers, a pre-release tag and build
/// metadata, the last two empty where the version has none.
#[derive(Debug, PartialEq, Eq)]
pub struct VersionParts {
    pub major: u64,
    pub minor: u64,
    pub patch: u64,
    pub pre: String,
    pub build: String,
}

/// The parts as plain values.
pub open spec fn parts_view(parts: VersionParts) -> (u64, u64, u64, Seq<char>, Seq<char>) {
    (parts.major, parts.minor, parts.patch, parts.pre@, parts.build@)
}

/// Why a version could not be read.
#[derive(Debug, Clone, Copy, PartialEq, Eq, Structural)]
pub enum VersionError {
    /// The text is no version.
    Syntax,
}

/// `semver::Error`, the reason why a text is no version.
#[verifier::external_type_specification]
#[verifier::external_body]
pub struct ExSemverError(semver::Error);

/// The parts of the version that `text` spells, `None` where it spells none.
pub uninterp spec fn version_parts(text: Seq<char>) -> Option<(u64, u64, u64, Seq<char>, Seq<char>)>;

/// `Version::parse`: the fields of the version, the pre-release tag and the
/// build metadata as `Prerelease::as_str` and `BuildMetadata::as_str` give
/// them, all as `version_parts` names them; an error where the text spells no
/// version.
#[verifier::external_body]
fn parse_version(text: &str) -> (parsed: Result<VersionParts, semver::Error>)
    ensures
        match parsed {
            Ok(parts) => version_parts(text@) == Some(parts_view(parts)),
            Err(_) => version_parts(text@) is None,
        },
{
    let v = Version::parse(text)?;
    Ok(
        VersionParts {
            major: v.major,
            minor: v.minor,
            patch: v.patch,
            pre: v.pre.as_str().to_owned(),
            build: v.build.as_str().to_owned(),
        },
    )
}

/// The parts of the version that `text` spells.
pub fn parse(text: &str) -> (parsed: Result<VersionParts, VersionError>)
    ensures
        match parsed {
            Ok(parts) => version_parts(text@) == Some(parts_view(parts)),
            Err(_) => version_parts(text@) is None,
        },
{
    match parse_version(text) {
        Ok(parts) => Ok(parts),
        Err(_) => Err(VersionError::Syntax),
    }
}

/// Whether `text` spells the release `major.minor.patch`, without
/// pre-release tag and build metadata; `None` where it spells no version.
pub open spec fn spells_release(text: Seq<char>, major: u64, minor: u64, patch: u64) -> Option<bool> {
    match version_parts(text) {
        Some(parts) => Some(
            parts == (major, minor, patch, Seq::<char>::empty(), Seq::<char>::empty()),
        ),
        None => None,
    }
}

/// Whether `text` spells the release `major.minor.patch`, without
/// pre-release tag and build metadata.
pub fn is_release(
    text: &str,
    major: u64,
    minor: u64,
    patch: u64,
) -> (outcome: Result<bool, VersionError>)
    ensures
        match outcome {
            Ok(same) => spells_release(text@, major, minor, patch) == Some(same),
            Err(_) => spells_release(text@, major, minor, patch) is None,
        },
{
    let parts = parse(text)?;
    let plain = parts.pre.as_str().is_empty() && parts.build.as_str().is_empty();
    proof {
        assert(parts.pre@.len() == 0 ==> parts.pre@ =~= Seq::<char>::empty());
        assert(parts.build@.len() == 0 ==> parts.build@ =~= Seq::<char>::empty());
    }
    Ok(parts.major == major && parts.minor == minor && parts.patch == patch && plain)
}

/// Whether `0.2.6` reads as the release 0.2.6.
pub fn version_test_1() -> (outcome: Result<bool, VersionError>)
    ensures
        match outcome {
            Ok(same) => spells_release("0.2.6"@, 0, 2, 6) == Some(same),
            Err(_) => spells_release("0.2.6"@, 0, 2, 6) is None,
        },
{
    is_release("0.2.6", 0, 2, 6)
}

} // verus!
