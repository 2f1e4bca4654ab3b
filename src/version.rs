//! The container version attribute and its compatibility rule.
use vstd::prelude::*;
use vstd::string::*;

use crate::filesystem::{decimal, push_decimal};
use crate::json::{find_entry, find_key, json_of, lemma_json_of_object, Json, JsonValue};
use crate::N5Error;

verus! {

/// Major part of the N5 format version this library writes.
pub const VERSION_MAJOR: u64 = 2;

/// Minor part of the N5 format version this library writes.
pub const VERSION_MINOR: u64 = 1;

/// Patch part of the N5 format version this library writes.
pub const VERSION_PATCH: u64 = 3;

/// Key of the version attribute in the container root.
pub const VERSION_ATTRIBUTE_KEY: &'static str = "n5";

/// A semantic version: major, minor and patch numbers.
#[derive(PartialEq, Eq, Structural, Debug, Clone, Copy)]
pub struct Version {
    pub major: u64,
    pub minor: u64,
    pub patch: u64,
}

/// The format version this library writes.
pub open spec fn spec_library_version() -> Version {
    Version { major: VERSION_MAJOR, minor: VERSION_MINOR, patch: VERSION_PATCH }
}

/// The format version this library writes.
pub fn library_version() -> (r: Version)
    ensures
        r == spec_library_version(),
{
    Version { major: VERSION_MAJOR, minor: VERSION_MINOR, patch: VERSION_PATCH }
}

/// Whether a container of version `other` can be handled by a library of
/// version `s`: its major version is not newer.
pub fn is_version_compatible(s: &Version, other: &Version) -> (r: bool)
    ensures
        r == (other.major <= s.major),
{
    other.major <= s.major
}

/// The text of a version, `major.minor.patch`.
pub open spec fn version_text(v: Version) -> Seq<char> {
    decimal(v.major as nat) + seq!['.'] + decimal(v.minor as nat) + seq!['.'] + decimal(
        v.patch as nat,
    )
}

impl Version {
    /// The text of the version, `major.minor.patch`.
    pub fn to_text(&self) -> (r: String)
        ensures
            r@ == version_text(*self),
    {
        proof {
            reveal_strlit(".");
        }
        let mut s = String::new();
        push_decimal(self.major, &mut s);
        s.append(".");
        push_decimal(self.minor, &mut s);
        s.append(".");
        push_decimal(self.patch, &mut s);
        assert(s@ =~= version_text(*self));
        s
    }
}

/// Major, minor and patch of the semantic version that `s` spells, if it
/// spells one.
pub uninterp spec fn semver_triple(s: Seq<char>) -> Option<(u64, u64, u64)>;

/// Relies on `semver::Version::parse`: whether `s` is a semantic version,
/// and its major, minor and patch numbers.
#[verifier::external_body]
fn parse_semver(s: &str) -> (r: Option<(u64, u64, u64)>)
    ensures
        r == semver_triple(s@),
{
    match semver::Version::parse(s) {
        Ok(v) => Some((v.major, v.minor, v.patch)),
        Err(_) => None,
    }
}

/// The version of a parsed triple; `InvalidData` when there is none.
pub fn version_of_triple(t: Option<(u64, u64, u64)>) -> (r: Result<Version, N5Error>)
    ensures
        match t {
            Some((a, b, c)) => r == Ok::<Version, N5Error>(Version { major: a, minor: b, patch: c }),
            None => r == Err::<Version, N5Error>(N5Error::InvalidData),
        },
{
    match t {
        Some((a, b, c)) => Ok(Version { major: a, minor: b, patch: c }),
        None => Err(N5Error::InvalidData),
    }
}

/// Reads a semantic version; `InvalidData` when `s` is not one.
pub fn parse_version(s: &str) -> (r: Result<Version, N5Error>)
    ensures
        match semver_triple(s@) {
            Some((a, b, c)) => r == Ok::<Version, N5Error>(Version { major: a, minor: b, patch: c }),
            None => r == Err::<Version, N5Error>(N5Error::InvalidData),
        },
{
    version_of_triple(parse_semver(s))
}

/// The value of the version attribute among the attributes `j`, if present.
pub open spec fn version_entry(j: Json) -> Option<Json> {
    match j {
        Json::Object(e) => {
            let i = find_key(e, VERSION_ATTRIBUTE_KEY@);
            if i >= 0 {
                Some(e[i].1)
            } else {
                None
            }
        },
        _ => None,
    }
}

/// What the root attributes `j` say of the container version, given how
/// version texts read.
pub open spec fn stored_version(j: Json) -> Result<Version, N5Error> {
    match version_entry(j) {
        None => Err(N5Error::NotFound),
        Some(Json::Str(t)) => match semver_triple(t) {
            Some((a, b, c)) => Ok(Version { major: a, minor: b, patch: c }),
            None => Err(N5Error::InvalidData),
        },
        Some(_) => Err(N5Error::InvalidData),
    }
}

/// The container version recorded in the root attributes `attrs`:
/// `NotFound` when absent, `InvalidData` when not a version text.
pub fn version_from_attributes(attrs: &JsonValue) -> (r: Result<Version, N5Error>)
    ensures
        r == stored_version(json_of(*attrs)),
{
    match attrs {
        JsonValue::Object(entries) => {
            proof {
                lemma_json_of_object(*entries);
            }
            proof {
                reveal_strlit("n5");
            }
            let key = String::from_str(VERSION_ATTRIBUTE_KEY);
            match find_entry(entries, &key) {
                Some(i) => match &entries[i].1 {
                    JsonValue::String(t) => parse_version(t.as_str()),
                    _ => Err(N5Error::InvalidData),
                },
                None => Err(N5Error::NotFound),
            }
        },
        _ => Err(N5Error::NotFound),
    }
}

/// The attributes that record this library's version in a container root.
pub fn version_attributes() -> (r: JsonValue)
    ensures
        json_of(r) == Json::Object(
            seq![(VERSION_ATTRIBUTE_KEY@, Json::Str(version_text(spec_library_version())))],
        ),
{
    proof {
        reveal_strlit("n5");
    }
    let text = library_version().to_text();
    let mut entries: Vec<(String, JsonValue)> = Vec::new();
    entries.push((String::from_str(VERSION_ATTRIBUTE_KEY), JsonValue::String(text)));
    proof {
        lemma_json_of_object(entries);
    }
    let r = JsonValue::Object(entries);
    assert(crate::json::entries_of(entries@) =~= seq![
        (VERSION_ATTRIBUTE_KEY@, Json::Str(version_text(spec_library_version()))),
    ]);
    r
}

} // verus!
