//! How a stored project is read: which text formats are tried for a file,
//! going by the file's extension.

use vstd::prelude::*;
use vstd::string::*;

verus! {

/// The structured text formats in which a project is stored.
#[derive(Clone, Copy, Debug, PartialEq, Eq, Structural)]
pub enum ProjectFormat {
    Json,
    Toml,
}

/// The formats to try for an extension, in order: JSON alone for `json`,
/// TOML alone for `mahproj` and `toml`, and for every other extension JSON
/// first and TOML where that fails.
pub open spec fn spec_parse_attempts(extension: Seq<char>) -> Seq<ProjectFormat> {
    if extension == "json"@ {
        seq![ProjectFormat::Json]
    } else if extension == "mahproj"@ || extension == "toml"@ {
        seq![ProjectFormat::Toml]
    } else {
        seq![ProjectFormat::Json, ProjectFormat::Toml]
    }
}

/// The formats in which the text of a project file is parsed, by the
/// file's extension (without the dot; empty where the file has none).
pub fn parse_attempts(extension: &str) -> (formats: Vec<ProjectFormat>)
    ensures
        formats@ == spec_parse_attempts(extension@),
{
    let given = String::from_str(extension);
    let mut formats: Vec<ProjectFormat> = Vec::new();
    if given == String::from_str("json") {
        formats.push(ProjectFormat::Json);
    } else if given == String::from_str("mahproj") || given == String::from_str("toml") {
        formats.push(ProjectFormat::Toml);
    } else {
        formats.push(ProjectFormat::Json);
        formats.push(ProjectFormat::Toml);
    }
    assert(formats@ =~= spec_parse_attempts(extension@));
    formats
}

} // verus!
