//! Commands: markdown files with optional frontmatter followed by the
//! command's template body.
use vstd::prelude::*;

use crate::discovery::{
    duplicate_issue, duplicated_names, file_stem, inspect, paths_named, scan_issues, scanned_items,
    string_views, unique_items, ArtifactKind, Problem, Scanned,
};
use crate::frontmatter::{source_file_error_text, RawCommandFrontmatter, SourceFileError};
use crate::fs_ops::name_stem;
use crate::models::{DiscoveredCommand, Inspection};
use crate::text::{blank_str, is_blank};

verus! {

/// What Hermes has of one command file.
#[derive(Debug)]
pub struct CommandFileScan {
    /// The file's path.
    pub path: String,
    /// The file's name, if it is valid UTF-8.
    pub file_name: Option<String>,
    /// The path relative to the source root, or `None` for an installed copy.
    pub rel_path: Option<String>,
    /// The frontmatter fields (`None` when the file has none) and the
    /// template body, or why they could not be had.
    pub frontmatter: Result<(Option<RawCommandFrontmatter>, String), SourceFileError>,
}

/// Why a file is not a valid command.
#[derive(Debug)]
pub enum CommandError {
    NoUtf8Name,
    File(SourceFileError),
    EmptyBody,
}

/// The text of a command failure.
pub open spec fn command_error_text(e: CommandError) -> Seq<char> {
    match e {
        CommandError::NoUtf8Name => "command file has no valid UTF-8 name"@,
        CommandError::File(f) => source_file_error_text(f, "command"@),
        CommandError::EmptyBody => "command template body must not be empty"@,
    }
}

impl Problem for CommandError {
    open spec fn spec_text(&self) -> Seq<char> {
        command_error_text(*self)
    }

    fn message(&self) -> (r: String) {
        match self {
            CommandError::NoUtf8Name => String::from_str("command file has no valid UTF-8 name"),
            CommandError::File(f) => f.message("command"),
            CommandError::EmptyBody => String::from_str("command template body must not be empty"),
        }
    }
}

/// The description of a command, if its frontmatter has one.
pub open spec fn command_description(raw: Option<RawCommandFrontmatter>) -> Option<String> {
    match raw {
        Some(r) => r.description,
        None => None,
    }
}

/// What reading a command file gives: the checks in order (UTF-8 name,
/// readable frontmatter, a body that is not blank), then the command, named
/// after the file's stem.
pub open spec fn command_outcome(scan: CommandFileScan) -> Result<
    (Seq<char>, Option<String>, Seq<char>, Seq<char>),
    CommandError,
> {
    match scan.file_name {
        None => Err(CommandError::NoUtf8Name),
        Some(file) => match scan.frontmatter {
            Err(f) => Err(CommandError::File(f)),
            Ok((raw, body)) => if is_blank(body@) {
                Err(CommandError::EmptyBody)
            } else {
                Ok(
                    (
                        name_stem(file@),
                        command_description(raw),
                        scan.path@,
                        match scan.rel_path {
                            Some(r) => r@,
                            None => file@,
                        },
                    ),
                )
            },
        },
    }
}

/// A command read from a file keeps the description of its frontmatter,
/// and has none when the file has no frontmatter. It is named after the
/// file's stem, keeps the file's path, and its relative path is the one
/// given, or the file's name for an installed copy. Reading succeeds
/// exactly when the file has a UTF-8 name, its frontmatter could be read,
/// and its body is not blank.
pub proof fn lemma_command_description(scan: CommandFileScan)
    ensures
        command_outcome(scan) matches Ok(t) ==> match scan.frontmatter {
            Ok((Some(f), _)) => t.1 == f.description,
            Ok((None, _)) => t.1.is_none(),
            Err(_) => false,
        },
        command_outcome(scan) matches Ok(t) ==> {
            &&& scan.file_name matches Some(file) && t.0 == name_stem(file@) && t.3 == match scan.rel_path {
                Some(r) => r@,
                None => file@,
            }
            &&& t.2 == scan.path@
        },
        command_outcome(scan) is Ok <==> (scan.file_name is Some && scan.frontmatter is Ok && !is_blank(
            scan.frontmatter.unwrap().1@,
        )),
        scan.file_name is None ==> command_outcome(scan) == Err::<
            (Seq<char>, Option<String>, Seq<char>, Seq<char>),
            _,
        >(CommandError::NoUtf8Name),
        scan.file_name is Some && scan.frontmatter is Ok && is_blank(scan.frontmatter.unwrap().1@)
            ==> command_outcome(scan) == Err::<(Seq<char>, Option<String>, Seq<char>, Seq<char>), _>(
            CommandError::EmptyBody,
        ),
{
}

/// The views of a command's fields: name, description, path, relative path.
pub open spec fn command_fields(c: DiscoveredCommand) -> (Seq<char>, Option<String>, Seq<char>, Seq<char>) {
    (c.name@, c.description, c.source_path@, c.source_rel_path@)
}

/// Reads a command from what is known of its file.
pub fn parse_command_markdown(scan: CommandFileScan) -> (r: Result<DiscoveredCommand, CommandError>)
    ensures
        match r {
            Ok(c) => command_outcome(scan) == Ok::<_, CommandError>(command_fields(c)),
            Err(e) => command_outcome(scan) == Err::<(Seq<char>, Option<String>, Seq<char>, Seq<char>), _>(
                e,
            ),
        },
        scan.frontmatter matches Ok((Some(f), _)) ==> (r matches Ok(c) ==> c.description == f.description),
        scan.frontmatter matches Ok((None, _)) ==> (r matches Ok(c) ==> c.description.is_none()),
        scan.file_name matches Some(file) ==> (r matches Ok(c) ==> c.name@ == name_stem(file@)),
{
    let file = match scan.file_name {
        None => {
            return Err(CommandError::NoUtf8Name);
        },
        Some(f) => f,
    };
    let (raw, body) = match scan.frontmatter {
        Err(f) => {
            return Err(CommandError::File(f));
        },
        Ok(pair) => pair,
    };
    if blank_str(body.as_str()) {
        return Err(CommandError::EmptyBody);
    }
    let description = match raw {
        Some(r) => r.description,
        None => None,
    };
    let name = file_stem(file.as_str());
    let rel = match scan.rel_path {
        Some(r) => r,
        None => file,
    };
    Ok(DiscoveredCommand { name, description, source_path: scan.path, source_rel_path: rel })
}

/// Checks an installed command file; its relative path is its file name.
pub fn validate_installed_command(scan: CommandFileScan) -> (r: Result<DiscoveredCommand, CommandError>)
    ensures
        match r {
            Ok(c) => command_outcome(CommandFileScan { rel_path: None, ..scan }) == Ok::<
                _,
                CommandError,
            >(command_fields(c)),
            Err(e) => command_outcome(CommandFileScan { rel_path: None, ..scan }) == Err::<
                (Seq<char>, Option<String>, Seq<char>, Seq<char>),
                _,
            >(e),
        },
        scan.frontmatter matches Ok((Some(f), _)) ==> (r matches Ok(c) ==> c.description == f.description),
        scan.frontmatter matches Ok((None, _)) ==> (r matches Ok(c) ==> c.description.is_none()),
{
    parse_command_markdown(CommandFileScan { rel_path: None, ..scan })
}

/// The inspection of a commands library from the outcomes of its walk.
pub fn inspect_commands(scans: Vec<Scanned<DiscoveredCommand, CommandError>>) -> (r: Inspection<DiscoveredCommand>)
    ensures
        r.items@ == unique_items(scanned_items(scans@)),
        string_views(r.duplicate_names@) == duplicated_names(scanned_items(scans@)),
        string_views(r.issues@) == scan_issues(scans@, ArtifactKind::Command) + duplicated_names(
            scanned_items(scans@),
        ).map_values(
            |n: Seq<char>|
                duplicate_issue(ArtifactKind::Command, n, paths_named(scanned_items(scans@), n)),
        ),
{
    inspect(scans, ArtifactKind::Command)
}

} // verus!
