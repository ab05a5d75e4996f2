//! Agents: markdown files whose frontmatter describes an OpenCode agent and
//! whose body is the agent's prompt.
use vstd::prelude::*;

use crate::discovery::{
    duplicate_issue, duplicated_names, file_stem, inspect, paths_named, scan_issues, scanned_items,
    string_views, unique_items, ArtifactKind, Problem, Scanned,
};
use crate::frontmatter::{
    parse_agent_frontmatter, prompt_names_file, source_file_error_text, AgentFrontmatterError,
    RawAgentFrontmatter, SourceFileError,
};
use crate::fs_ops::name_stem;
use crate::models::{mode_named, mode_text, AgentMode, DiscoveredAgent, Inspection};
use crate::text::is_blank;

verus! {

/// What Hermes has of one agent file.
#[derive(Debug)]
pub struct AgentFileScan {
    /// The file's path.
    pub path: String,
    /// The file's name, if it is valid UTF-8.
    pub file_name: Option<String>,
    /// The path relative to the source root, or `None` for an installed copy.
    pub rel_path: Option<String>,
    /// The frontmatter fields and the body, or why they could not be had.
    pub frontmatter: Result<(RawAgentFrontmatter, String), SourceFileError>,
}

/// Why a file is not a valid agent.
#[derive(Debug)]
pub enum AgentError {
    NoUtf8Name,
    File(SourceFileError),
    Frontmatter(AgentFrontmatterError),
    ExternalPrompt,
    EmptyBody,
}

/// The text of an agent failure.
pub open spec fn agent_error_text(e: AgentError) -> Seq<char> {
    match e {
        AgentError::NoUtf8Name => "agent file has no valid UTF-8 name"@,
        AgentError::File(f) => source_file_error_text(f, "agent"@),
        AgentError::Frontmatter(AgentFrontmatterError::MissingDescription) => "agent frontmatter is missing required description"@,
        AgentError::Frontmatter(AgentFrontmatterError::EmptyDescription) => "agent frontmatter description must not be empty"@,
        AgentError::Frontmatter(AgentFrontmatterError::Mode(m)) => "unsupported agent mode '"@
            + m.value@ + "'"@,
        AgentError::ExternalPrompt => "multi-file agents using prompt: {file:...} are unsupported in v1"@,
        AgentError::EmptyBody => "agent prompt body must be contained in the markdown file"@,
    }
}

impl Problem for AgentError {
    open spec fn spec_text(&self) -> Seq<char> {
        agent_error_text(*self)
    }

    fn message(&self) -> (r: String) {
        match self {
            AgentError::NoUtf8Name => String::from_str("agent file has no valid UTF-8 name"),
            AgentError::File(f) => f.message("agent"),
            AgentError::Frontmatter(AgentFrontmatterError::MissingDescription) => String::from_str(
                "agent frontmatter is missing required description",
            ),
            AgentError::Frontmatter(AgentFrontmatterError::EmptyDescription) => String::from_str(
                "agent frontmatter description must not be empty",
            ),
            AgentError::Frontmatter(AgentFrontmatterError::Mode(m)) => m.message(),
            AgentError::ExternalPrompt => String::from_str(
                "multi-file agents using prompt: {file:...} are unsupported in v1",
            ),
            AgentError::EmptyBody => String::from_str(
                "agent prompt body must be contained in the markdown file",
            ),
        }
    }
}

/// What reading an agent file gives: the checks in order (UTF-8 name,
/// readable frontmatter, a description that is not blank, a known mode, no
/// outside prompt file, a body that is not blank), then the agent, named
/// after the file's stem.
pub open spec fn agent_outcome(scan: AgentFileScan) -> Result<
    (Seq<char>, Seq<char>, Option<AgentMode>, Seq<char>, Seq<char>),
    AgentError,
> {
    match scan.file_name {
        None => Err(AgentError::NoUtf8Name),
        Some(file) => match scan.frontmatter {
            Err(f) => Err(AgentError::File(f)),
            Ok((raw, body)) => match raw.description {
                None => Err(AgentError::Frontmatter(AgentFrontmatterError::MissingDescription)),
                Some(d) => if is_blank(d@) {
                    Err(AgentError::Frontmatter(AgentFrontmatterError::EmptyDescription))
                } else {
                    let mode: Result<Option<AgentMode>, Seq<char>> = match raw.mode {
                        None => Ok(None),
                        Some(m) => match mode_named(m@) {
                            Some(md) => Ok(Some(md)),
                            None => Err(m@),
                        },
                    };
                    match mode {
                        Err(v) => Err(
                            AgentError::Frontmatter(
                                AgentFrontmatterError::Mode(
                                    crate::models::UnsupportedAgentMode { value: raw.mode.unwrap() },
                                ),
                            ),
                        ),
                        Ok(md) => if prompt_names_file(raw.prompt) {
                            Err(AgentError::ExternalPrompt)
                        } else if is_blank(body@) {
                            Err(AgentError::EmptyBody)
                        } else {
                            Ok(
                                (
                                    name_stem(file@),
                                    d@,
                                    md,
                                    scan.path@,
                                    match scan.rel_path {
                                        Some(r) => r@,
                                        None => file@,
                                    },
                                ),
                            )
                        },
                    }
                },
            },
        },
    }
}

/// The views of an agent's fields: name, description, mode, path, relative path.
pub open spec fn agent_fields(a: DiscoveredAgent) -> (Seq<char>, Seq<char>, Option<AgentMode>, Seq<char>, Seq<char>) {
    (a.name@, a.description@, a.mode, a.source_path@, a.source_rel_path@)
}

/// An agent read from a file is named after the file's stem and keeps the
/// description and the mode of its frontmatter: no mode when none is given,
/// and otherwise the mode the given word names. Its relative path is the
/// one given, or the file's name for an installed copy. A file without a
/// UTF-8 name, without readable frontmatter, without a description or with
/// a blank body is no agent.
pub proof fn lemma_agent_fields(scan: AgentFileScan)
    ensures
        agent_outcome(scan) matches Ok(t) ==> {
            &&& scan.file_name matches Some(f) && t.0 == name_stem(f@)
            &&& scan.frontmatter matches Ok((raw, _)) && {
                &&& raw.description matches Some(d) && t.1 == d@
                &&& raw.mode is None ==> t.2 is None
                &&& raw.mode matches Some(m) ==> (t.2 matches Some(md) && mode_text(md) == m@)
            }
            &&& t.3 == scan.path@
            &&& scan.file_name matches Some(f) && t.4 == match scan.rel_path {
                Some(r) => r@,
                None => f@,
            }
        },
        scan.file_name is None ==> agent_outcome(scan) is Err,
        scan.frontmatter is Err ==> agent_outcome(scan) is Err,
        scan.frontmatter matches Ok((raw, _)) ==> (raw.description is None ==> agent_outcome(scan) is Err),
        scan.frontmatter matches Ok((raw, body)) ==> (is_blank(body@) ==> agent_outcome(scan) is Err),
{
}

/// Reads an agent from what is known of its file.
pub fn parse_agent_markdown(scan: AgentFileScan) -> (r: Result<DiscoveredAgent, AgentError>)
    ensures
        match r {
            Ok(a) => agent_outcome(scan) == Ok::<_, AgentError>(agent_fields(a)),
            Err(e) => agent_outcome(scan) == Err::<
                (Seq<char>, Seq<char>, Option<AgentMode>, Seq<char>, Seq<char>),
                _,
            >(e),
        },
{
    let file = match scan.file_name {
        None => {
            return Err(AgentError::NoUtf8Name);
        },
        Some(f) => f,
    };
    let (raw, body) = match scan.frontmatter {
        Err(f) => {
            return Err(AgentError::File(f));
        },
        Ok(pair) => pair,
    };
    let fm = match parse_agent_frontmatter(raw, body.as_str()) {
        Ok(fm) => fm,
        Err(e) => {
            return Err(AgentError::Frontmatter(e));
        },
    };
    if fm.has_external_prompt {
        return Err(AgentError::ExternalPrompt);
    }
    if !fm.has_body {
        return Err(AgentError::EmptyBody);
    }
    let name = file_stem(file.as_str());
    let rel = match scan.rel_path {
        Some(r) => r,
        None => file,
    };
    Ok(DiscoveredAgent { name, description: fm.description, mode: fm.mode, source_path: scan.path, source_rel_path: rel })
}

/// Checks an installed agent file; its relative path is its file name.
pub fn validate_installed_agent(scan: AgentFileScan) -> (r: Result<DiscoveredAgent, AgentError>)
    ensures
        match r {
            Ok(a) => agent_outcome(AgentFileScan { rel_path: None, ..scan }) == Ok::<_, AgentError>(
                agent_fields(a),
            ),
            Err(e) => agent_outcome(AgentFileScan { rel_path: None, ..scan }) == Err::<
                (Seq<char>, Seq<char>, Option<AgentMode>, Seq<char>, Seq<char>),
                _,
            >(e),
        },
{
    parse_agent_markdown(AgentFileScan { rel_path: None, ..scan })
}

/// The inspection of an agents library from the outcomes of its walk.
pub fn inspect_agents(scans: Vec<Scanned<DiscoveredAgent, AgentError>>) -> (r: Inspection<DiscoveredAgent>)
    ensures
        r.items@ == unique_items(scanned_items(scans@)),
        string_views(r.duplicate_names@) == duplicated_names(scanned_items(scans@)),
        string_views(r.issues@) == scan_issues(scans@, ArtifactKind::Agent) + duplicated_names(
            scanned_items(scans@),
        ).map_values(
            |n: Seq<char>|
                duplicate_issue(ArtifactKind::Agent, n, paths_named(scanned_items(scans@), n)),
        ),
{
    inspect(scans, ArtifactKind::Agent)
}

} // verus!
