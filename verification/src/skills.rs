//! Skills: directories that hold a `SKILL.md` whose frontmatter names the
//! skill after its directory.
use vstd::prelude::*;

use crate::discovery::{
    duplicate_issue, duplicated_names, inspect, paths_named, scan_issues, scanned_items,
    string_views, unique_items, ArtifactKind, EntryKind, Problem, Scanned, WalkAction,
};
use crate::frontmatter::{
    parse_skill_frontmatter, source_file_error_text, RawSkillFrontmatter, SkillFrontmatterError,
    SourceFileError,
};
use crate::models::{DiscoveredSkill, Inspection};
use crate::text::{is_blank, str_equals};

verus! {

/// The walk of a skills library: a directory with a `SKILL.md` file is a
/// skill; any other directory only groups skills and is walked into.
pub fn skill_entry_action(kind: EntryKind, has_skill_md: bool) -> (a: WalkAction)
    ensures
        a == (if kind != EntryKind::Dir {
            WalkAction::Skip
        } else if has_skill_md {
            WalkAction::Parse
        } else {
            WalkAction::Descend
        }),
{
    match kind {
        EntryKind::Dir => if has_skill_md {
            WalkAction::Parse
        } else {
            WalkAction::Descend
        },
        _ => WalkAction::Skip,
    }
}

/// What Hermes has of one skill directory.
#[derive(Debug)]
pub struct SkillDirScan {
    /// The directory's path.
    pub path: String,
    /// The directory's name, if it is valid UTF-8.
    pub dir_name: Option<String>,
    /// The path relative to the source root, or `None` for an installed copy.
    pub rel_path: Option<String>,
    /// The frontmatter of `SKILL.md`, or `None` when `SKILL.md` is not a file.
    pub frontmatter: Option<Result<RawSkillFrontmatter, SourceFileError>>,
}

/// Why a directory is not a valid skill.
#[derive(Debug)]
pub enum SkillError {
    NoUtf8Name,
    MissingSkillMd,
    File(SourceFileError),
    Frontmatter(SkillFrontmatterError),
    NameMismatch { frontmatter_name: String, dir_name: String },
}

/// The text of a skill failure.
pub open spec fn skill_error_text(e: SkillError) -> Seq<char> {
    match e {
        SkillError::NoUtf8Name => "skill directory has no valid UTF-8 name"@,
        SkillError::MissingSkillMd => "missing top-level SKILL.md"@,
        SkillError::File(f) => source_file_error_text(f, "skill"@),
        SkillError::Frontmatter(SkillFrontmatterError::EmptyName) => "skill frontmatter name must not be empty"@,
        SkillError::Frontmatter(SkillFrontmatterError::EmptyDescription) => "skill frontmatter description must not be empty"@,
        SkillError::NameMismatch { frontmatter_name, dir_name } => "frontmatter name '"@
            + frontmatter_name@ + "' does not match directory name '"@ + dir_name@ + "'"@,
    }
}

impl Problem for SkillError {
    open spec fn spec_text(&self) -> Seq<char> {
        skill_error_text(*self)
    }

    fn message(&self) -> (r: String) {
        match self {
            SkillError::NoUtf8Name => String::from_str("skill directory has no valid UTF-8 name"),
            SkillError::MissingSkillMd => String::from_str("missing top-level SKILL.md"),
            SkillError::File(f) => f.message("skill"),
            SkillError::Frontmatter(SkillFrontmatterError::EmptyName) => String::from_str(
                "skill frontmatter name must not be empty",
            ),
            SkillError::Frontmatter(SkillFrontmatterError::EmptyDescription) => String::from_str(
                "skill frontmatter description must not be empty",
            ),
            SkillError::NameMismatch { frontmatter_name, dir_name } => {
                let mut r = String::from_str("frontmatter name '");
                r.append(frontmatter_name.as_str());
                r.append("' does not match directory name '");
                r.append(dir_name.as_str());
                r.append("'");
                r
            },
        }
    }
}

/// What reading a skill directory gives: the checks in order (UTF-8 name,
/// `SKILL.md` present and readable, name and description not blank, name
/// equal to the directory's), then the skill.
pub open spec fn skill_outcome(scan: SkillDirScan) -> Result<(Seq<char>, Seq<char>, Seq<char>, Seq<char>), SkillError> {
    match scan.dir_name {
        None => Err(SkillError::NoUtf8Name),
        Some(dir) => match scan.frontmatter {
            None => Err(SkillError::MissingSkillMd),
            Some(Err(f)) => Err(SkillError::File(f)),
            Some(Ok(raw)) => if is_blank(raw.name@) {
                Err(SkillError::Frontmatter(SkillFrontmatterError::EmptyName))
            } else if is_blank(raw.description@) {
                Err(SkillError::Frontmatter(SkillFrontmatterError::EmptyDescription))
            } else if raw.name@ != dir@ {
                Err(SkillError::NameMismatch { frontmatter_name: raw.name, dir_name: dir })
            } else {
                Ok(
                    (
                        raw.name@,
                        raw.description@,
                        scan.path@,
                        match scan.rel_path {
                            Some(r) => r@,
                            None => dir@,
                        },
                    ),
                )
            },
        },
    }
}

/// The views of a skill's fields: name, description, path, relative path.
pub open spec fn skill_fields(s: DiscoveredSkill) -> (Seq<char>, Seq<char>, Seq<char>, Seq<char>) {
    (s.name@, s.description@, s.source_path@, s.source_rel_path@)
}

/// A skill read from a directory has the name and the description of its
/// frontmatter, and that name is the directory's; its relative path is the
/// one given, or the directory's name for an installed copy. Reading
/// succeeds exactly when the directory has a UTF-8 name and a readable
/// `SKILL.md` whose name and description are not blank and whose name is
/// the directory's.
pub proof fn lemma_skill_fields(scan: SkillDirScan)
    ensures
        skill_outcome(scan) matches Ok(t) ==> {
            &&& scan.frontmatter matches Some(Ok(raw)) && t.0 == raw.name@ && t.1 == raw.description@
            &&& scan.dir_name matches Some(dir) && t.0 == dir@
            &&& t.2 == scan.path@
            &&& scan.dir_name matches Some(dir) && t.3 == match scan.rel_path {
                Some(r) => r@,
                None => dir@,
            }
        },
        skill_outcome(scan) is Ok <==> (scan.dir_name is Some && scan.frontmatter is Some
            && scan.frontmatter.unwrap() is Ok && !is_blank(scan.frontmatter.unwrap().unwrap().name@) && !is_blank(
            scan.frontmatter.unwrap().unwrap().description@,
        ) && scan.frontmatter.unwrap().unwrap().name@ == scan.dir_name.unwrap()@),
{
}

/// Reads a skill from what is known of its directory.
pub fn parse_skill_dir(scan: SkillDirScan) -> (r: Result<DiscoveredSkill, SkillError>)
    ensures
        match r {
            Ok(s) => skill_outcome(scan) == Ok::<_, SkillError>(skill_fields(s)),
            Err(e) => skill_outcome(scan) == Err::<(Seq<char>, Seq<char>, Seq<char>, Seq<char>), _>(e),
        },
{
    let dir = match scan.dir_name {
        None => {
            return Err(SkillError::NoUtf8Name);
        },
        Some(d) => d,
    };
    let raw = match scan.frontmatter {
        None => {
            return Err(SkillError::MissingSkillMd);
        },
        Some(Err(f)) => {
            return Err(SkillError::File(f));
        },
        Some(Ok(raw)) => raw,
    };
    let fm = match parse_skill_frontmatter(raw) {
        Ok(fm) => fm,
        Err(e) => {
            return Err(SkillError::Frontmatter(e));
        },
    };
    if !str_equals(fm.name.as_str(), dir.as_str()) {
        return Err(SkillError::NameMismatch { frontmatter_name: fm.name, dir_name: dir });
    }
    let rel = match scan.rel_path {
        Some(r) => r,
        None => dir,
    };
    Ok(DiscoveredSkill { name: fm.name, description: fm.description, source_path: scan.path, source_rel_path: rel })
}

/// Checks an installed skill directory; its relative path is its name.
pub fn validate_installed_skill(scan: SkillDirScan) -> (r: Result<DiscoveredSkill, SkillError>)
    ensures
        match r {
            Ok(s) => skill_outcome(SkillDirScan { rel_path: None, ..scan }) == Ok::<_, SkillError>(
                skill_fields(s),
            ),
            Err(e) => skill_outcome(SkillDirScan { rel_path: None, ..scan }) == Err::<
                (Seq<char>, Seq<char>, Seq<char>, Seq<char>),
                _,
            >(e),
        },
{
    parse_skill_dir(SkillDirScan { rel_path: None, ..scan })
}

/// The inspection of a skills library from the outcomes of its walk.
pub fn inspect_skills(scans: Vec<Scanned<DiscoveredSkill, SkillError>>) -> (r: Inspection<DiscoveredSkill>)
    ensures
        r.items@ == unique_items(scanned_items(scans@)),
        string_views(r.duplicate_names@) == duplicated_names(scanned_items(scans@)),
        string_views(r.issues@) == scan_issues(scans@, ArtifactKind::Skill) + duplicated_names(
            scanned_items(scans@),
        ).map_values(
            |n: Seq<char>|
                duplicate_issue(ArtifactKind::Skill, n, paths_named(scanned_items(scans@), n)),
        ),
{
    inspect(scans, ArtifactKind::Skill)
}

} // verus!
