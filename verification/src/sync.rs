//! What `sync` decides for each recorded artifact: whether its copies are
//! there, whether the installed copy is still the one Hermes wrote, and
//! whether the source changed since.
use vstd::prelude::*;

use crate::catalog::CatalogEntry;
use crate::cli::SyncArgs;
use crate::discovery::{kind_label, ArtifactKind};
use crate::text::{concat2, concat3, str_equals};

verus! {

/// Whether `sync` visits artifacts of `kind`: those whose flag is given, or
/// every kind when no kind flag is.
pub open spec fn syncs_kind(args: SyncArgs, kind: ArtifactKind) -> bool {
    let none_named = !args.skills && !args.agents && !args.commands;
    match kind {
        ArtifactKind::Skill => args.skills || none_named,
        ArtifactKind::Agent => args.agents || none_named,
        ArtifactKind::Command => args.commands || none_named,
    }
}

/// Whether the flag of `kind` was given.
pub open spec fn kind_flagged(args: SyncArgs, kind: ArtifactKind) -> bool {
    match kind {
        ArtifactKind::Skill => args.skills,
        ArtifactKind::Agent => args.agents,
        ArtifactKind::Command => args.commands,
    }
}

/// Whether `sync` visits artifacts of `kind`.
pub fn sync_kind(args: &SyncArgs, kind: ArtifactKind) -> (b: bool)
    ensures
        b == syncs_kind(*args, kind),
        kind == ArtifactKind::Skill ==> (b <==> (args.skills || (!args.skills && !args.agents && !args.commands))),
        kind == ArtifactKind::Agent ==> (b <==> (args.agents || (!args.skills && !args.agents && !args.commands))),
        kind == ArtifactKind::Command ==> (b <==> (args.commands || (!args.skills && !args.agents
            && !args.commands))),
{
    let none_named = !args.skills && !args.agents && !args.commands;
    match kind {
        ArtifactKind::Skill => args.skills || none_named,
        ArtifactKind::Agent => args.agents || none_named,
        ArtifactKind::Command => args.commands || none_named,
    }
}

/// Which kinds `sync` visits: a kind whose flag is given is always visited;
/// with no kind flag every kind is; with some kind flag exactly the flagged
/// kinds are. A kind counts as asked for by its own flag alone.
pub proof fn lemma_sync_kinds(args: SyncArgs)
    ensures
        args.skills ==> syncs_kind(args, ArtifactKind::Skill),
        args.agents ==> syncs_kind(args, ArtifactKind::Agent),
        args.commands ==> syncs_kind(args, ArtifactKind::Command),
        !args.skills && !args.agents && !args.commands ==> {
            &&& syncs_kind(args, ArtifactKind::Skill)
            &&& syncs_kind(args, ArtifactKind::Agent)
            &&& syncs_kind(args, ArtifactKind::Command)
        },
        args.skills || args.agents || args.commands ==> {
            &&& syncs_kind(args, ArtifactKind::Skill) == args.skills
            &&& syncs_kind(args, ArtifactKind::Agent) == args.agents
            &&& syncs_kind(args, ArtifactKind::Command) == args.commands
        },
        kind_flagged(args, ArtifactKind::Skill) == args.skills,
        kind_flagged(args, ArtifactKind::Agent) == args.agents,
        kind_flagged(args, ArtifactKind::Command) == args.commands,
{
}

/// The error when a kind asked for by its flag has no source root.
pub open spec fn missing_root_error_text(kind: ArtifactKind) -> Seq<char> {
    "no "@ + kind_label(kind) + "s source root configured; pass --"@ + kind_label(kind)
        + "s-source or run hermes configure"@
}

/// The note when a kind visited by default has no source root.
pub open spec fn missing_root_note_text(kind: ArtifactKind) -> Seq<char> {
    "Skipping "@ + kind_label(kind) + "s: no "@ + kind_label(kind) + "s source root configured"@
}

/// What `sync` does for a kind without a source root: it fails when the
/// kind's flag was given (`Err`), and otherwise notes the skip (`Ok`).
pub fn missing_root(args: &SyncArgs, kind: ArtifactKind) -> (r: Result<String, String>)
    ensures
        kind_flagged(*args, kind) ==> (r matches Err(m) && m@ == missing_root_error_text(kind)),
        !kind_flagged(*args, kind) ==> (r matches Ok(m) && m@ == missing_root_note_text(kind)),
{
    let flagged = match kind {
        ArtifactKind::Skill => args.skills,
        ArtifactKind::Agent => args.agents,
        ArtifactKind::Command => args.commands,
    };
    let label = kind.label();
    if flagged {
        let mut m = concat3("no ", label, "s source root configured; pass --");
        m.append(label);
        m.append("s-source or run hermes configure");
        Err(m)
    } else {
        let mut m = concat3("Skipping ", label, "s: no ");
        m.append(label);
        m.append("s source root configured");
        Ok(m)
    }
}

/// Why `sync` left a recorded artifact alone.
#[derive(Debug, Clone, Copy, PartialEq, Eq, Structural)]
pub enum SyncSkip {
    /// Its source is gone.
    SourceMissing,
    /// Its installed copy is gone.
    InstalledMissing,
    /// Its installed copy changed since Hermes recorded it.
    LocallyModified,
}

/// The reason given for a skipped artifact of `kind`.
pub open spec fn sync_skip_text(s: SyncSkip, kind: ArtifactKind) -> Seq<char> {
    match s {
        SyncSkip::SourceMissing => "source "@ + kind_label(kind) + " no longer exists"@,
        SyncSkip::InstalledMissing => "installed "@ + kind_label(kind) + " path is missing"@,
        SyncSkip::LocallyModified => "local installed copy differs from the last recorded manifest hash"@,
    }
}

impl SyncSkip {
    /// The reason, in words.
    pub fn message(&self, kind: ArtifactKind) -> (r: String)
        ensures
            r@ == sync_skip_text(*self, kind),
    {
        match self {
            SyncSkip::SourceMissing => concat3("source ", kind.label(), " no longer exists"),
            SyncSkip::InstalledMissing => concat3("installed ", kind.label(), " path is missing"),
            SyncSkip::LocallyModified => String::from_str(
                "local installed copy differs from the last recorded manifest hash",
            ),
        }
    }
}

/// The first check of `sync`: both the source and the installed copy must
/// exist, the source being looked at first.
pub fn check_sync_paths(source_exists: bool, installed_exists: bool) -> (r: Option<SyncSkip>)
    ensures
        r == (if !source_exists {
            Some(SyncSkip::SourceMissing)
        } else if !installed_exists {
            Some(SyncSkip::InstalledMissing)
        } else {
            None
        }),
{
    if !source_exists {
        Some(SyncSkip::SourceMissing)
    } else if !installed_exists {
        Some(SyncSkip::InstalledMissing)
    } else {
        None
    }
}

/// The second check: without `--force`, an installed copy whose hash is no
/// longer the recorded one is kept.
pub fn check_sync_installed<E: CatalogEntry>(entry: &E, current_installed_hash: &str, force: bool) -> (r: Option<
    SyncSkip,
>)
    ensures
        r == (if !force && current_installed_hash@ != entry.spec_installed_hash() {
            Some(SyncSkip::LocallyModified)
        } else {
            None
        }),
{
    if !force && !str_equals(current_installed_hash, entry.installed_hash()) {
        Some(SyncSkip::LocallyModified)
    } else {
        None
    }
}

/// Whether the artifact needs a fresh copy: unless both the source and the
/// installed copy still have their recorded hashes.
pub fn sync_needed<E: CatalogEntry>(entry: &E, current_source_hash: &str, current_installed_hash: &str) -> (b:
    bool)
    ensures
        b == !(current_source_hash@ == entry.spec_source_hash() && current_installed_hash@
            == entry.spec_installed_hash()),
{
    !(str_equals(current_source_hash, entry.source_hash()) && str_equals(
        current_installed_hash,
        entry.installed_hash(),
    ))
}

/// A report line about one artifact: `"<verb> <name>\nKind: <kind>\nReason: <reason>"`.
pub open spec fn notice_text(verb: Seq<char>, name: Seq<char>, kind: ArtifactKind, reason: Seq<char>) -> Seq<
    char,
> {
    verb + " "@ + name + "\nKind: "@ + kind_label(kind) + "\nReason: "@ + reason
}

/// Writes a report line about one artifact.
pub fn notice(verb: &str, name: &str, kind: ArtifactKind, reason: &str) -> (r: String)
    ensures
        r@ == notice_text(verb@, name@, kind, reason@),
{
    let mut r = concat3(verb, " ", name);
    r.append("\nKind: ");
    r.append(kind.label());
    r.append("\nReason: ");
    r.append(reason);
    r
}

/// The line printed for an artifact `sync` copied afresh.
pub open spec fn synced_text(kind: ArtifactKind, name: Seq<char>) -> Seq<char> {
    "Synced "@ + kind_label(kind) + " "@ + name
}

/// Writes the line for an artifact `sync` copied afresh.
pub fn synced_line(kind: ArtifactKind, name: &str) -> (r: String)
    ensures
        r@ == synced_text(kind, name@),
{
    let mut r = concat3("Synced ", kind.label(), " ");
    r.append(name);
    r
}

/// The last line of a command that wrote the catalog.
pub open spec fn manifest_updated_text(catalog_path: Seq<char>) -> Seq<char> {
    "Manifest updated: "@ + catalog_path
}

/// Writes the last line of a command that wrote the catalog.
pub fn manifest_updated_line(catalog_path: &str) -> (r: String)
    ensures
        r@ == manifest_updated_text(catalog_path@),
{
    concat2("Manifest updated: ", catalog_path)
}

} // verus!
