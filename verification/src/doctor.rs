//! What `doctor` reports, from what it found on disk: missing or broken
//! source roots, their discovery problems, installed copies that are gone
//! or invalid, and installed artifacts the catalog does not record.
use vstd::prelude::*;

use crate::discovery::{kind_label, string_views, EntryKind, ArtifactKind};
use crate::fs_ops::{name_extension, name_stem};
use crate::text::{chars_of, concat2, concat3, decimal, decimal_string, str_equals, string_from_chars};
use crate::fs_ops::{extension_of, stem_of};
use crate::sorting::chars_eq;

verus! {

/// A configured source root: its path, whether it exists, and the issues
/// found by inspecting it when it does.
#[derive(Debug)]
pub struct RootCheck {
    pub path: String,
    pub exists: bool,
    pub issues: Vec<String>,
}

/// A catalog entry checked against the workspace: its name, where its
/// installed copy should be, whether it is there, and why it is invalid if
/// it is.
#[derive(Debug)]
pub struct InstalledCheck {
    pub name: String,
    pub path: String,
    pub exists: bool,
    pub problem: Option<String>,
}

/// An entry found directly in an install directory of the workspace.
#[derive(Debug)]
pub struct WorkspaceEntry {
    pub kind: EntryKind,
    pub file_name: String,
    pub path: String,
}

/// What `doctor` found for one kind: the source root when one is
/// configured, the catalog entries in catalog order, and the entries of the
/// install directory when it exists.
#[derive(Debug)]
pub struct KindCheck {
    pub root: Option<RootCheck>,
    pub installed: Vec<InstalledCheck>,
    pub listing: Option<Vec<WorkspaceEntry>>,
}

/// The issue when no source root is configured.
pub open spec fn no_roots_text() -> Seq<char> {
    "no source roots are configured"@
}

/// The issue for a configured root that does not exist.
pub open spec fn missing_root_text(kind: ArtifactKind, path: Seq<char>) -> Seq<char> {
    "configured "@ + kind_label(kind) + "s source root does not exist: "@ + path
}

/// The issues of a source root.
pub open spec fn root_issues(kind: ArtifactKind, root: Option<RootCheck>) -> Seq<Seq<char>> {
    match root {
        None => seq![],
        Some(r) => if r.exists {
            string_views(r.issues@)
        } else {
            seq![missing_root_text(kind, r.path@)]
        },
    }
}

/// The issue for an installed copy that is gone.
pub open spec fn missing_installed_text(kind: ArtifactKind, path: Seq<char>) -> Seq<char> {
    "installed "@ + kind_label(kind) + " path is missing: "@ + path
}

/// The issue for an installed copy that is invalid.
pub open spec fn invalid_installed_text(kind: ArtifactKind, name: Seq<char>, problem: Seq<char>) -> Seq<char> {
    "installed "@ + kind_label(kind) + " '"@ + name + "' is invalid: "@ + problem
}

/// The issues of one catalog entry.
pub open spec fn installed_issue(kind: ArtifactKind, c: InstalledCheck) -> Seq<Seq<char>> {
    if !c.exists {
        seq![missing_installed_text(kind, c.path@)]
    } else {
        match c.problem {
            Some(p) => seq![invalid_installed_text(kind, c.name@, p@)],
            None => seq![],
        }
    }
}

/// The issues of the catalog entries, in order.
pub open spec fn installed_issues(kind: ArtifactKind, cs: Seq<InstalledCheck>) -> Seq<Seq<char>>
    decreases cs.len(),
{
    if cs.len() == 0 {
        seq![]
    } else {
        installed_issues(kind, cs.drop_last()) + installed_issue(kind, cs.last())
    }
}

/// The name an entry of the install directory of `kind` is installed
/// under, if it is an entry of the sort Hermes installs there: a directory
/// for a skill, a `.md` file for an agent or a command.
pub open spec fn installed_name(kind: ArtifactKind, e: WorkspaceEntry) -> Option<Seq<char>> {
    match kind {
        ArtifactKind::Skill => if e.kind == EntryKind::Dir {
            Some(e.file_name@)
        } else {
            None
        },
        _ => if e.kind == EntryKind::File && name_extension(e.file_name@) == Some("md"@) {
            Some(name_stem(e.file_name@))
        } else {
            None
        },
    }
}

/// The issue for an installed artifact the catalog does not record.
pub open spec fn untracked_text(kind: ArtifactKind, path: Seq<char>) -> Seq<char> {
    match kind {
        ArtifactKind::Skill => "untracked installed skill directory: "@ + path,
        ArtifactKind::Agent => "untracked installed agent file: "@ + path,
        ArtifactKind::Command => "untracked installed command file: "@ + path,
    }
}

/// The names of the catalog entries.
pub open spec fn tracked_names(cs: Seq<InstalledCheck>) -> Seq<Seq<char>> {
    cs.map_values(|c: InstalledCheck| c.name@)
}

/// The issues for the entries of an install directory that the catalog
/// does not record, in listing order.
pub open spec fn untracked_issues(kind: ArtifactKind, recorded: Seq<Seq<char>>, listing: Seq<WorkspaceEntry>) -> Seq<
    Seq<char>,
>
    decreases listing.len(),
{
    if listing.len() == 0 {
        seq![]
    } else {
        let e = listing.last();
        let rest = untracked_issues(kind, recorded, listing.drop_last());
        match installed_name(kind, e) {
            Some(n) => if recorded.contains(n) {
                rest
            } else {
                rest.push(untracked_text(kind, e.path@))
            },
            None => rest,
        }
    }
}

/// The listing of an install directory, empty when it does not exist.
pub open spec fn listing_of(c: KindCheck) -> Seq<WorkspaceEntry> {
    match c.listing {
        Some(l) => l@,
        None => seq![],
    }
}

/// The issue when the project has no catalog.
pub open spec fn missing_catalog_text(path: Seq<char>) -> Seq<char> {
    "catalog file is missing: "@ + path
}

/// Everything `doctor` reports, in order: missing roots, then per kind the
/// problems of its source root, then (with a catalog) the catalog entries
/// of each kind and the untracked installed artifacts of each kind, or
/// (without one) that the catalog is missing.
pub open spec fn doctor_report(
    skills: KindCheck,
    agents: KindCheck,
    commands: KindCheck,
    has_catalog: bool,
    catalog_path: Seq<char>,
) -> Seq<Seq<char>> {
    (if skills.root.is_none() && agents.root.is_none() && commands.root.is_none() {
        seq![no_roots_text()]
    } else {
        seq![]
    }) + root_issues(ArtifactKind::Skill, skills.root) + root_issues(ArtifactKind::Agent, agents.root)
        + root_issues(ArtifactKind::Command, commands.root) + if has_catalog {
        installed_issues(ArtifactKind::Skill, skills.installed@) + installed_issues(
            ArtifactKind::Agent,
            agents.installed@,
        ) + installed_issues(ArtifactKind::Command, commands.installed@) + untracked_issues(
            ArtifactKind::Skill,
            tracked_names(skills.installed@),
            listing_of(skills),
        ) + untracked_issues(ArtifactKind::Agent, tracked_names(agents.installed@), listing_of(agents))
            + untracked_issues(
            ArtifactKind::Command,
            tracked_names(commands.installed@),
            listing_of(commands),
        )
    } else {
        seq![missing_catalog_text(catalog_path)]
    }
}

proof fn lemma_installed_issues_report(kind: ArtifactKind, cs: Seq<InstalledCheck>, i: int)
    requires
        0 <= i < cs.len(),
    ensures
        !cs[i].exists ==> installed_issues(kind, cs).contains(missing_installed_text(kind, cs[i].path@)),
        cs[i].exists && cs[i].problem is Some ==> installed_issues(kind, cs).contains(
            invalid_installed_text(kind, cs[i].name@, cs[i].problem.unwrap()@),
        ),
    decreases cs.len(),
{
    let rest = installed_issues(kind, cs.drop_last());
    let last = installed_issue(kind, cs.last());
    if i < cs.len() - 1 {
        lemma_installed_issues_report(kind, cs.drop_last(), i);
        assert(cs.drop_last()[i] == cs[i]);
        if !cs[i].exists {
            let j = choose|j: int| 0 <= j < rest.len() && rest[j] == missing_installed_text(kind, cs[i].path@);
            assert((rest + last)[j] == rest[j]);
        }
        if cs[i].exists && cs[i].problem is Some {
            let t = invalid_installed_text(kind, cs[i].name@, cs[i].problem.unwrap()@);
            let j = choose|j: int| 0 <= j < rest.len() && rest[j] == t;
            assert((rest + last)[j] == rest[j]);
        }
    } else {
        assert(cs.last() == cs[i]);
        if !cs[i].exists || cs[i].problem is Some {
            assert((rest + last)[rest.len() as int] == last[0]);
        }
    }
}

proof fn lemma_contains_in_sum(a: Seq<Seq<char>>, b: Seq<Seq<char>>, c: Seq<Seq<char>>, x: Seq<char>)
    requires
        b.contains(x),
    ensures
        (a + b + c).contains(x),
{
    let j = choose|j: int| 0 <= j < b.len() && b[j] == x;
    assert((a + b + c)[a.len() + j] == x);
}

/// With a catalog, `doctor` reports every recorded artifact whose installed
/// copy is gone, and every one whose copy is invalid, of each kind.
pub proof fn lemma_doctor_reports_installed(
    skills: KindCheck,
    agents: KindCheck,
    commands: KindCheck,
    catalog_path: Seq<char>,
)
    ensures
        forall|i: int|
            0 <= i < skills.installed@.len() && !(#[trigger] skills.installed@[i]).exists ==> doctor_report(
                skills,
                agents,
                commands,
                true,
                catalog_path,
            ).contains("installed skill path is missing: "@ + skills.installed@[i].path@),
        forall|i: int|
            0 <= i < agents.installed@.len() && !(#[trigger] agents.installed@[i]).exists ==> doctor_report(
                skills,
                agents,
                commands,
                true,
                catalog_path,
            ).contains("installed agent path is missing: "@ + agents.installed@[i].path@),
        forall|i: int|
            0 <= i < commands.installed@.len() && !(#[trigger] commands.installed@[i]).exists ==> doctor_report(
                skills,
                agents,
                commands,
                true,
                catalog_path,
            ).contains("installed command path is missing: "@ + commands.installed@[i].path@),
        forall|i: int|
            0 <= i < skills.installed@.len() && (#[trigger] skills.installed@[i]).exists
                && skills.installed@[i].problem is Some ==> doctor_report(skills, agents, commands, true, catalog_path).contains(
                "installed skill '"@ + skills.installed@[i].name@ + "' is invalid: "@
                    + skills.installed@[i].problem.unwrap()@,
            ),
        forall|i: int|
            0 <= i < agents.installed@.len() && (#[trigger] agents.installed@[i]).exists
                && agents.installed@[i].problem is Some ==> doctor_report(skills, agents, commands, true, catalog_path).contains(
                "installed agent '"@ + agents.installed@[i].name@ + "' is invalid: "@
                    + agents.installed@[i].problem.unwrap()@,
            ),
        forall|i: int|
            0 <= i < commands.installed@.len() && (#[trigger] commands.installed@[i]).exists
                && commands.installed@[i].problem is Some ==> doctor_report(skills, agents, commands, true, catalog_path).contains(
                "installed command '"@ + commands.installed@[i].name@ + "' is invalid: "@
                    + commands.installed@[i].problem.unwrap()@,
            ),
{
    reveal_strlit("installed ");
    reveal_strlit("skill");
    reveal_strlit("agent");
    reveal_strlit("command");
    reveal_strlit(" path is missing: ");
    reveal_strlit("installed skill path is missing: ");
    reveal_strlit("installed agent path is missing: ");
    reveal_strlit("installed command path is missing: ");
    reveal_strlit(" '");
    reveal_strlit("' is invalid: ");
    reveal_strlit("installed skill '");
    reveal_strlit("installed agent '");
    reveal_strlit("installed command '");
    let report = doctor_report(skills, agents, commands, true, catalog_path);
    let head = (if skills.root.is_none() && agents.root.is_none() && commands.root.is_none() {
        seq![no_roots_text()]
    } else {
        seq![]
    }) + root_issues(ArtifactKind::Skill, skills.root) + root_issues(ArtifactKind::Agent, agents.root)
        + root_issues(ArtifactKind::Command, commands.root);
    let is = installed_issues(ArtifactKind::Skill, skills.installed@);
    let ia = installed_issues(ArtifactKind::Agent, agents.installed@);
    let ic = installed_issues(ArtifactKind::Command, commands.installed@);
    let tail = untracked_issues(ArtifactKind::Skill, tracked_names(skills.installed@), listing_of(skills))
        + untracked_issues(ArtifactKind::Agent, tracked_names(agents.installed@), listing_of(agents))
        + untracked_issues(ArtifactKind::Command, tracked_names(commands.installed@), listing_of(commands));
    assert(report =~= head + (is + ia + ic + tail));
    assert forall|i: int|
        0 <= i < skills.installed@.len() implies {
            let c = #[trigger] skills.installed@[i];
            &&& !c.exists ==> report.contains("installed skill path is missing: "@ + c.path@)
            &&& c.exists && c.problem is Some ==> report.contains(
                "installed skill '"@ + c.name@ + "' is invalid: "@ + c.problem.unwrap()@,
            )
        } by {
        let c = skills.installed@[i];
        lemma_installed_issues_report(ArtifactKind::Skill, skills.installed@, i);
        assert(missing_installed_text(ArtifactKind::Skill, c.path@) =~= "installed skill path is missing: "@ + c.path@);
        if c.exists && c.problem is Some {
            assert(invalid_installed_text(ArtifactKind::Skill, c.name@, c.problem.unwrap()@) =~= "installed skill '"@
                + c.name@ + "' is invalid: "@ + c.problem.unwrap()@);
            lemma_contains_in_sum(head, is, ia + ic + tail, invalid_installed_text(ArtifactKind::Skill, c.name@, c.problem.unwrap()@));
            assert(head + is + (ia + ic + tail) =~= report);
        }
        if !c.exists {
            lemma_contains_in_sum(head, is, ia + ic + tail, missing_installed_text(ArtifactKind::Skill, c.path@));
            assert(head + is + (ia + ic + tail) =~= report);
        }
    }
    assert forall|i: int|
        0 <= i < agents.installed@.len() implies {
            let c = #[trigger] agents.installed@[i];
            &&& !c.exists ==> report.contains("installed agent path is missing: "@ + c.path@)
            &&& c.exists && c.problem is Some ==> report.contains(
                "installed agent '"@ + c.name@ + "' is invalid: "@ + c.problem.unwrap()@,
            )
        } by {
        let c = agents.installed@[i];
        lemma_installed_issues_report(ArtifactKind::Agent, agents.installed@, i);
        assert(missing_installed_text(ArtifactKind::Agent, c.path@) =~= "installed agent path is missing: "@ + c.path@);
        if c.exists && c.problem is Some {
            assert(invalid_installed_text(ArtifactKind::Agent, c.name@, c.problem.unwrap()@) =~= "installed agent '"@
                + c.name@ + "' is invalid: "@ + c.problem.unwrap()@);
            lemma_contains_in_sum(head + is, ia, ic + tail, invalid_installed_text(ArtifactKind::Agent, c.name@, c.problem.unwrap()@));
            assert(head + is + ia + (ic + tail) =~= report);
        }
        if !c.exists {
            lemma_contains_in_sum(head + is, ia, ic + tail, missing_installed_text(ArtifactKind::Agent, c.path@));
            assert(head + is + ia + (ic + tail) =~= report);
        }
    }
    assert forall|i: int|
        0 <= i < commands.installed@.len() implies {
            let c = #[trigger] commands.installed@[i];
            &&& !c.exists ==> report.contains("installed command path is missing: "@ + c.path@)
            &&& c.exists && c.problem is Some ==> report.contains(
                "installed command '"@ + c.name@ + "' is invalid: "@ + c.problem.unwrap()@,
            )
        } by {
        let c = commands.installed@[i];
        lemma_installed_issues_report(ArtifactKind::Command, commands.installed@, i);
        assert(missing_installed_text(ArtifactKind::Command, c.path@) =~= "installed command path is missing: "@ + c.path@);
        if c.exists && c.problem is Some {
            assert(invalid_installed_text(ArtifactKind::Command, c.name@, c.problem.unwrap()@) =~= "installed command '"@
                + c.name@ + "' is invalid: "@ + c.problem.unwrap()@);
            lemma_contains_in_sum(head + is + ia, ic, tail, invalid_installed_text(ArtifactKind::Command, c.name@, c.problem.unwrap()@));
            assert(head + is + ia + ic + tail =~= report);
        }
        if !c.exists {
            lemma_contains_in_sum(head + is + ia, ic, tail, missing_installed_text(ArtifactKind::Command, c.path@));
            assert(head + is + ia + ic + tail =~= report);
        }
    }
}

proof fn lemma_untracked_report(kind: ArtifactKind, recorded: Seq<Seq<char>>, listing: Seq<WorkspaceEntry>, j: int)
    requires
        0 <= j < listing.len(),
        installed_name(kind, listing[j]) is Some,
        !recorded.contains(installed_name(kind, listing[j]).unwrap()),
    ensures
        untracked_issues(kind, recorded, listing).contains(untracked_text(kind, listing[j].path@)),
    decreases listing.len(),
{
    let rest = untracked_issues(kind, recorded, listing.drop_last());
    if j < listing.len() - 1 {
        lemma_untracked_report(kind, recorded, listing.drop_last(), j);
        assert(listing.drop_last()[j] == listing[j]);
        let k = choose|k: int| 0 <= k < rest.len() && rest[k] == untracked_text(kind, listing[j].path@);
        assert(rest.push(untracked_text(kind, listing.last().path@))[k] == rest[k]);
    } else {
        assert(listing.last() == listing[j]);
        assert(rest.push(untracked_text(kind, listing[j].path@))[rest.len() as int] == untracked_text(
            kind,
            listing[j].path@,
        ));
    }
}

proof fn lemma_installed_issues_none(kind: ArtifactKind, cs: Seq<InstalledCheck>)
    requires
        forall|i: int| 0 <= i < cs.len() ==> (#[trigger] cs[i]).exists && cs[i].problem is None,
    ensures
        installed_issues(kind, cs) == Seq::<Seq<char>>::empty(),
    decreases cs.len(),
{
    if cs.len() > 0 {
        assert(cs.last() == cs[cs.len() - 1]);
        lemma_installed_issues_none(kind, cs.drop_last());
        assert(installed_issues(kind, cs) =~= Seq::<Seq<char>>::empty());
    }
}

proof fn lemma_untracked_none(kind: ArtifactKind, recorded: Seq<Seq<char>>, listing: Seq<WorkspaceEntry>)
    requires
        forall|j: int|
            0 <= j < listing.len() && (#[trigger] installed_name(kind, listing[j])) is Some ==> recorded.contains(
                installed_name(kind, listing[j]).unwrap(),
            ),
    ensures
        untracked_issues(kind, recorded, listing) == Seq::<Seq<char>>::empty(),
    decreases listing.len(),
{
    if listing.len() > 0 {
        assert(listing.last() == listing[listing.len() - 1]);
        assert forall|j: int|
            0 <= j < listing.drop_last().len() && (#[trigger] installed_name(kind, listing.drop_last()[j])) is Some implies recorded.contains(
            installed_name(kind, listing.drop_last()[j]).unwrap(),
        ) by {
            assert(listing.drop_last()[j] == listing[j]);
        }
        lemma_untracked_none(kind, recorded, listing.drop_last());
    }
}

/// The name `n` is among the recorded artifacts.
pub open spec fn recorded_name(cs: Seq<InstalledCheck>, n: Seq<char>) -> bool {
    exists|i: int| 0 <= i < cs.len() && (#[trigger] cs[i]).name@ == n
}

proof fn lemma_recorded_name(cs: Seq<InstalledCheck>, n: Seq<char>)
    ensures
        tracked_names(cs).contains(n) == recorded_name(cs, n),
{
    if recorded_name(cs, n) {
        let i = choose|i: int| 0 <= i < cs.len() && (#[trigger] cs[i]).name@ == n;
        assert(tracked_names(cs)[i] == n);
    }
    if tracked_names(cs).contains(n) {
        let i = choose|i: int| 0 <= i < tracked_names(cs).len() && tracked_names(cs)[i] == n;
        assert(cs[i].name@ == n);
    }
}

/// With a catalog, `doctor` reports every entry of an install directory
/// that is of the sort Hermes installs there and that the catalog does not
/// record: a directory among the skills, a `.md` file among the agents or
/// the commands, recorded under the file's stem.
pub proof fn lemma_doctor_reports_untracked(
    skills: KindCheck,
    agents: KindCheck,
    commands: KindCheck,
    catalog_path: Seq<char>,
)
    ensures
        forall|j: int|
            0 <= j < listing_of(skills).len() && (#[trigger] listing_of(skills)[j]).kind == EntryKind::Dir
                && !recorded_name(skills.installed@, listing_of(skills)[j].file_name@) ==> doctor_report(
                skills,
                agents,
                commands,
                true,
                catalog_path,
            ).contains("untracked installed skill directory: "@ + listing_of(skills)[j].path@),
        forall|j: int|
            0 <= j < listing_of(agents).len() && (#[trigger] listing_of(agents)[j]).kind == EntryKind::File
                && name_extension(listing_of(agents)[j].file_name@) == Some("md"@) && !recorded_name(
                agents.installed@,
                name_stem(listing_of(agents)[j].file_name@),
            ) ==> doctor_report(skills, agents, commands, true, catalog_path).contains(
                "untracked installed agent file: "@ + listing_of(agents)[j].path@,
            ),
        forall|j: int|
            0 <= j < listing_of(commands).len() && (#[trigger] listing_of(commands)[j]).kind == EntryKind::File
                && name_extension(listing_of(commands)[j].file_name@) == Some("md"@) && !recorded_name(
                commands.installed@,
                name_stem(listing_of(commands)[j].file_name@),
            ) ==> doctor_report(skills, agents, commands, true, catalog_path).contains(
                "untracked installed command file: "@ + listing_of(commands)[j].path@,
            ),
{
    let report = doctor_report(skills, agents, commands, true, catalog_path);
    let head = (if skills.root.is_none() && agents.root.is_none() && commands.root.is_none() {
        seq![no_roots_text()]
    } else {
        seq![]
    }) + root_issues(ArtifactKind::Skill, skills.root) + root_issues(ArtifactKind::Agent, agents.root)
        + root_issues(ArtifactKind::Command, commands.root) + installed_issues(ArtifactKind::Skill, skills.installed@)
        + installed_issues(ArtifactKind::Agent, agents.installed@) + installed_issues(
        ArtifactKind::Command,
        commands.installed@,
    );
    let us = untracked_issues(ArtifactKind::Skill, tracked_names(skills.installed@), listing_of(skills));
    let ua = untracked_issues(ArtifactKind::Agent, tracked_names(agents.installed@), listing_of(agents));
    let uc = untracked_issues(ArtifactKind::Command, tracked_names(commands.installed@), listing_of(commands));
    assert(report =~= head + us + ua + uc);
    assert forall|j: int|
        0 <= j < listing_of(skills).len() && (#[trigger] listing_of(skills)[j]).kind == EntryKind::Dir
            && !recorded_name(skills.installed@, listing_of(skills)[j].file_name@) implies report.contains(
        "untracked installed skill directory: "@ + listing_of(skills)[j].path@,
    ) by {
        let e = listing_of(skills)[j];
        lemma_recorded_name(skills.installed@, e.file_name@);
        lemma_untracked_report(ArtifactKind::Skill, tracked_names(skills.installed@), listing_of(skills), j);
        lemma_contains_in_sum(head, us, ua + uc, untracked_text(ArtifactKind::Skill, e.path@));
        assert(head + us + (ua + uc) =~= report);
    }
    assert forall|j: int|
        0 <= j < listing_of(agents).len() && (#[trigger] listing_of(agents)[j]).kind == EntryKind::File
            && name_extension(listing_of(agents)[j].file_name@) == Some("md"@) && !recorded_name(
            agents.installed@,
            name_stem(listing_of(agents)[j].file_name@),
        ) implies report.contains("untracked installed agent file: "@ + listing_of(agents)[j].path@) by {
        let e = listing_of(agents)[j];
        lemma_recorded_name(agents.installed@, name_stem(e.file_name@));
        lemma_untracked_report(ArtifactKind::Agent, tracked_names(agents.installed@), listing_of(agents), j);
        lemma_contains_in_sum(head + us, ua, uc, untracked_text(ArtifactKind::Agent, e.path@));
    }
    assert forall|j: int|
        0 <= j < listing_of(commands).len() && (#[trigger] listing_of(commands)[j]).kind == EntryKind::File
            && name_extension(listing_of(commands)[j].file_name@) == Some("md"@) && !recorded_name(
            commands.installed@,
            name_stem(listing_of(commands)[j].file_name@),
        ) implies report.contains("untracked installed command file: "@ + listing_of(commands)[j].path@) by {
        let e = listing_of(commands)[j];
        lemma_recorded_name(commands.installed@, name_stem(e.file_name@));
        lemma_untracked_report(ArtifactKind::Command, tracked_names(commands.installed@), listing_of(commands), j);
        lemma_contains_in_sum(head + us + ua, uc, Seq::<Seq<char>>::empty(), untracked_text(ArtifactKind::Command, e.path@));
        assert(head + us + ua + uc + Seq::<Seq<char>>::empty() =~= report);
    }
}

/// What `doctor` reports about roots and the catalog: that none is
/// configured, first, when no kind has one; each configured root that does
/// not exist; and, without a catalog, that it is missing, last.
pub proof fn lemma_doctor_reports_roots_and_catalog(
    skills: KindCheck,
    agents: KindCheck,
    commands: KindCheck,
    has_catalog: bool,
    catalog_path: Seq<char>,
)
    ensures
        skills.root is None && agents.root is None && commands.root is None ==> doctor_report(
            skills,
            agents,
            commands,
            has_catalog,
            catalog_path,
        )[0] == "no source roots are configured"@,
        skills.root is Some && !skills.root.unwrap().exists ==> doctor_report(skills, agents, commands, has_catalog, catalog_path).contains(
            "configured skills source root does not exist: "@ + skills.root.unwrap().path@,
        ),
        agents.root is Some && !agents.root.unwrap().exists ==> doctor_report(skills, agents, commands, has_catalog, catalog_path).contains(
            "configured agents source root does not exist: "@ + agents.root.unwrap().path@,
        ),
        commands.root is Some && !commands.root.unwrap().exists ==> doctor_report(skills, agents, commands, has_catalog, catalog_path).contains(
            "configured commands source root does not exist: "@ + commands.root.unwrap().path@,
        ),
        !has_catalog ==> doctor_report(skills, agents, commands, has_catalog, catalog_path).last()
            == "catalog file is missing: "@ + catalog_path,
{
    reveal_strlit("configured ");
    reveal_strlit("s source root does not exist: ");
    reveal_strlit("skill");
    reveal_strlit("agent");
    reveal_strlit("command");
    reveal_strlit("configured skills source root does not exist: ");
    reveal_strlit("configured agents source root does not exist: ");
    reveal_strlit("configured commands source root does not exist: ");
    let report = doctor_report(skills, agents, commands, has_catalog, catalog_path);
    let first = if skills.root.is_none() && agents.root.is_none() && commands.root.is_none() {
        seq![no_roots_text()]
    } else {
        seq![]
    };
    let rs = root_issues(ArtifactKind::Skill, skills.root);
    let ra = root_issues(ArtifactKind::Agent, agents.root);
    let rc = root_issues(ArtifactKind::Command, commands.root);
    let tail = if has_catalog {
        installed_issues(ArtifactKind::Skill, skills.installed@) + installed_issues(
            ArtifactKind::Agent,
            agents.installed@,
        ) + installed_issues(ArtifactKind::Command, commands.installed@) + untracked_issues(
            ArtifactKind::Skill,
            tracked_names(skills.installed@),
            listing_of(skills),
        ) + untracked_issues(ArtifactKind::Agent, tracked_names(agents.installed@), listing_of(agents))
            + untracked_issues(
            ArtifactKind::Command,
            tracked_names(commands.installed@),
            listing_of(commands),
        )
    } else {
        seq![missing_catalog_text(catalog_path)]
    };
    assert(report =~= first + rs + ra + rc + tail);
    if skills.root is None && agents.root is None && commands.root is None {
        assert(report[0] == first[0]);
    }
    if skills.root is Some && !skills.root.unwrap().exists {
        let r = skills.root.unwrap();
        assert(rs[0] =~= "configured skills source root does not exist: "@ + r.path@);
        lemma_contains_in_sum(first, rs, ra + rc + tail, rs[0]);
        assert(first + rs + (ra + rc + tail) =~= report);
    }
    if agents.root is Some && !agents.root.unwrap().exists {
        let r = agents.root.unwrap();
        assert(ra[0] =~= "configured agents source root does not exist: "@ + r.path@);
        lemma_contains_in_sum(first + rs, ra, rc + tail, ra[0]);
        assert(first + rs + ra + (rc + tail) =~= report);
    }
    if commands.root is Some && !commands.root.unwrap().exists {
        let r = commands.root.unwrap();
        assert(rc[0] =~= "configured commands source root does not exist: "@ + r.path@);
        lemma_contains_in_sum(first + rs + ra, rc, tail, rc[0]);
    }
    if !has_catalog {
        reveal_strlit("catalog file is missing: ");
        assert(report.last() == tail[0]);
    }
}

/// With a catalog, `doctor` finds nothing exactly in the clean case: some
/// root is configured, every configured root exists and its inspection met
/// no problem, every recorded copy is there and valid, and every entry of
/// an install directory that Hermes could have installed is recorded.
pub proof fn lemma_doctor_all_clear(skills: KindCheck, agents: KindCheck, commands: KindCheck, catalog_path: Seq<char>)
    requires
        !(skills.root is None && agents.root is None && commands.root is None),
        skills.root matches Some(r) ==> r.exists && r.issues@.len() == 0,
        agents.root matches Some(r) ==> r.exists && r.issues@.len() == 0,
        commands.root matches Some(r) ==> r.exists && r.issues@.len() == 0,
        forall|i: int|
            0 <= i < skills.installed@.len() ==> (#[trigger] skills.installed@[i]).exists
                && skills.installed@[i].problem is None,
        forall|i: int|
            0 <= i < agents.installed@.len() ==> (#[trigger] agents.installed@[i]).exists
                && agents.installed@[i].problem is None,
        forall|i: int|
            0 <= i < commands.installed@.len() ==> (#[trigger] commands.installed@[i]).exists
                && commands.installed@[i].problem is None,
        forall|j: int|
            0 <= j < listing_of(skills).len() && (#[trigger] listing_of(skills)[j]).kind == EntryKind::Dir
                ==> recorded_name(skills.installed@, listing_of(skills)[j].file_name@),
        forall|j: int|
            0 <= j < listing_of(agents).len() && (#[trigger] listing_of(agents)[j]).kind == EntryKind::File
                && name_extension(listing_of(agents)[j].file_name@) == Some("md"@) ==> recorded_name(
                agents.installed@,
                name_stem(listing_of(agents)[j].file_name@),
            ),
        forall|j: int|
            0 <= j < listing_of(commands).len() && (#[trigger] listing_of(commands)[j]).kind == EntryKind::File
                && name_extension(listing_of(commands)[j].file_name@) == Some("md"@) ==> recorded_name(
                commands.installed@,
                name_stem(listing_of(commands)[j].file_name@),
            ),
    ensures
        doctor_report(skills, agents, commands, true, catalog_path).len() == 0,
{
    lemma_installed_issues_none(ArtifactKind::Skill, skills.installed@);
    lemma_installed_issues_none(ArtifactKind::Agent, agents.installed@);
    lemma_installed_issues_none(ArtifactKind::Command, commands.installed@);
    assert forall|j: int|
        0 <= j < listing_of(skills).len() && (#[trigger] installed_name(ArtifactKind::Skill, listing_of(skills)[j])) is Some implies tracked_names(
        skills.installed@,
    ).contains(installed_name(ArtifactKind::Skill, listing_of(skills)[j]).unwrap()) by {
        assert(listing_of(skills)[j].kind == EntryKind::Dir);
        lemma_recorded_name(skills.installed@, listing_of(skills)[j].file_name@);
    }
    assert forall|j: int|
        0 <= j < listing_of(agents).len() && (#[trigger] installed_name(ArtifactKind::Agent, listing_of(agents)[j])) is Some implies tracked_names(
        agents.installed@,
    ).contains(installed_name(ArtifactKind::Agent, listing_of(agents)[j]).unwrap()) by {
        assert(listing_of(agents)[j].kind == EntryKind::File);
        lemma_recorded_name(agents.installed@, name_stem(listing_of(agents)[j].file_name@));
    }
    assert forall|j: int|
        0 <= j < listing_of(commands).len() && (#[trigger] installed_name(ArtifactKind::Command, listing_of(commands)[j])) is Some implies tracked_names(
        commands.installed@,
    ).contains(installed_name(ArtifactKind::Command, listing_of(commands)[j]).unwrap()) by {
        assert(listing_of(commands)[j].kind == EntryKind::File);
        lemma_recorded_name(commands.installed@, name_stem(listing_of(commands)[j].file_name@));
    }
    lemma_untracked_none(ArtifactKind::Skill, tracked_names(skills.installed@), listing_of(skills));
    lemma_untracked_none(ArtifactKind::Agent, tracked_names(agents.installed@), listing_of(agents));
    lemma_untracked_none(ArtifactKind::Command, tracked_names(commands.installed@), listing_of(commands));
    assert(doctor_report(skills, agents, commands, true, catalog_path) =~= Seq::<Seq<char>>::empty());
}

fn push_string(out: &mut Vec<String>, s: String)
    ensures
        string_views(final(out)@) == string_views(old(out)@).push(s@),
{
    let ghost before = string_views(out@);
    out.push(s);
    assert(string_views(out@) =~= before.push(s@));
}

fn push_root_issues(out: &mut Vec<String>, kind: ArtifactKind, root: &Option<RootCheck>)
    ensures
        string_views(final(out)@) == string_views(old(out)@) + root_issues(kind, *root),
{
    match root {
        None => {
            assert(string_views(out@) + Seq::<Seq<char>>::empty() =~= string_views(out@));
        },
        Some(r) => {
            if r.exists {
                let mut i: usize = 0;
                let ghost start = string_views(out@);
                assert(string_views(r.issues@).take(0) =~= Seq::<Seq<char>>::empty());
                assert(start + Seq::<Seq<char>>::empty() =~= start);
                while i < r.issues.len()
                    invariant
                        i <= r.issues@.len(),
                        string_views(out@) == start + string_views(r.issues@).take(i as int),
                    decreases r.issues@.len() - i,
                {
                    push_string(out, r.issues[i].clone());
                    assert(string_views(r.issues@).take(i + 1) =~= string_views(r.issues@).take(
                        i as int,
                    ).push(r.issues@[i as int]@));
                    i = i + 1;
                }
                assert(string_views(r.issues@).take(i as int) =~= string_views(r.issues@));
            } else {
                let mut m = concat3("configured ", kind.label(), "s source root does not exist: ");
                m.append(r.path.as_str());
                let ghost before = string_views(out@);
                push_string(out, m);
                assert(before.push(m@) =~= before + seq![missing_root_text(kind, r.path@)]);
            }
        },
    }
}

fn push_installed_issues(out: &mut Vec<String>, kind: ArtifactKind, checks: &Vec<InstalledCheck>)
    ensures
        string_views(final(out)@) == string_views(old(out)@) + installed_issues(kind, checks@),
{
    let ghost start = string_views(out@);
    let mut i: usize = 0;
    assert(checks@.take(0) =~= Seq::<InstalledCheck>::empty());
    assert(start + Seq::<Seq<char>>::empty() =~= start);
    while i < checks.len()
        invariant
            i <= checks@.len(),
            string_views(out@) == start + installed_issues(kind, checks@.take(i as int)),
        decreases checks@.len() - i,
    {
        let c = &checks[i];
        let ghost before = string_views(out@);
        assert(checks@.take(i + 1).drop_last() =~= checks@.take(i as int));
        assert(checks@.take(i + 1).last() == checks@[i as int]);
        if !c.exists {
            let mut m = concat3("installed ", kind.label(), " path is missing: ");
            m.append(c.path.as_str());
            push_string(out, m);
            assert(before.push(m@) =~= start + installed_issues(kind, checks@.take(i + 1)));
        } else {
            match &c.problem {
                Some(p) => {
                    let mut m = concat3("installed ", kind.label(), " '");
                    m.append(c.name.as_str());
                    m.append("' is invalid: ");
                    m.append(p.as_str());
                    push_string(out, m);
                    assert(before.push(m@) =~= start + installed_issues(kind, checks@.take(i + 1)));
                },
                None => {
                    assert(before =~= start + installed_issues(kind, checks@.take(i + 1)));
                },
            }
        }
        i = i + 1;
    }
    assert(checks@.take(i as int) =~= checks@);
}

/// Whether a name is among the catalog entries.
fn is_tracked(checks: &Vec<InstalledCheck>, n: &str) -> (b: bool)
    ensures
        b == tracked_names(checks@).contains(n@),
{
    let mut i: usize = 0;
    while i < checks.len()
        invariant
            i <= checks@.len(),
            forall|k: int| 0 <= k < i ==> checks@[k].name@ != n@,
        decreases checks@.len() - i,
    {
        if str_equals(checks[i].name.as_str(), n) {
            assert(tracked_names(checks@)[i as int] == n@);
            return true;
        }
        i = i + 1;
    }
    assert forall|k: int| 0 <= k < tracked_names(checks@).len() implies tracked_names(checks@)[k] != n@ by {
        assert(tracked_names(checks@)[k] == checks@[k].name@);
    }
    false
}

/// The name an entry of an install directory is installed under, if any.
fn entry_installed_name(kind: ArtifactKind, e: &WorkspaceEntry) -> (r: Option<String>)
    ensures
        match r {
            Some(s) => installed_name(kind, *e) == Some(s@),
            None => installed_name(kind, *e).is_none(),
        },
{
    match kind {
        ArtifactKind::Skill => {
            if e.kind == EntryKind::Dir {
                Some(e.file_name.clone())
            } else {
                None
            }
        },
        _ => {
            if e.kind == EntryKind::File {
                let v = chars_of(e.file_name.as_str());
                match extension_of(&v) {
                    Some(ext) => {
                        let md = chars_of("md");
                        if chars_eq(&ext, &md) {
                            let stem = stem_of(&v);
                            Some(string_from_chars(&stem))
                        } else {
                            None
                        }
                    },
                    None => None,
                }
            } else {
                None
            }
        },
    }
}

fn untracked_line(kind: ArtifactKind, path: &str) -> (r: String)
    ensures
        r@ == untracked_text(kind, path@),
{
    match kind {
        ArtifactKind::Skill => concat2("untracked installed skill directory: ", path),
        ArtifactKind::Agent => concat2("untracked installed agent file: ", path),
        ArtifactKind::Command => concat2("untracked installed command file: ", path),
    }
}

fn push_untracked_issues(out: &mut Vec<String>, kind: ArtifactKind, c: &KindCheck)
    ensures
        string_views(final(out)@) == string_views(old(out)@) + untracked_issues(
            kind,
            tracked_names(c.installed@),
            listing_of(*c),
        ),
{
    let ghost recorded = tracked_names(c.installed@);
    match &c.listing {
        None => {
            assert(string_views(out@) + Seq::<Seq<char>>::empty() =~= string_views(out@));
        },
        Some(listing) => {
            let ghost start = string_views(out@);
            let mut i: usize = 0;
            assert(listing@.take(0) =~= Seq::<WorkspaceEntry>::empty());
            assert(start + Seq::<Seq<char>>::empty() =~= start);
            while i < listing.len()
                invariant
                    i <= listing@.len(),
                    recorded == tracked_names(c.installed@),
                    string_views(out@) == start + untracked_issues(kind, recorded, listing@.take(i as int)),
                decreases listing@.len() - i,
            {
                let e = &listing[i];
                let ghost before = string_views(out@);
                assert(listing@.take(i + 1).drop_last() =~= listing@.take(i as int));
                assert(listing@.take(i + 1).last() == listing@[i as int]);
                match entry_installed_name(kind, e) {
                    Some(n) => {
                        if !is_tracked(&c.installed, n.as_str()) {
                            let m = untracked_line(kind, e.path.as_str());
                            push_string(out, m);
                            assert(before.push(m@) =~= start + untracked_issues(
                                kind,
                                recorded,
                                listing@.take(i + 1),
                            ));
                        }
                    },
                    None => {},
                }
                i = i + 1;
            }
            assert(listing@.take(i as int) =~= listing@);
        },
    }
}

/// Collects what `doctor` reports.
pub fn doctor_issues(
    skills: &KindCheck,
    agents: &KindCheck,
    commands: &KindCheck,
    has_catalog: bool,
    catalog_path: &str,
) -> (r: Vec<String>)
    ensures
        string_views(r@) == doctor_report(*skills, *agents, *commands, has_catalog, catalog_path@),
{
    let mut out: Vec<String> = Vec::new();
    if skills.root.is_none() && agents.root.is_none() && commands.root.is_none() {
        push_string(&mut out, String::from_str("no source roots are configured"));
    }
    push_root_issues(&mut out, ArtifactKind::Skill, &skills.root);
    push_root_issues(&mut out, ArtifactKind::Agent, &agents.root);
    push_root_issues(&mut out, ArtifactKind::Command, &commands.root);
    if has_catalog {
        push_installed_issues(&mut out, ArtifactKind::Skill, &skills.installed);
        push_installed_issues(&mut out, ArtifactKind::Agent, &agents.installed);
        push_installed_issues(&mut out, ArtifactKind::Command, &commands.installed);
        push_untracked_issues(&mut out, ArtifactKind::Skill, skills);
        push_untracked_issues(&mut out, ArtifactKind::Agent, agents);
        push_untracked_issues(&mut out, ArtifactKind::Command, commands);
    } else {
        push_string(&mut out, concat2("catalog file is missing: ", catalog_path));
    }
    proof {
        let first = if skills.root.is_none() && agents.root.is_none() && commands.root.is_none() {
            seq![no_roots_text()]
        } else {
            Seq::<Seq<char>>::empty()
        };
        assert(Seq::<Seq<char>>::empty().push(no_roots_text()) =~= seq![no_roots_text()]);
        assert(Seq::<String>::empty().map_values(|s: String| s@) =~= Seq::<Seq<char>>::empty());
    }
    assert(string_views(out@) =~= doctor_report(*skills, *agents, *commands, has_catalog, catalog_path@));
    out
}

/// The outcome of `doctor` from its issues: all clear, or how many there
/// are.
pub open spec fn doctor_verdict_text(issue_count: nat) -> Result<Seq<char>, Seq<char>> {
    if issue_count == 0 {
        Ok("Doctor found no issues."@)
    } else {
        Err("doctor found "@ + decimal(issue_count) + " issue(s)"@)
    }
}

/// Writes the outcome of `doctor`.
pub fn doctor_verdict(issues: &Vec<String>) -> (r: Result<String, String>)
    ensures
        match (r, doctor_verdict_text(issues@.len())) {
            (Ok(m), Ok(t)) => m@ == t,
            (Err(m), Err(t)) => m@ == t,
            _ => false,
        },
{
    if issues.len() == 0 {
        Ok(String::from_str("Doctor found no issues."))
    } else {
        let n = decimal_string(issues.len());
        let mut m = concat2("doctor found ", n.as_str());
        m.append(" issue(s)");
        Err(m)
    }
}

/// The line printed for each issue.
pub open spec fn issue_line_text(issue: Seq<char>) -> Seq<char> {
    "- "@ + issue
}

/// Writes the line printed for an issue.
pub fn issue_line(issue: &str) -> (r: String)
    ensures
        r@ == issue_line_text(issue@),
{
    concat2("- ", issue)
}

} // verus!
