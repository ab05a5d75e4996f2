//! What `remove` does to the catalog: it forgets one recorded artifact and
//! says where its installed copy was.
use vstd::prelude::*;

use crate::catalog::{first_named, remove_named, CatalogEntry};
use crate::cli::RemoveTarget;
use crate::discovery::{kind_label, ArtifactKind};
use crate::models::CatalogManifest;
use crate::text::{concat2, concat3};

verus! {

/// A name `remove` was given that the catalog does not record.
#[derive(Debug)]
pub struct NotInCatalog {
    pub kind: ArtifactKind,
    pub name: String,
}

/// The error for a name the catalog does not record.
pub open spec fn not_in_catalog_text(kind: ArtifactKind, name: Seq<char>) -> Seq<char> {
    "installed "@ + kind_label(kind) + " '"@ + name + "' not found in catalog"@
}

impl NotInCatalog {
    /// The error, in words.
    pub fn message(&self) -> (r: String)
        ensures
            r@ == not_in_catalog_text(self.kind, self.name@),
    {
        let mut r = concat3("installed ", self.kind.label(), " '");
        r.append(self.name.as_str());
        r.append("' not found in catalog");
        r
    }
}

/// The catalog entry `remove` took out: its kind, name and install path.
#[derive(Debug)]
pub struct Removed {
    pub kind: ArtifactKind,
    pub name: String,
    pub installed_rel_path: String,
}

/// What removing the first entry of `s` named `n` gives: the removed entry
/// and the entries left, or nothing when no entry has that name.
pub open spec fn removal<E: CatalogEntry>(s: Seq<E>, n: Seq<char>) -> Option<(E, Seq<E>)> {
    let i = first_named(s, n);
    if i < s.len() {
        Some((s[i], s.remove(i)))
    } else {
        None
    }
}

fn take_named<E: CatalogEntry>(entries: &mut Vec<E>, name: &String, kind: ArtifactKind) -> (r: Result<
    Removed,
    NotInCatalog,
>)
    ensures
        match removal(old(entries)@, name@) {
            Some((e, rest)) => {
                &&& final(entries)@ == rest
                &&& r matches Ok(rm)
                &&& rm.kind == kind
                &&& rm.name@ == e.spec_entry_name()
                &&& rm.installed_rel_path@ == e.spec_installed_rel_path()
            },
            None => {
                &&& final(entries)@ == old(entries)@
                &&& r matches Err(err)
                &&& err.kind == kind
                &&& err.name@ == name@
            },
        },
{
    match remove_named(entries, name.as_str()) {
        Some(e) => Ok(
            Removed {
                kind,
                name: String::from_str(e.entry_name()),
                installed_rel_path: String::from_str(e.installed_rel_path()),
            },
        ),
        None => Err(NotInCatalog { kind, name: name.clone() }),
    }
}

/// Forgets the artifact `remove` names. Its first catalog entry of that
/// kind and name is taken out and the rest of the catalog is kept; without
/// such an entry the catalog is unchanged and the name is reported.
pub fn remove_from_catalog(manifest: &mut CatalogManifest, target: &RemoveTarget) -> (r: Result<
    Removed,
    NotInCatalog,
>)
    ensures
        final(manifest).version == old(manifest).version,
        final(manifest).install_mode == old(manifest).install_mode,
        final(manifest).skills_source_root == old(manifest).skills_source_root,
        final(manifest).agents_source_root == old(manifest).agents_source_root,
        final(manifest).commands_source_root == old(manifest).commands_source_root,
        match target {
            RemoveTarget::Skills(item) => {
                &&& final(manifest).agents == old(manifest).agents
                &&& final(manifest).commands == old(manifest).commands
                &&& match removal(old(manifest).skills@, item.name@) {
                    Some((e, rest)) => {
                        &&& final(manifest).skills@ == rest
                        &&& r matches Ok(rm)
                        &&& rm.kind == ArtifactKind::Skill
                        &&& rm.name@ == e.name@
                        &&& rm.installed_rel_path@ == e.installed_rel_path@
                    },
                    None => {
                        &&& final(manifest).skills@ == old(manifest).skills@
                        &&& r matches Err(err)
                        &&& err.kind == ArtifactKind::Skill
                        &&& err.name@ == item.name@
                    },
                }
            },
            RemoveTarget::Agents(item) => {
                &&& final(manifest).skills == old(manifest).skills
                &&& final(manifest).commands == old(manifest).commands
                &&& match removal(old(manifest).agents@, item.name@) {
                    Some((e, rest)) => {
                        &&& final(manifest).agents@ == rest
                        &&& r matches Ok(rm)
                        &&& rm.kind == ArtifactKind::Agent
                        &&& rm.name@ == e.name@
                        &&& rm.installed_rel_path@ == e.installed_rel_path@
                    },
                    None => {
                        &&& final(manifest).agents@ == old(manifest).agents@
                        &&& r matches Err(err)
                        &&& err.kind == ArtifactKind::Agent
                        &&& err.name@ == item.name@
                    },
                }
            },
            RemoveTarget::Commands(item) => {
                &&& final(manifest).skills == old(manifest).skills
                &&& final(manifest).agents == old(manifest).agents
                &&& match removal(old(manifest).commands@, item.name@) {
                    Some((e, rest)) => {
                        &&& final(manifest).commands@ == rest
                        &&& r matches Ok(rm)
                        &&& rm.kind == ArtifactKind::Command
                        &&& rm.name@ == e.name@
                        &&& rm.installed_rel_path@ == e.installed_rel_path@
                    },
                    None => {
                        &&& final(manifest).commands@ == old(manifest).commands@
                        &&& r matches Err(err)
                        &&& err.kind == ArtifactKind::Command
                        &&& err.name@ == item.name@
                    },
                }
            },
        },
{
    match target {
        RemoveTarget::Skills(item) => take_named(&mut manifest.skills, &item.name, ArtifactKind::Skill),
        RemoveTarget::Agents(item) => take_named(&mut manifest.agents, &item.name, ArtifactKind::Agent),
        RemoveTarget::Commands(item) => take_named(
            &mut manifest.commands,
            &item.name,
            ArtifactKind::Command,
        ),
    }
}

/// The line printed for a removed artifact.
pub open spec fn removed_text(kind: ArtifactKind, name: Seq<char>) -> Seq<char> {
    "Removed "@ + kind_label(kind) + " "@ + name
}

/// Writes the line printed for a removed artifact.
pub fn removed_line(removed: &Removed) -> (r: String)
    ensures
        r@ == removed_text(removed.kind, removed.name@),
{
    let mut r = concat3("Removed ", removed.kind.label(), " ");
    r.append(removed.name.as_str());
    r
}

/// The error of commands that need a catalog and find none.
pub open spec fn no_catalog_text(catalog_path: Seq<char>) -> Seq<char> {
    "no catalog found at "@ + catalog_path + "; run hermes init or hermes install first"@
}

/// Writes the error of commands that need a catalog and find none.
pub fn no_catalog_message(catalog_path: &str) -> (r: String)
    ensures
        r@ == no_catalog_text(catalog_path@),
{
    let mut r = concat2("no catalog found at ", catalog_path);
    r.append("; run hermes init or hermes install first");
    r
}

} // verus!
