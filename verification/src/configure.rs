//! What `configure` and `init` decide about source roots.
use vstd::prelude::*;

use crate::cli::ConfigureArgs;
use crate::discovery::{string_views, ArtifactKind};
use crate::models::{ProjectPaths, SourceRoots, UserConfig};
use crate::text::concat2;

verus! {

/// `configure` was given no source root.
#[derive(Debug)]
pub struct NoSourceRootGiven;

/// The error of `configure` without a source root.
pub open spec fn no_source_root_given_text() -> Seq<char> {
    "hermes configure requires at least one source root; pass --skills-source, --agents-source, or --commands-source"@
}

impl NoSourceRootGiven {
    /// The error, in words.
    pub fn message(&self) -> (r: String)
        ensures
            r@ == no_source_root_given_text(),
    {
        String::from_str(
            "hermes configure requires at least one source root; pass --skills-source, --agents-source, or --commands-source",
        )
    }
}

/// `configure` needs at least one source root.
pub fn check_configure_args(args: &ConfigureArgs) -> (r: Result<(), NoSourceRootGiven>)
    ensures
        r.is_ok() == (args.skills_source.is_some() || args.agents_source.is_some()
            || args.commands_source.is_some()),
{
    if args.skills_source.is_none() && args.agents_source.is_none() && args.commands_source.is_none() {
        Err(NoSourceRootGiven)
    } else {
        Ok(())
    }
}

/// A root given replaces the configured one; a root not given keeps it.
pub open spec fn updated_root(given: Option<String>, configured: Option<String>) -> Option<String> {
    match given {
        Some(p) => Some(p),
        None => configured,
    }
}

/// A root given to `configure` is stored; one not given keeps what was
/// configured.
pub proof fn lemma_updated_root(given: Option<String>, configured: Option<String>)
    ensures
        given is Some ==> updated_root(given, configured) == given,
        given is None ==> updated_root(given, configured) == configured,
{
}

/// Stores the given source roots in the user configuration.
pub fn apply_source_roots(
    config: &mut UserConfig,
    skills: Option<String>,
    agents: Option<String>,
    commands: Option<String>,
)
    ensures
        final(config).skills_source_root == updated_root(skills, old(config).skills_source_root),
        final(config).agents_source_root == updated_root(agents, old(config).agents_source_root),
        final(config).commands_source_root == updated_root(
            commands,
            old(config).commands_source_root,
        ),
{
    if let Some(p) = skills {
        config.skills_source_root = Some(p);
    }
    if let Some(p) = agents {
        config.agents_source_root = Some(p);
    }
    if let Some(p) = commands {
        config.commands_source_root = Some(p);
    }
}

/// The line printed for a stored root.
pub open spec fn root_configured_text(kind: ArtifactKind, path: Seq<char>) -> Seq<char> {
    match kind {
        ArtifactKind::Skill => "Skills source root configured: "@ + path,
        ArtifactKind::Agent => "Agents source root configured: "@ + path,
        ArtifactKind::Command => "Commands source root configured: "@ + path,
    }
}

/// Writes the line printed for a stored root.
pub fn root_configured_line(kind: ArtifactKind, path: &str) -> (r: String)
    ensures
        r@ == root_configured_text(kind, path@),
{
    match kind {
        ArtifactKind::Skill => concat2("Skills source root configured: ", path),
        ArtifactKind::Agent => concat2("Agents source root configured: ", path),
        ArtifactKind::Command => concat2("Commands source root configured: ", path),
    }
}

/// The error of `init` without any source root.
pub open spec fn init_needs_root_text() -> Seq<char> {
    "hermes init requires at least one source root; pass --skills-source, --agents-source, or --commands-source, or configure defaults with hermes configure"@
}

/// `init` needs at least one resolvable source root.
pub fn check_init_roots(roots: &SourceRoots) -> (r: Result<(), String>)
    ensures
        r.is_ok() == !(roots.skills.is_none() && roots.agents.is_none() && roots.commands.is_none()),
        r matches Err(m) ==> m@ == init_needs_root_text(),
{
    if roots.is_empty() {
        Err(
            String::from_str(
                "hermes init requires at least one source root; pass --skills-source, --agents-source, or --commands-source, or configure defaults with hermes configure",
            ),
        )
    } else {
        Ok(())
    }
}


/// What `configure` prints once the configuration is written.
pub open spec fn config_saved_text() -> Seq<char> {
    "Configuration saved to ~/.config/hermes_cli/config.toml"@
}

/// Writes what `configure` prints once the configuration is written.
pub fn config_saved_line() -> (r: String)
    ensures
        r@ == config_saved_text(),
{
    String::from_str("Configuration saved to ~/.config/hermes_cli/config.toml")
}

/// What `init` prints: where the workspace and its catalog are.
pub open spec fn init_texts(paths: ProjectPaths) -> Seq<Seq<char>> {
    seq![
        "Initialized Hermes workspace at "@ + paths.opencode_dir@,
        "Catalog updated: "@ + paths.catalog_path@,
    ]
}

/// Writes what `init` prints.
pub fn init_lines(paths: &ProjectPaths) -> (r: Vec<String>)
    ensures
        string_views(r@) == init_texts(*paths),
{
    let mut r: Vec<String> = Vec::new();
    r.push(concat2("Initialized Hermes workspace at ", paths.opencode_dir.as_str()));
    r.push(concat2("Catalog updated: ", paths.catalog_path.as_str()));
    assert(string_views(r@) =~= init_texts(*paths));
    r
}
} // verus!
