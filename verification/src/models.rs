//! The data that Hermes discovers, installs and records.
use vstd::prelude::*;

use crate::fs_ops::{join_path, joined};
use crate::text::{concat3, str_equals};

verus! {

/// How artifacts are placed in the workspace.
#[derive(Debug, Clone, Copy, PartialEq, Eq, Structural)]
pub enum InstallMode {
    Copy,
}

/// The mode an OpenCode agent declares in its frontmatter.
#[derive(Debug, Clone, Copy, PartialEq, Eq, Structural)]
pub enum AgentMode {
    Primary,
    Subagent,
    All,
}

/// The text that names each agent mode.
pub open spec fn mode_text(m: AgentMode) -> Seq<char> {
    match m {
        AgentMode::Primary => "primary"@,
        AgentMode::Subagent => "subagent"@,
        AgentMode::All => "all"@,
    }
}

/// The mode that `v` names, if any.
pub open spec fn mode_named(v: Seq<char>) -> Option<AgentMode> {
    if v == "primary"@ {
        Some(AgentMode::Primary)
    } else if v == "subagent"@ {
        Some(AgentMode::Subagent)
    } else if v == "all"@ {
        Some(AgentMode::All)
    } else {
        None
    }
}

/// An agent mode that Hermes does not know.
#[derive(Debug)]
pub struct UnsupportedAgentMode {
    pub value: String,
}

impl UnsupportedAgentMode {
    /// `unsupported agent mode '<value>'`.
    pub fn message(&self) -> (r: String)
        ensures
            r@ == "unsupported agent mode '"@ + self.value@ + "'"@,
    {
        concat3("unsupported agent mode '", self.value.as_str(), "'")
    }
}

impl AgentMode {
    /// Reads a mode from its name.
    pub fn parse(value: &str) -> (r: Result<AgentMode, UnsupportedAgentMode>)
        ensures
            match r {
                Ok(m) => mode_named(value@) == Some(m),
                Err(e) => mode_named(value@).is_none() && e.value@ == value@,
            },
    {
        if str_equals(value, "primary") {
            Ok(AgentMode::Primary)
        } else if str_equals(value, "subagent") {
            Ok(AgentMode::Subagent)
        } else if str_equals(value, "all") {
            Ok(AgentMode::All)
        } else {
            Err(UnsupportedAgentMode { value: String::from_str(value) })
        }
    }

    /// The name of the mode, as it is displayed and stored.
    pub fn as_str(&self) -> (r: &'static str)
        ensures
            r@ == mode_text(*self),
    {
        match self {
            AgentMode::Primary => "primary",
            AgentMode::Subagent => "subagent",
            AgentMode::All => "all",
        }
    }
}

} // verus!

verus! {

/// A parsed mode names itself back: reading the text of a mode gives that mode.
pub proof fn lemma_mode_text_roundtrip(m: AgentMode)
    ensures
        mode_named(mode_text(m)) == Some(m),
{
    reveal_strlit("primary");
    reveal_strlit("subagent");
    reveal_strlit("all");
    assert("primary"@[0] != "subagent"@[0]);
    assert("primary"@[0] != "all"@[0]);
    assert("subagent"@[0] != "all"@[0]);
}

/// A skill recorded in the project catalog.
#[derive(Debug)]
pub struct InstalledSkill {
    pub name: String,
    pub description: String,
    pub source_rel_path: String,
    pub installed_rel_path: String,
    pub source_hash: String,
    pub installed_hash: String,
}

/// An agent recorded in the project catalog.
#[derive(Debug)]
pub struct InstalledAgent {
    pub name: String,
    pub description: String,
    pub mode: Option<AgentMode>,
    pub source_rel_path: String,
    pub installed_rel_path: String,
    pub source_hash: String,
    pub installed_hash: String,
}

/// A command recorded in the project catalog.
#[derive(Debug)]
pub struct InstalledCommand {
    pub name: String,
    pub description: Option<String>,
    pub source_rel_path: String,
    pub installed_rel_path: String,
    pub source_hash: String,
    pub installed_hash: String,
}

/// The project catalog, `.opencode/catalog.toml`.
#[derive(Debug)]
pub struct CatalogManifest {
    pub version: u32,
    pub install_mode: InstallMode,
    pub skills_source_root: Option<String>,
    pub agents_source_root: Option<String>,
    pub commands_source_root: Option<String>,
    pub skills: Vec<InstalledSkill>,
    pub agents: Vec<InstalledAgent>,
    pub commands: Vec<InstalledCommand>,
}

impl CatalogManifest {
    /// The catalog of a workspace where nothing is installed yet.
    pub fn empty() -> (m: CatalogManifest)
        ensures
            m.version == 1,
            m.install_mode == InstallMode::Copy,
            m.skills_source_root.is_none(),
            m.agents_source_root.is_none(),
            m.commands_source_root.is_none(),
            m.skills@.len() == 0,
            m.agents@.len() == 0,
            m.commands@.len() == 0,
    {
        CatalogManifest {
            version: 1,
            install_mode: InstallMode::Copy,
            skills_source_root: None,
            agents_source_root: None,
            commands_source_root: None,
            skills: Vec::new(),
            agents: Vec::new(),
            commands: Vec::new(),
        }
    }
}

impl Default for CatalogManifest {
    fn default() -> (m: CatalogManifest)
        ensures
            m.version == 1,
            m.install_mode == InstallMode::Copy,
            m.skills_source_root.is_none(),
            m.agents_source_root.is_none(),
            m.commands_source_root.is_none(),
            m.skills@.len() == 0,
            m.agents@.len() == 0,
            m.commands@.len() == 0,
    {
        CatalogManifest::empty()
    }
}

/// A skill found in a source library.
#[derive(Debug)]
pub struct DiscoveredSkill {
    pub name: String,
    pub description: String,
    pub source_path: String,
    pub source_rel_path: String,
}

/// An agent found in a source library.
#[derive(Debug)]
pub struct DiscoveredAgent {
    pub name: String,
    pub description: String,
    pub mode: Option<AgentMode>,
    pub source_path: String,
    pub source_rel_path: String,
}

/// A command found in a source library.
#[derive(Debug)]
pub struct DiscoveredCommand {
    pub name: String,
    pub description: Option<String>,
    pub source_path: String,
    pub source_rel_path: String,
}

/// Source roots given on the command line.
#[derive(Debug)]
pub struct SourceOverrides {
    pub skills: Option<String>,
    pub agents: Option<String>,
    pub commands: Option<String>,
}

/// The source roots that a command works with.
#[derive(Debug)]
pub struct SourceRoots {
    pub skills: Option<String>,
    pub agents: Option<String>,
    pub commands: Option<String>,
}

impl SourceRoots {
    /// Whether no root is configured at all.
    pub fn is_empty(&self) -> (b: bool)
        ensures
            b == (self.skills.is_none() && self.agents.is_none() && self.commands.is_none()),
    {
        self.skills.is_none() && self.agents.is_none() && self.commands.is_none()
    }
}

/// User-level configuration, `~/.config/hermes_cli/config.toml`.
#[derive(Debug)]
pub struct UserConfig {
    pub skills_source_root: Option<String>,
    pub agents_source_root: Option<String>,
    pub commands_source_root: Option<String>,
}

impl Default for UserConfig {
    fn default() -> (c: UserConfig)
        ensures
            c.skills_source_root.is_none(),
            c.agents_source_root.is_none(),
            c.commands_source_root.is_none(),
    {
        UserConfig { skills_source_root: None, agents_source_root: None, commands_source_root: None }
    }
}

/// What discovery found under one source root: the artifacts, the problems
/// met on the way, and the names that more than one artifact claims.
#[derive(Debug)]
pub struct Inspection<T> {
    pub items: Vec<T>,
    pub issues: Vec<String>,
    pub duplicate_names: Vec<String>,
}

impl<T> Inspection<T> {
    /// An inspection that found nothing.
    pub fn new() -> (r: Inspection<T>)
        ensures
            r.items@.len() == 0,
            r.issues@.len() == 0,
            r.duplicate_names@.len() == 0,
    {
        Inspection { items: Vec::new(), issues: Vec::new(), duplicate_names: Vec::new() }
    }
}

impl<T> Default for Inspection<T> {
    fn default() -> (r: Inspection<T>)
        ensures
            r.items@.len() == 0,
            r.issues@.len() == 0,
            r.duplicate_names@.len() == 0,
    {
        Inspection::new()
    }
}

} // verus!

verus! {

/// Where a project's workspace keeps its parts.
#[derive(Debug)]
pub struct ProjectPaths {
    pub opencode_dir: String,
    pub skills_dir: String,
    pub agents_dir: String,
    pub commands_dir: String,
    pub tmp_dir: String,
    pub catalog_path: String,
}

impl ProjectPaths {
    /// The workspace layout under the project directory `root`.
    pub fn new(root: String) -> (p: ProjectPaths)
        ensures
            p.opencode_dir@ == joined(root@, ".opencode"@),
            p.skills_dir@ == joined(p.opencode_dir@, "skills"@),
            p.agents_dir@ == joined(p.opencode_dir@, "agents"@),
            p.commands_dir@ == joined(p.opencode_dir@, "commands"@),
            p.tmp_dir@ == joined(p.opencode_dir@, ".tmp"@),
            p.catalog_path@ == joined(p.opencode_dir@, "catalog.toml"@),
    {
        let opencode_dir = join_path(root.as_str(), ".opencode");
        let skills_dir = join_path(opencode_dir.as_str(), "skills");
        let agents_dir = join_path(opencode_dir.as_str(), "agents");
        let commands_dir = join_path(opencode_dir.as_str(), "commands");
        let tmp_dir = join_path(opencode_dir.as_str(), ".tmp");
        let catalog_path = join_path(opencode_dir.as_str(), "catalog.toml");
        ProjectPaths { opencode_dir, skills_dir, agents_dir, commands_dir, tmp_dir, catalog_path }
    }

    /// Where an artifact recorded at `rel_path` lives in the workspace.
    pub fn installed_path(&self, rel_path: &str) -> (r: String)
        ensures
            r@ == joined(self.opencode_dir@, rel_path@),
    {
        join_path(self.opencode_dir.as_str(), rel_path)
    }
}

} // verus!

verus! {

/// A skill, agent or command found in a source library: it has a name, and a
/// path relative to its source root.
pub trait Artifact: Sized {
    spec fn spec_name(&self) -> Seq<char>;

    spec fn spec_rel_path(&self) -> Seq<char>;

    fn name(&self) -> (r: &str)
        ensures
            r@ == self.spec_name(),
    ;

    fn rel_path(&self) -> (r: &str)
        ensures
            r@ == self.spec_rel_path(),
    ;

    /// A copy of the artifact.
    fn duplicate(&self) -> (r: Self)
        ensures
            r == *self,
    ;
}

impl Artifact for DiscoveredSkill {
    open spec fn spec_name(&self) -> Seq<char> {
        self.name@
    }

    open spec fn spec_rel_path(&self) -> Seq<char> {
        self.source_rel_path@
    }

    fn name(&self) -> (r: &str) {
        self.name.as_str()
    }

    fn rel_path(&self) -> (r: &str) {
        self.source_rel_path.as_str()
    }

    fn duplicate(&self) -> (r: Self) {
        DiscoveredSkill {
            name: self.name.clone(),
            description: self.description.clone(),
            source_path: self.source_path.clone(),
            source_rel_path: self.source_rel_path.clone(),
        }
    }
}

impl Artifact for DiscoveredAgent {
    open spec fn spec_name(&self) -> Seq<char> {
        self.name@
    }

    open spec fn spec_rel_path(&self) -> Seq<char> {
        self.source_rel_path@
    }

    fn name(&self) -> (r: &str) {
        self.name.as_str()
    }

    fn rel_path(&self) -> (r: &str) {
        self.source_rel_path.as_str()
    }

    fn duplicate(&self) -> (r: Self) {
        DiscoveredAgent {
            name: self.name.clone(),
            description: self.description.clone(),
            mode: self.mode,
            source_path: self.source_path.clone(),
            source_rel_path: self.source_rel_path.clone(),
        }
    }
}

impl Artifact for DiscoveredCommand {
    open spec fn spec_name(&self) -> Seq<char> {
        self.name@
    }

    open spec fn spec_rel_path(&self) -> Seq<char> {
        self.source_rel_path@
    }

    fn name(&self) -> (r: &str) {
        self.name.as_str()
    }

    fn rel_path(&self) -> (r: &str) {
        self.source_rel_path.as_str()
    }

    fn duplicate(&self) -> (r: Self) {
        let description = match &self.description {
            Some(d) => Some(d.clone()),
            None => None,
        };
        DiscoveredCommand {
            name: self.name.clone(),
            description,
            source_path: self.source_path.clone(),
            source_rel_path: self.source_rel_path.clone(),
        }
    }
}

} // verus!
