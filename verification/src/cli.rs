//! The command line, as plain values: what each subcommand was asked to do.
use vstd::prelude::*;

verus! {

/// The whole command line.
#[derive(Debug)]
pub struct Cli {
    pub skills_source: Option<String>,
    pub agents_source: Option<String>,
    pub commands_source: Option<String>,
    pub command: Commands,
}

/// The subcommands.
#[derive(Debug)]
pub enum Commands {
    Init(InitArgs),
    Configure(ConfigureArgs),
    Install(InstallArgs),
    List(ListArgs),
    Sync(SyncArgs),
    Remove(RemoveArgs),
    Doctor,
}

/// Arguments of `init`.
#[derive(Debug)]
pub struct InitArgs {}

/// Arguments of `configure`.
#[derive(Debug)]
pub struct ConfigureArgs {
    pub skills_source: Option<String>,
    pub agents_source: Option<String>,
    pub commands_source: Option<String>,
}

/// Arguments of `install`.
#[derive(Debug)]
pub struct InstallArgs {
    pub skills: Vec<String>,
    pub agents: Vec<String>,
    pub commands: Vec<String>,
    pub force: bool,
    pub target: Option<InstallTarget>,
}

/// The kind subcommand of `install`.
#[derive(Debug)]
pub enum InstallTarget {
    Skills(NameList),
    Agents(NameList),
    Commands(NameList),
}

/// Names given after a kind subcommand.
#[derive(Debug)]
pub struct NameList {
    pub names: Vec<String>,
}

/// Arguments of `list`.
#[derive(Debug)]
pub struct ListArgs {
    pub available: Option<ListTarget>,
    pub installed: Option<ListTarget>,
}

/// What `list` shows.
#[derive(Debug, Clone, Copy, PartialEq, Eq, Structural)]
pub enum ListTarget {
    Skills,
    Agents,
    Commands,
    All,
}

/// Arguments of `sync`.
#[derive(Debug)]
pub struct SyncArgs {
    pub all: bool,
    pub skills: bool,
    pub agents: bool,
    pub commands: bool,
    pub force: bool,
}

/// Arguments of `remove`.
#[derive(Debug)]
pub struct RemoveArgs {
    pub target: RemoveTarget,
}

/// The kind of artifact `remove` removes.
#[derive(Debug)]
pub enum RemoveTarget {
    Skills(SingleName),
    Agents(SingleName),
    Commands(SingleName),
}

/// One artifact name.
#[derive(Debug)]
pub struct SingleName {
    pub name: String,
}

} // verus!
