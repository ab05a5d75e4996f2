//! Which source roots a command works with, and the catalog it starts from.
use vstd::prelude::*;

use crate::fs_ops::{join_path, joined};
use crate::models::{CatalogManifest, InstallMode, SourceOverrides, SourceRoots, UserConfig};

verus! {

/// The root for one kind: the command-line flag first, then the user
/// configuration, then the environment variable.
pub open spec fn chosen_root(flag: Option<String>, config: Option<String>, env: Option<String>) -> Option<String> {
    match flag {
        Some(p) => Some(p),
        None => match config {
            Some(p) => Some(p),
            None => env,
        },
    }
}

/// A flag wins over everything; without one the configuration wins over
/// the environment; a root comes from nowhere else.
pub proof fn lemma_root_precedence(flag: Option<String>, config: Option<String>, env: Option<String>)
    ensures
        flag is Some ==> chosen_root(flag, config, env) == flag,
        flag is None && config is Some ==> chosen_root(flag, config, env) == config,
        flag is None && config is None ==> chosen_root(flag, config, env) == env,
{
}

fn copy_opt(s: &Option<String>) -> (r: Option<String>)
    ensures
        r == *s,
{
    match s {
        Some(p) => Some(p.clone()),
        None => None,
    }
}

/// Picks the root for one kind.
pub fn resolve_source_root(flag: &Option<String>, config: &Option<String>, env: &Option<String>) -> (r: Option<String>)
    ensures
        r == chosen_root(*flag, *config, *env),
{
    if flag.is_some() {
        return copy_opt(flag);
    }
    if config.is_some() {
        return copy_opt(config);
    }
    copy_opt(env)
}

/// Picks the source roots to use, before each is checked to be an existing
/// directory: command-line flags, then the user configuration, then the
/// `OPENCODE_*_SOURCE` environment variables (given in `env`).
pub fn resolve_source_roots(overrides: &SourceOverrides, config: &UserConfig, env: &SourceOverrides) -> (r: SourceRoots)
    ensures
        r.skills == chosen_root(overrides.skills, config.skills_source_root, env.skills),
        r.agents == chosen_root(overrides.agents, config.agents_source_root, env.agents),
        r.commands == chosen_root(overrides.commands, config.commands_source_root, env.commands),
{
    SourceRoots {
        skills: resolve_source_root(&overrides.skills, &config.skills_source_root, &env.skills),
        agents: resolve_source_root(&overrides.agents, &config.agents_source_root, &env.agents),
        commands: resolve_source_root(&overrides.commands, &config.commands_source_root, &env.commands),
    }
}

/// The catalog a command starts from: the one found, or an empty one.
pub fn load_or_default(loaded: Option<CatalogManifest>) -> (m: CatalogManifest)
    ensures
        loaded matches Some(l) ==> m == l,
        loaded.is_none() ==> m.version == 1 && m.install_mode == InstallMode::Copy
            && m.skills_source_root.is_none() && m.agents_source_root.is_none()
            && m.commands_source_root.is_none() && m.skills@.len() == 0 && m.agents@.len() == 0
            && m.commands@.len() == 0,
{
    match loaded {
        Some(m) => m,
        None => CatalogManifest::empty(),
    }
}

/// The user configuration directory under the home directory `home`.
pub fn user_config_dir(home: &str) -> (r: String)
    ensures
        r@ == joined(joined(home@, ".config"@), "hermes_cli"@),
{
    let config = join_path(home, ".config");
    join_path(config.as_str(), "hermes_cli")
}

/// The user configuration file under the home directory `home`:
/// `~/.config/hermes_cli/config.toml`.
pub fn user_config_path(home: &str) -> (r: String)
    ensures
        r@ == joined(joined(joined(home@, ".config"@), "hermes_cli"@), "config.toml"@),
{
    let dir = user_config_dir(home);
    join_path(dir.as_str(), "config.toml")
}

} // verus!
