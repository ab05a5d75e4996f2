use hermes::catalog::{find_named, remove_named, upsert};
use hermes::cli::{InstallArgs, InstallTarget, NameList, RemoveTarget, SingleName};
use hermes::discovery::ArtifactKind;
use hermes::install::{
    agent_entry, check_installed_hash, command_entry, dedupe, install_summary, installed_rel_path, plan_install,
    select_named, skill_entry, upsert_agent, upsert_command, upsert_skill, warning_line, InstallPlan,
    InstallSelection, RequestedArtifacts, SelectError, SkipReason,
};
use hermes::manifest::load_or_default;
use hermes::models::{
    AgentMode, CatalogManifest, DiscoveredAgent, DiscoveredCommand, DiscoveredSkill, InstalledSkill, ProjectPaths,
};
use hermes::remove::{no_catalog_message, remove_from_catalog, removed_line};

fn names(v: &[&str]) -> Vec<String> {
    v.iter().map(|s| s.to_string()).collect()
}

fn args(skills: &[&str], agents: &[&str], commands: &[&str], target: Option<InstallTarget>) -> InstallArgs {
    InstallArgs { skills: names(skills), agents: names(agents), commands: names(commands), force: false, target }
}

fn skill(name: &str, rel: &str) -> DiscoveredSkill {
    DiscoveredSkill {
        name: name.to_string(),
        description: format!("{name} skill"),
        source_path: format!("/lib/{rel}"),
        source_rel_path: rel.to_string(),
    }
}

fn installed(name: &str, hash: &str) -> InstalledSkill {
    InstalledSkill {
        name: name.to_string(),
        description: "d".to_string(),
        source_rel_path: name.to_string(),
        installed_rel_path: format!("skills/{name}"),
        source_hash: "sha256:src".to_string(),
        installed_hash: hash.to_string(),
    }
}

fn entry_names(v: &[InstalledSkill]) -> Vec<&str> {
    v.iter().map(|s| s.name.as_str()).collect()
}

#[test]
fn no_names_selects_everything_interactively() {
    let sel = InstallSelection::from_args(&args(&[], &[], &[], None)).unwrap();
    assert!(matches!(sel.skills, RequestedArtifacts::Prompt));
    assert!(matches!(sel.agents, RequestedArtifacts::Prompt));
    assert!(matches!(sel.commands, RequestedArtifacts::Prompt));
    assert!(sel.uses_tui());
}

#[test]
fn flags_name_only_their_kinds() {
    let sel = InstallSelection::from_args(&args(&["code-review"], &[], &["test"], None)).unwrap();
    match &sel.skills {
        RequestedArtifacts::Named(n) => assert_eq!(n, &names(&["code-review"])),
        other => panic!("unexpected {other:?}"),
    }
    assert!(!sel.agents.enabled());
    assert!(sel.commands.enabled());
    assert!(!sel.uses_tui());
}

#[test]
fn kind_subcommand_without_names_prompts_for_that_kind() {
    let sel = InstallSelection::from_args(&args(&[], &[], &[], Some(InstallTarget::Agents(NameList { names: vec![] }))))
        .unwrap();
    assert!(matches!(sel.skills, RequestedArtifacts::Skip));
    assert!(sel.agents.is_prompt());
    assert!(matches!(sel.commands, RequestedArtifacts::Skip));
    assert!(!sel.uses_tui());
}

#[test]
fn kind_subcommand_with_flags_is_refused() {
    let e = InstallSelection::from_args(&args(
        &["x"],
        &[],
        &[],
        Some(InstallTarget::Skills(NameList { names: names(&["y"]) })),
    ))
    .unwrap_err();
    assert_eq!(e.message(), "cannot combine --skills/--agents/--commands with install kind subcommands");
}

#[test]
fn dedupe_keeps_first_occurrences() {
    assert_eq!(dedupe(&names(&["b", "a", "b", "c", "a"])), names(&["b", "a", "c"]));
    assert!(dedupe(&vec![]).is_empty());
}

#[test]
fn select_named_follows_the_given_order() {
    let found = vec![skill("a", "g/a"), skill("b", "b"), skill("c", "c")];
    let picked = select_named(&names(&["c", "a", "c"]), found, &vec![], ArtifactKind::Skill).unwrap();
    let got: Vec<&str> = picked.iter().map(|s| s.name.as_str()).collect();
    assert_eq!(got, vec!["c", "a"]);
    assert_eq!(picked[1].source_rel_path, "g/a");
}

#[test]
fn select_named_reports_unknown_and_ambiguous_names() {
    let e = select_named(&names(&["a", "zzz"]), vec![skill("a", "a")], &vec![], ArtifactKind::Agent).unwrap_err();
    assert!(matches!(&e, SelectError::Unknown { kind: ArtifactKind::Agent, name } if name == "zzz"));
    assert_eq!(e.message(), "unknown agent 'zzz'");
    let e = select_named(&names(&["dup", "a"]), vec![skill("a", "a")], &names(&["dup"]), ArtifactKind::Skill)
        .unwrap_err();
    assert_eq!(
        e.message(),
        "ambiguous skill 'dup': multiple artifacts share this name; rename or regroup the colliding source artifacts"
    );
}

#[test]
fn install_plan_respects_local_changes() {
    let entries = vec![installed("a", "sha256:aaa")];
    assert!(matches!(plan_install(&entries, "a", false, false, ArtifactKind::Skill), InstallPlan::Proceed));
    assert!(matches!(plan_install(&entries, "a", true, true, ArtifactKind::Skill), InstallPlan::Proceed));
    match plan_install(&entries, "a", true, false, ArtifactKind::Skill) {
        InstallPlan::CompareInstalledHash(h) => assert_eq!(h, "sha256:aaa"),
        other => panic!("unexpected {other:?}"),
    }
    match plan_install(&entries, "b", true, false, ArtifactKind::Agent) {
        InstallPlan::Skip(r) => {
            assert_eq!(r, SkipReason::Untracked(ArtifactKind::Agent));
            assert_eq!(r.message(), "an untracked local agent already exists at the install path");
        },
        other => panic!("unexpected {other:?}"),
    }
    assert_eq!(check_installed_hash("sha256:aaa", "sha256:aaa"), None);
    let r = check_installed_hash("sha256:aaa", "sha256:bbb").unwrap();
    assert_eq!(r.message(), "local installed copy differs from the last recorded manifest hash");
}

#[test]
fn install_paths_per_kind() {
    assert_eq!(installed_rel_path(ArtifactKind::Skill, "code-review"), "skills/code-review");
    assert_eq!(installed_rel_path(ArtifactKind::Agent, "review"), "agents/review.md");
    assert_eq!(installed_rel_path(ArtifactKind::Command, "test"), "commands/test.md");
    let p = ProjectPaths::new("/proj".to_string());
    assert_eq!(p.opencode_dir, "/proj/.opencode");
    assert_eq!(p.skills_dir, "/proj/.opencode/skills");
    assert_eq!(p.tmp_dir, "/proj/.opencode/.tmp");
    assert_eq!(p.catalog_path, "/proj/.opencode/catalog.toml");
    assert_eq!(p.installed_path("agents/review.md"), "/proj/.opencode/agents/review.md");
}

#[test]
fn upsert_sorts_new_entries_and_replaces_known_ones() {
    let mut list = vec![installed("m", "1"), installed("c", "2")];
    upsert(&mut list, installed("a", "3"));
    assert_eq!(entry_names(&list), vec!["a", "c", "m"]);
    upsert(&mut list, installed("c", "9"));
    assert_eq!(entry_names(&list), vec!["a", "c", "m"]);
    assert_eq!(list[1].installed_hash, "9");
    assert_eq!(find_named(&list, "c"), Some(1));
    assert_eq!(find_named(&list, "zz"), None);
}

#[test]
fn recorded_entry_is_found_again() {
    let mut manifest = load_or_default(None);
    let s = skill("code-review", "review/code-review");
    let e = skill_entry(&s, installed_rel_path(ArtifactKind::Skill, &s.name), "sha256:s".into(), "sha256:i".into());
    upsert_skill(&mut manifest, e);
    let i = find_named(&manifest.skills, "code-review").unwrap();
    assert_eq!(manifest.skills[i].source_rel_path, "review/code-review");
    assert_eq!(manifest.skills[i].installed_rel_path, "skills/code-review");
    assert_eq!(manifest.skills[i].installed_hash, "sha256:i");

    let a = DiscoveredAgent {
        name: "review".into(),
        description: "Reviews".into(),
        mode: Some(AgentMode::Primary),
        source_path: "/lib/review.md".into(),
        source_rel_path: "review.md".into(),
    };
    upsert_agent(&mut manifest, agent_entry(&a, "agents/review.md".into(), "h1".into(), "h2".into()));
    assert_eq!(manifest.agents[0].mode, Some(AgentMode::Primary));
    let c = DiscoveredCommand {
        name: "ship".into(),
        description: Some("Ship".into()),
        source_path: "/lib/ship.md".into(),
        source_rel_path: "ship.md".into(),
    };
    upsert_command(&mut manifest, command_entry(&c, "commands/ship.md".into(), "h1".into(), "h2".into()));
    assert_eq!(manifest.commands[0].description, Some("Ship".to_string()));
    assert_eq!(manifest.skills.len(), 1);
}

#[test]
fn remove_forgets_an_entry() {
    let mut list = vec![installed("a", "1"), installed("b", "2")];
    let e = remove_named(&mut list, "a").unwrap();
    assert_eq!(e.name, "a");
    assert_eq!(entry_names(&list), vec!["b"]);
    assert!(remove_named(&mut list, "a").is_none());
}

#[test]
fn remove_from_catalog_by_kind() {
    let mut manifest = CatalogManifest::empty();
    manifest.skills.push(installed("a", "1"));
    let removed = remove_from_catalog(&mut manifest, &RemoveTarget::Skills(SingleName { name: "a".into() })).unwrap();
    assert_eq!(removed.installed_rel_path, "skills/a");
    assert_eq!(removed_line(&removed), "Removed skill a");
    assert!(manifest.skills.is_empty());
    let err = remove_from_catalog(&mut manifest, &RemoveTarget::Agents(SingleName { name: "x".into() })).unwrap_err();
    assert_eq!(err.message(), "installed agent 'x' not found in catalog");
    let err = remove_from_catalog(&mut manifest, &RemoveTarget::Commands(SingleName { name: "y".into() })).unwrap_err();
    assert_eq!(err.message(), "installed command 'y' not found in catalog");
    assert_eq!(
        no_catalog_message("/p/.opencode/catalog.toml"),
        "no catalog found at /p/.opencode/catalog.toml; run hermes init or hermes install first"
    );
}

#[test]
fn empty_catalog_defaults() {
    let m = load_or_default(None);
    assert_eq!(m.version, 1);
    assert!(m.skills.is_empty() && m.agents.is_empty() && m.commands.is_empty());
    let mut existing = CatalogManifest::empty();
    existing.version = 3;
    assert_eq!(load_or_default(Some(existing)).version, 3);
    let d = CatalogManifest::default();
    assert_eq!(d.version, 1);
}

#[test]
fn summary_lines() {
    let p = ProjectPaths::new("/p".to_string());
    let lines = install_summary(
        &p,
        &names(&["code-review"]),
        &names(&["a", "b"]),
        &vec![],
        &names(&["Skipped x\nKind: skill\nReason: r"]),
        &names(&["No artifacts selected for installation"]),
    );
    assert_eq!(
        lines,
        names(&[
            "Installed 1 skill into /p/.opencode/skills",
            "- code-review",
            "",
            "Installed 2 agents into /p/.opencode/agents",
            "- a",
            "- b",
            "",
            "No artifacts selected for installation",
            "Skipped x\nKind: skill\nReason: r",
            "Hint: rerun with --force if you want to overwrite local changes",
            "",
            "Manifest updated: /p/.opencode/catalog.toml",
        ])
    );
    assert_eq!(warning_line("bad"), "Warning: bad");
}
