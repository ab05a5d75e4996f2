use hermes::catalog::CatalogEntry;
use hermes::cli::{ConfigureArgs, ListTarget, SyncArgs};
use hermes::configure::{
    apply_source_roots, check_configure_args, check_init_roots, config_saved_line, init_lines, root_configured_line,
};
use hermes::discovery::{ArtifactKind, EntryKind};
use hermes::doctor::{
    doctor_issues, doctor_verdict, issue_line, InstalledCheck, KindCheck, RootCheck, WorkspaceEntry,
};
use hermes::fs_ops::{is_ignored_relative, join_path, normalize_relative_path, temp_name};
use hermes::staging::{swap_failure_message, swap_step, SwapAction, SwapEvent, SwapFailure, SwapState};
use hermes::hashing::{digest_text, hash_file_bytes, hash_skill_files, is_excluded, skill_hash_input, SkillFile};
use hermes::listing::{
    available_listing, heading, installed_listing, mode_suffix_string, no_catalog_line, no_root_message, prompt_label,
    section,
};
use hermes::manifest::{resolve_source_roots, user_config_dir, user_config_path};
use hermes::models::{
    AgentMode, CatalogManifest, DiscoveredCommand, InstalledAgent, InstalledSkill, ProjectPaths, SourceOverrides,
    SourceRoots, UserConfig,
};
use hermes::sync::{
    check_sync_installed, check_sync_paths, manifest_updated_line, missing_root, notice, sync_kind, sync_needed,
    synced_line, SyncSkip,
};
use hermes::text::decimal_string;

fn some(s: &str) -> Option<String> {
    Some(s.to_string())
}

fn strings(v: &[&str]) -> Vec<String> {
    v.iter().map(|s| s.to_string()).collect()
}

fn skill_entry(name: &str) -> InstalledSkill {
    InstalledSkill {
        name: name.to_string(),
        description: format!("{name} does things"),
        source_rel_path: format!("group/{name}"),
        installed_rel_path: format!("skills/{name}"),
        source_hash: "sha256:s".to_string(),
        installed_hash: "sha256:i".to_string(),
    }
}

#[test]
fn decimal_numbers() {
    assert_eq!(decimal_string(0), "0");
    assert_eq!(decimal_string(7), "7");
    assert_eq!(decimal_string(10), "10");
    assert_eq!(decimal_string(1234567890), "1234567890");
}

#[test]
fn file_hash_of_known_bytes() {
    assert_eq!(hash_file_bytes(b""), "sha256:e3b0c44298fc1c149afbf4c8996fb92427ae41e4649b934ca495991b7852b855");
    let h = hash_file_bytes(b"abc");
    assert_eq!(h, "sha256:ba7816bf8f01cfea414140de5dae2223b00361a396177a9cb410ff61f20015ad");
    assert_eq!(h.len(), 71);
}

#[test]
fn skill_hash_orders_files_and_skips_ignored_ones() {
    let files = vec![
        SkillFile { rel_path: "docs/a.txt".to_string(), contents: b"A".to_vec() },
        SkillFile { rel_path: "SKILL.md".to_string(), contents: b"hi".to_vec() },
        SkillFile { rel_path: ".DS_Store".to_string(), contents: b"junk".to_vec() },
        SkillFile { rel_path: "__pycache__/x.pyc".to_string(), contents: b"junk".to_vec() },
        SkillFile { rel_path: "lib.pyc/inner.txt".to_string(), contents: b"junk".to_vec() },
    ];
    assert_eq!(
        hash_skill_files(files),
        "sha256:b98d9b133e1cad7286720d35cdaa441f6dbe75f85bb0283fd7fe7932f8613747"
    );
    let one = vec![SkillFile { rel_path: "./SKILL.md".to_string(), contents: b"hi".to_vec() }];
    assert_eq!(hash_skill_files(one), "sha256:0d22ddd14880f46f46bfb6319429e1c49918d2062f5cc5a5a314caec4d1ee719");
}

#[test]
fn skill_hash_same_files_in_any_order_hash_alike() {
    let first = vec![
        SkillFile { rel_path: "SKILL.md".to_string(), contents: b"hi".to_vec() },
        SkillFile { rel_path: "docs/a.txt".to_string(), contents: b"A".to_vec() },
        SkillFile { rel_path: "node_modules/m/index.js".to_string(), contents: b"junk".to_vec() },
    ];
    let second = vec![
        SkillFile { rel_path: "docs//a.txt".to_string(), contents: b"A".to_vec() },
        SkillFile { rel_path: ".git/HEAD".to_string(), contents: b"ref".to_vec() },
        SkillFile { rel_path: "./SKILL.md".to_string(), contents: b"hi".to_vec() },
    ];
    let a = hash_skill_files(first);
    let b = hash_skill_files(second);
    assert_eq!(a, b);
    assert_eq!(a.len(), 71);
    assert!(a.starts_with("sha256:"));
    assert!(a[7..].chars().all(|c| c.is_ascii_digit() || ('a'..='f').contains(&c)));
    let changed = vec![
        SkillFile { rel_path: "SKILL.md".to_string(), contents: b"hi!".to_vec() },
        SkillFile { rel_path: "docs/a.txt".to_string(), contents: b"A".to_vec() },
    ];
    assert_ne!(hash_skill_files(changed), a);
}

#[test]
fn ignored_and_excluded_paths() {
    assert!(is_ignored_relative(".DS_Store"));
    assert!(is_ignored_relative("a/b/.DS_Store"));
    assert!(is_ignored_relative("mod.pyc"));
    assert!(is_ignored_relative("x/mod.pyo"));
    assert!(is_ignored_relative("mod.pyd"));
    assert!(is_ignored_relative("node_modules/left-pad/index.js"));
    assert!(is_ignored_relative(".git"));
    assert!(is_ignored_relative("src/__pycache__"));
    assert!(!is_ignored_relative(""));
    assert!(!is_ignored_relative("SKILL.md"));
    assert!(!is_ignored_relative("lib.pyc/inner.txt"));
    assert!(is_excluded("lib.pyc/inner.txt"));
    assert!(is_excluded(".git/config"));
    assert!(!is_excluded("docs/readme.md"));
}

#[test]
fn relative_paths_normalize() {
    assert_eq!(normalize_relative_path("a/./b//c/"), "a/b/c");
    assert_eq!(normalize_relative_path("../x/y"), "x/y");
    assert_eq!(normalize_relative_path(""), "");
    assert_eq!(normalize_relative_path(&normalize_relative_path("./a//b")), "a/b");
    assert_eq!(join_path("/p", "q"), "/p/q");
    assert_eq!(join_path("/p/", "q"), "/p/q");
    assert_eq!(join_path("", "q"), "q");
    assert_eq!(join_path("/p", "/abs"), "/abs");
}

#[test]
fn source_roots_follow_precedence() {
    let overrides = SourceOverrides { skills: some("/flag/skills"), agents: None, commands: None };
    let config = UserConfig { skills_source_root: some("/cfg/skills"), agents_source_root: some("/cfg/agents"), commands_source_root: None };
    let env = SourceOverrides { skills: some("/env/skills"), agents: some("/env/agents"), commands: some("/env/commands") };
    let roots = resolve_source_roots(&overrides, &config, &env);
    assert_eq!(roots.skills, some("/flag/skills"));
    assert_eq!(roots.agents, some("/cfg/agents"));
    assert_eq!(roots.commands, some("/env/commands"));
    let none = resolve_source_roots(
        &SourceOverrides { skills: None, agents: None, commands: None },
        &UserConfig::default(),
        &SourceOverrides { skills: None, agents: None, commands: None },
    );
    assert!(none.is_empty());
    assert_eq!(check_init_roots(&none).unwrap_err(), "hermes init requires at least one source root; pass --skills-source, --agents-source, or --commands-source, or configure defaults with hermes configure");
    assert!(check_init_roots(&roots).is_ok());
}

#[test]
fn user_config_location() {
    assert_eq!(user_config_dir("/home/me"), "/home/me/.config/hermes_cli");
    assert_eq!(user_config_path("/home/me"), "/home/me/.config/hermes_cli/config.toml");
}

#[test]
fn configure_needs_a_root_and_keeps_others() {
    let e = check_configure_args(&ConfigureArgs { skills_source: None, agents_source: None, commands_source: None })
        .unwrap_err();
    assert_eq!(
        e.message(),
        "hermes configure requires at least one source root; pass --skills-source, --agents-source, or --commands-source"
    );
    assert!(check_configure_args(&ConfigureArgs { skills_source: None, agents_source: None, commands_source: some("/c") }).is_ok());
    let mut config = UserConfig { skills_source_root: some("/old/skills"), agents_source_root: some("/old/agents"), commands_source_root: None };
    apply_source_roots(&mut config, None, some("/new/agents"), some("/new/commands"));
    assert_eq!(config.skills_source_root, some("/old/skills"));
    assert_eq!(config.agents_source_root, some("/new/agents"));
    assert_eq!(config.commands_source_root, some("/new/commands"));
    assert_eq!(root_configured_line(ArtifactKind::Command, "/c"), "Commands source root configured: /c");
}

#[test]
fn agent_modes_parse_and_print() {
    for m in [AgentMode::Primary, AgentMode::Subagent, AgentMode::All] {
        assert_eq!(AgentMode::parse(m.as_str()).unwrap(), m);
    }
    let e = AgentMode::parse("Primary").unwrap_err();
    assert_eq!(e.message(), "unsupported agent mode 'Primary'");
    let roots = SourceRoots { skills: None, agents: None, commands: some("/c") };
    assert!(!roots.is_empty());
}

#[test]
fn sync_visits_flagged_kinds_or_all() {
    let all = SyncArgs { all: false, skills: false, agents: false, commands: false, force: false };
    assert!(sync_kind(&all, ArtifactKind::Skill) && sync_kind(&all, ArtifactKind::Agent) && sync_kind(&all, ArtifactKind::Command));
    let agents = SyncArgs { all: false, skills: false, agents: true, commands: false, force: false };
    assert!(!sync_kind(&agents, ArtifactKind::Skill));
    assert!(sync_kind(&agents, ArtifactKind::Agent));
    assert_eq!(
        missing_root(&agents, ArtifactKind::Agent),
        Err("no agents source root configured; pass --agents-source or run hermes configure".to_string())
    );
    assert_eq!(missing_root(&all, ArtifactKind::Skill), Ok("Skipping skills: no skills source root configured".to_string()));
}

#[test]
fn sync_decisions() {
    assert_eq!(check_sync_paths(false, false), Some(SyncSkip::SourceMissing));
    assert_eq!(check_sync_paths(true, false), Some(SyncSkip::InstalledMissing));
    assert_eq!(check_sync_paths(true, true), None);
    let entry = skill_entry("a");
    assert_eq!(check_sync_installed(&entry, "sha256:i", false), None);
    assert_eq!(check_sync_installed(&entry, "sha256:changed", false), Some(SyncSkip::LocallyModified));
    assert_eq!(check_sync_installed(&entry, "sha256:changed", true), None);
    assert!(!sync_needed(&entry, "sha256:s", "sha256:i"));
    assert!(sync_needed(&entry, "sha256:new", "sha256:i"));
    assert!(sync_needed(&entry, "sha256:s", "sha256:other"));
    let mut e = skill_entry("a");
    e.set_hashes("sha256:n1".to_string(), "sha256:n2".to_string());
    assert_eq!(e.source_hash, "sha256:n1");
    assert_eq!(e.installed_hash, "sha256:n2");
    assert_eq!(e.name, "a");
    assert_eq!(SyncSkip::SourceMissing.message(ArtifactKind::Agent), "source agent no longer exists");
    assert_eq!(SyncSkip::InstalledMissing.message(ArtifactKind::Skill), "installed skill path is missing");
    assert_eq!(
        notice("Skipping", "a", ArtifactKind::Command, "why"),
        "Skipping a\nKind: command\nReason: why"
    );
    assert_eq!(synced_line(ArtifactKind::Skill, "a"), "Synced skill a");
    assert_eq!(manifest_updated_line("/c.toml"), "Manifest updated: /c.toml");
}

fn kind(root: Option<RootCheck>, installed: Vec<InstalledCheck>, listing: Option<Vec<WorkspaceEntry>>) -> KindCheck {
    KindCheck { root, installed, listing }
}

#[test]
fn doctor_reports_in_order() {
    let skills = kind(
        Some(RootCheck { path: "/lib/skills".into(), exists: true, issues: strings(&["invalid skill 'x': bad"]) }),
        vec![
            InstalledCheck { name: "a".into(), path: "/p/skills/a".into(), exists: false, problem: None },
            InstalledCheck { name: "b".into(), path: "/p/skills/b".into(), exists: true, problem: some("broken") },
            InstalledCheck { name: "c".into(), path: "/p/skills/c".into(), exists: true, problem: None },
        ],
        Some(vec![
            WorkspaceEntry { kind: EntryKind::Dir, file_name: "c".into(), path: "/p/skills/c".into() },
            WorkspaceEntry { kind: EntryKind::Dir, file_name: "stray".into(), path: "/p/skills/stray".into() },
            WorkspaceEntry { kind: EntryKind::File, file_name: "notes.txt".into(), path: "/p/skills/notes.txt".into() },
        ]),
    );
    let agents = kind(
        Some(RootCheck { path: "/lib/agents".into(), exists: false, issues: vec![] }),
        vec![],
        Some(vec![
            WorkspaceEntry { kind: EntryKind::File, file_name: "loose.md".into(), path: "/p/agents/loose.md".into() },
            WorkspaceEntry { kind: EntryKind::File, file_name: "readme.txt".into(), path: "/p/agents/readme.txt".into() },
        ]),
    );
    let commands = kind(None, vec![], None);
    let issues = doctor_issues(&skills, &agents, &commands, true, "/p/catalog.toml");
    assert_eq!(
        issues,
        strings(&[
            "invalid skill 'x': bad",
            "configured agents source root does not exist: /lib/agents",
            "installed skill path is missing: /p/skills/a",
            "installed skill 'b' is invalid: broken",
            "untracked installed skill directory: /p/skills/stray",
            "untracked installed agent file: /p/agents/loose.md",
        ])
    );
    assert_eq!(doctor_verdict(&issues), Err("doctor found 6 issue(s)".to_string()));
    assert_eq!(issue_line("x"), "- x");
}

#[test]
fn doctor_without_roots_or_catalog() {
    let none = || kind(None, vec![], None);
    let issues = doctor_issues(&none(), &none(), &none(), false, "/p/catalog.toml");
    assert_eq!(issues, strings(&["no source roots are configured", "catalog file is missing: /p/catalog.toml"]));
    let clean = doctor_issues(
        &kind(Some(RootCheck { path: "/s".into(), exists: true, issues: vec![] }), vec![], None),
        &none(),
        &none(),
        true,
        "/p/catalog.toml",
    );
    assert!(clean.is_empty());
    assert_eq!(doctor_verdict(&clean), Ok("Doctor found no issues.".to_string()));
}

#[test]
fn listing_lines() {
    let mut manifest = CatalogManifest::empty();
    manifest.skills.push(skill_entry("code-review"));
    manifest.agents.push(InstalledAgent {
        name: "review".into(),
        description: "Reviews".into(),
        mode: Some(AgentMode::Subagent),
        source_rel_path: "review.md".into(),
        installed_rel_path: "agents/review.md".into(),
        source_hash: "h".into(),
        installed_hash: "h".into(),
    });
    assert_eq!(
        installed_listing(&manifest, ListTarget::All),
        strings(&[
            "Installed skills:",
            "- code-review: code-review does things",
            "",
            "Installed agents:",
            "- review: Reviews (subagent)",
            "",
            "Installed commands:",
            "(none)",
        ])
    );
    assert_eq!(installed_listing(&manifest, ListTarget::Commands), strings(&["Installed commands:", "(none)"]));
    let commands = vec![DiscoveredCommand {
        name: "ship".into(),
        description: None,
        source_path: "/lib/ship.md".into(),
        source_rel_path: "ship.md".into(),
    }];
    assert_eq!(
        available_listing("Available commands:", &commands, &strings(&["invalid command 'x.md': bad"])),
        strings(&["Available commands:", "- ship: ", "", "Discovery warnings:", "- invalid command 'x.md': bad"])
    );
    assert_eq!(section::<InstalledSkill>("Installed skills:", &vec![]), strings(&["Installed skills:", "(none)"]));
    assert_eq!(heading(ArtifactKind::Agent, false), "Available agents:");
    assert_eq!(no_catalog_line("/p/c.toml"), "No catalog found at /p/c.toml");
    assert_eq!(no_root_message(ArtifactKind::Skill), "no skills source root configured");
}

#[test]
fn replacement_steps() {
    // Fresh install: the staged copy goes straight into place.
    let (s, a) = swap_step(SwapState::Start, SwapEvent::Begin { destination_exists: false });
    assert_eq!(a, SwapAction::PlaceStaged);
    assert_eq!(swap_step(s, SwapEvent::Done), (SwapState::Finished, SwapAction::Stop));
    // Replacement: move aside, place, remove the old copy.
    let (s, a) = swap_step(SwapState::Start, SwapEvent::Begin { destination_exists: true });
    assert_eq!(a, SwapAction::MoveAside);
    let (s, a) = swap_step(s, SwapEvent::Done);
    assert_eq!(a, SwapAction::PlaceStaged);
    let (s2, a2) = swap_step(s, SwapEvent::Done);
    assert_eq!(a2, SwapAction::RemoveBackup);
    assert_eq!(swap_step(s2, SwapEvent::Done), (SwapState::Finished, SwapAction::Stop));
    // A failed placement puts the old copy back, then reports the failure.
    let (s3, a3) = swap_step(s, SwapEvent::Error { backup_exists: true });
    assert_eq!(a3, SwapAction::RestoreBackup);
    assert_eq!(
        swap_step(s3, SwapEvent::Error { backup_exists: true }),
        (SwapState::Failed(SwapFailure::Place), SwapAction::Stop)
    );
    assert_eq!(
        swap_step(SwapState::MovingAside, SwapEvent::Error { backup_exists: false }),
        (SwapState::Failed(SwapFailure::MoveAside), SwapAction::Stop)
    );
    assert_eq!(
        swap_failure_message(SwapFailure::Place, true, "/t/skill-1", "/p/skills/a", "/t/b"),
        "failed to move staged directory /t/skill-1 to /p/skills/a"
    );
    assert_eq!(
        swap_failure_message(SwapFailure::MoveAside, false, "/t/s.md", "/p/agents/a.md", "/t/b.md"),
        "failed to move existing file /p/agents/a.md to /t/b.md"
    );
}

#[test]
fn staging_names() {
    assert_eq!(temp_name("skill", 42, 1700000000123456789, 3, None), "skill-42-1700000000123456789-3");
    assert_eq!(temp_name("agent-backup", 7, 0, 0, Some("md")), "agent-backup-7-0-0.md");
}

#[test]
fn digest_and_hash_input_forms() {
    assert_eq!(digest_text(&vec![0x00, 0x0f, 0xa0, 0xff]), "sha256:000fa0ff");
    assert_eq!(digest_text(&vec![]), "sha256:");
    let files = vec![
        SkillFile { rel_path: "b.txt".to_string(), contents: b"B".to_vec() },
        SkillFile { rel_path: "node_modules/x.js".to_string(), contents: b"X".to_vec() },
        SkillFile { rel_path: "./a/./c.md".to_string(), contents: b"C".to_vec() },
    ];
    assert_eq!(skill_hash_input(files), b"a/c.md\0C\0b.txt\0B\0".to_vec());
}

#[test]
fn prompt_labels_pad_names() {
    assert_eq!(prompt_label("review", "Reviews code"), format!("{:<24} {}", "review", "Reviews code"));
    assert_eq!(prompt_label("review", "Reviews code"), "review                   Reviews code");
    let long = "a-name-longer-than-twenty-four";
    assert_eq!(prompt_label(long, "x"), format!("{long} x"));
    assert_eq!(prompt_label("é", ""), format!("{:<24} ", "é"));
    assert_eq!(mode_suffix_string(Some(AgentMode::All)), " (all)");
    assert_eq!(mode_suffix_string(None), "");
}

#[test]
fn skill_hash_ignores_listing_order() {
    let make = |order: &[usize]| {
        let all = [("SKILL.md", "hi"), ("docs/a.txt", "A"), ("b/c.md", "C")];
        order
            .iter()
            .map(|&k| SkillFile { rel_path: all[k].0.to_string(), contents: all[k].1.as_bytes().to_vec() })
            .collect::<Vec<_>>()
    };
    let first = hash_skill_files(make(&[0, 1, 2]));
    assert_eq!(first, hash_skill_files(make(&[2, 0, 1])));
    assert_eq!(first, hash_skill_files(make(&[1, 2, 0])));
}

#[test]
fn init_and_configure_lines() {
    let p = ProjectPaths::new("/proj".to_string());
    assert_eq!(
        init_lines(&p),
        strings(&["Initialized Hermes workspace at /proj/.opencode", "Catalog updated: /proj/.opencode/catalog.toml"])
    );
    assert_eq!(config_saved_line(), "Configuration saved to ~/.config/hermes_cli/config.toml");
}

#[test]
fn backup_removal_failure() {
    assert_eq!(
        swap_step(SwapState::RemovingBackup, SwapEvent::Error { backup_exists: true }),
        (SwapState::Failed(SwapFailure::RemoveBackup), SwapAction::Stop)
    );
    assert_eq!(
        swap_failure_message(SwapFailure::RemoveBackup, true, "/t/s", "/p/skills/a", "/t/b"),
        "failed to remove directory /t/b"
    );
    // An event that does not belong to the state stops where it is.
    assert_eq!(swap_step(SwapState::Finished, SwapEvent::Done), (SwapState::Finished, SwapAction::Stop));
}

#[test]
fn empty_inspection() {
    let i: hermes::models::Inspection<DiscoveredCommand> = Default::default();
    assert!(i.items.is_empty() && i.issues.is_empty() && i.duplicate_names.is_empty());
    let j = hermes::models::Inspection::<DiscoveredCommand>::new();
    assert!(j.items.is_empty());
}
