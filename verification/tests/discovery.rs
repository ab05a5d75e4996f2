use hermes::agents::{inspect_agents, parse_agent_markdown, validate_installed_agent, AgentError, AgentFileScan};
use hermes::commands::{
    inspect_commands, parse_command_markdown, validate_installed_command, CommandError, CommandFileScan,
};
use hermes::discovery::{file_stem, markdown_entry_action, EntryKind, Problem, Scanned, WalkAction};
use hermes::frontmatter::{
    command_parts, split_frontmatter, AgentFrontmatterError, FrontmatterError, PromptField,
    RawAgentFrontmatter, RawSkillFrontmatter, SkillFrontmatterError, SourceFileError,
};
use hermes::models::{AgentMode, DiscoveredAgent, DiscoveredCommand, DiscoveredSkill};
use hermes::skills::{
    inspect_skills, parse_skill_dir, skill_entry_action, validate_installed_skill, SkillDirScan, SkillError,
};

const ROOT: &str = "/lib";

fn last_component(rel: &str) -> String {
    rel.rsplit('/').next().unwrap().to_string()
}

fn skill_scan(rel_path: &str, name: &str, description: &str) -> Scanned<DiscoveredSkill, SkillError> {
    let dir = last_component(rel_path);
    let scan = SkillDirScan {
        path: format!("{ROOT}/{rel_path}"),
        dir_name: Some(dir.clone()),
        rel_path: Some(rel_path.to_string()),
        frontmatter: Some(Ok(RawSkillFrontmatter { name: name.to_string(), description: description.to_string() })),
    };
    Scanned { entry_name: dir, outcome: parse_skill_dir(scan) }
}

fn agent_file(description: &str, name: &str) -> String {
    format!("---\ndescription: {description}\n---\n# {name}\n")
}

fn agent_scan(rel_path: &str, name: &str, description: &str) -> Scanned<DiscoveredAgent, AgentError> {
    let file = last_component(rel_path);
    let content = agent_file(description, name);
    let (yaml, body) = split_frontmatter(&content).unwrap();
    assert_eq!(yaml, format!("description: {description}"));
    let raw = RawAgentFrontmatter { description: Some(description.to_string()), mode: None, prompt: PromptField::Absent };
    let scan = AgentFileScan {
        path: format!("{ROOT}/{rel_path}"),
        file_name: Some(file.clone()),
        rel_path: Some(rel_path.to_string()),
        frontmatter: Ok((raw, body)),
    };
    Scanned { entry_name: file, outcome: parse_agent_markdown(scan) }
}

fn command_scan(rel_path: &str, body: &str) -> Scanned<DiscoveredCommand, CommandError> {
    let file = last_component(rel_path);
    let content = format!("---\n---\n{}", body);
    let parts = command_parts(&content).unwrap();
    assert!(parts.yaml.is_none());
    let scan = CommandFileScan {
        path: format!("{ROOT}/{rel_path}"),
        file_name: Some(file.clone()),
        rel_path: Some(rel_path.to_string()),
        frontmatter: Ok((None, parts.body)),
    };
    Scanned { entry_name: file, outcome: parse_command_markdown(scan) }
}

#[test]
fn discovers_flat_skills() {
    let inspection = inspect_skills(vec![
        skill_scan("code-review", "code-review", "Review code"),
        skill_scan("test", "test", "Run tests"),
    ]);
    assert_eq!(inspection.items.len(), 2);
    assert!(inspection.issues.is_empty());
    assert!(inspection.duplicate_names.is_empty());

    let names: Vec<_> = inspection.items.iter().map(|s| s.name.as_str()).collect();
    assert!(names.contains(&"code-review"));
    assert!(names.contains(&"test"));
}

#[test]
fn discovers_grouped_skills() {
    let inspection = inspect_skills(vec![
        skill_scan("review/code-review", "code-review", "Review code"),
        skill_scan("review/security-review", "security-review", "Security review"),
        skill_scan("testing/python-testing", "python-testing", "Python tests"),
    ]);
    assert_eq!(inspection.items.len(), 3);
    assert!(inspection.issues.is_empty());

    let names: Vec<_> = inspection.items.iter().map(|s| s.name.as_str()).collect();
    assert!(names.contains(&"code-review"));
    assert!(names.contains(&"security-review"));
    assert!(names.contains(&"python-testing"));

    let paths: Vec<_> = inspection.items.iter().map(|s| s.source_rel_path.clone()).collect();
    assert!(paths.contains(&"review/code-review".to_string()));
    assert!(paths.contains(&"testing/python-testing".to_string()));
}

#[test]
fn ignores_grouping_folders() {
    // The walk descends into a directory without SKILL.md instead of reading it.
    assert_eq!(skill_entry_action(EntryKind::Dir, false), WalkAction::Descend);
    assert_eq!(skill_entry_action(EntryKind::Dir, true), WalkAction::Parse);
    assert_eq!(skill_entry_action(EntryKind::File, true), WalkAction::Skip);
    let inspection = inspect_skills(vec![skill_scan("review/code-review", "code-review", "Review code")]);
    assert_eq!(inspection.items.len(), 1);
    assert!(inspection.issues.is_empty());
}

#[test]
fn detects_duplicate_skill_names() {
    let inspection = inspect_skills(vec![
        skill_scan("group-a/code-review", "code-review", "Review A"),
        skill_scan("group-b/code-review", "code-review", "Review B"),
    ]);
    assert!(inspection.items.is_empty());
    assert_eq!(inspection.duplicate_names.len(), 1);
    assert!(inspection.duplicate_names.contains(&"code-review".to_string()));
    assert!(inspection.issues.iter().any(|i| i.contains("duplicate skill name 'code-review'")));
    assert_eq!(
        inspection.issues,
        vec!["duplicate skill name 'code-review' found at: group-a/code-review, group-b/code-review".to_string()]
    );
}

#[test]
fn discovers_flat_agents() {
    let inspection = inspect_agents(vec![
        agent_scan("review.md", "review", "Review agent"),
        agent_scan("test.md", "test", "Test agent"),
    ]);
    assert_eq!(inspection.items.len(), 2);
    assert!(inspection.issues.is_empty());
    assert!(inspection.duplicate_names.is_empty());

    let names: Vec<_> = inspection.items.iter().map(|a| a.name.as_str()).collect();
    assert!(names.contains(&"review"));
    assert!(names.contains(&"test"));
}

#[test]
fn discovers_grouped_agents() {
    let inspection = inspect_agents(vec![
        agent_scan("review/review.md", "review", "Review agent"),
        agent_scan("quality/security.md", "security", "Security agent"),
    ]);
    assert_eq!(inspection.items.len(), 2);
    assert!(inspection.issues.is_empty());

    let paths: Vec<_> = inspection.items.iter().map(|a| a.source_rel_path.clone()).collect();
    assert!(paths.contains(&"review/review.md".to_string()));
    assert!(paths.contains(&"quality/security.md".to_string()));
}

#[test]
fn detects_duplicate_agent_names() {
    let inspection = inspect_agents(vec![
        agent_scan("group-a/review.md", "review", "Review A"),
        agent_scan("group-b/review.md", "review", "Review B"),
    ]);
    assert!(inspection.items.is_empty());
    assert_eq!(inspection.duplicate_names.len(), 1);
    assert!(inspection.duplicate_names.contains(&"review".to_string()));
    assert!(inspection.issues.iter().any(|i| i.contains("duplicate agent name 'review'")));
}

#[test]
fn discovers_flat_commands() {
    let inspection = inspect_commands(vec![
        command_scan("test.md", "# Test command\n"),
        command_scan("review.md", "# Review command\n"),
    ]);
    assert_eq!(inspection.items.len(), 2);
    assert!(inspection.issues.is_empty());
    assert!(inspection.duplicate_names.is_empty());

    let names: Vec<_> = inspection.items.iter().map(|c| c.name.as_str()).collect();
    assert!(names.contains(&"test"));
    assert!(names.contains(&"review"));
}

#[test]
fn discovers_grouped_commands() {
    let inspection = inspect_commands(vec![
        command_scan("git/review-changes.md", "# Git review\n"),
        command_scan("project/test.md", "# Project test\n"),
    ]);
    assert_eq!(inspection.items.len(), 2);
    assert!(inspection.issues.is_empty());

    let paths: Vec<_> = inspection.items.iter().map(|c| c.source_rel_path.clone()).collect();
    assert!(paths.contains(&"git/review-changes.md".to_string()));
    assert!(paths.contains(&"project/test.md".to_string()));
}

#[test]
fn detects_duplicate_command_names() {
    let inspection = inspect_commands(vec![
        command_scan("group-a/test.md", "# Test A\n"),
        command_scan("group-b/test.md", "# Test B\n"),
    ]);
    assert!(inspection.items.is_empty());
    assert_eq!(inspection.duplicate_names.len(), 1);
    assert!(inspection.duplicate_names.contains(&"test".to_string()));
    assert!(inspection.issues.iter().any(|i| i.contains("duplicate command name 'test'")));
}

#[test]
fn duplicates_leave_the_other_artifacts() {
    let inspection = inspect_skills(vec![
        skill_scan("a/x", "x", "X one"),
        skill_scan("b/y", "y", "Y"),
        skill_scan("c/x", "x", "X two"),
        skill_scan("d/z", "z", "Z"),
    ]);
    let names: Vec<_> = inspection.items.iter().map(|s| s.name.as_str()).collect();
    assert_eq!(names, vec!["y", "z"]);
    assert_eq!(inspection.duplicate_names, vec!["x".to_string()]);
}

#[test]
fn invalid_entries_become_issues() {
    let bad = SkillDirScan {
        path: format!("{ROOT}/broken"),
        dir_name: Some("broken".to_string()),
        rel_path: Some("broken".to_string()),
        frontmatter: Some(Ok(RawSkillFrontmatter { name: "other".to_string(), description: "D".to_string() })),
    };
    let inspection = inspect_skills(vec![
        Scanned { entry_name: "broken".to_string(), outcome: parse_skill_dir(bad) },
        skill_scan("ok", "ok", "Fine"),
    ]);
    assert_eq!(inspection.items.len(), 1);
    assert_eq!(
        inspection.issues,
        vec!["invalid skill 'broken': frontmatter name 'other' does not match directory name 'broken'".to_string()]
    );
}

#[test]
fn skill_errors_in_order() {
    let base = || SkillDirScan {
        path: "/lib/s".to_string(),
        dir_name: Some("s".to_string()),
        rel_path: None,
        frontmatter: Some(Ok(RawSkillFrontmatter { name: "s".to_string(), description: "D".to_string() })),
    };
    let mut scan = base();
    scan.dir_name = None;
    assert!(matches!(parse_skill_dir(scan), Err(SkillError::NoUtf8Name)));
    let mut scan = base();
    scan.frontmatter = None;
    let e = parse_skill_dir(scan).unwrap_err();
    assert_eq!(e.message(), "missing top-level SKILL.md");
    let mut scan = base();
    scan.frontmatter = Some(Ok(RawSkillFrontmatter { name: "  ".to_string(), description: "D".to_string() }));
    assert!(matches!(parse_skill_dir(scan), Err(SkillError::Frontmatter(SkillFrontmatterError::EmptyName))));
    let mut scan = base();
    scan.frontmatter = Some(Ok(RawSkillFrontmatter { name: "s".to_string(), description: " ".to_string() }));
    let e = parse_skill_dir(scan).unwrap_err();
    assert_eq!(e.message(), "skill frontmatter description must not be empty");
    let mut scan = base();
    scan.frontmatter = Some(Err(SourceFileError::Split {
        path: "/lib/s/SKILL.md".to_string(),
        error: FrontmatterError::MissingClosing,
    }));
    let e = parse_skill_dir(scan).unwrap_err();
    assert_eq!(e.message(), "invalid frontmatter in /lib/s/SKILL.md: missing closing frontmatter delimiter");
    let installed = validate_installed_skill(base()).unwrap();
    assert_eq!(installed.source_rel_path, "s");
}

fn agent_file_scan(raw: RawAgentFrontmatter, body: &str) -> AgentFileScan {
    AgentFileScan {
        path: "/lib/review.md".to_string(),
        file_name: Some("review.md".to_string()),
        rel_path: Some("group/review.md".to_string()),
        frontmatter: Ok((raw, body.to_string())),
    }
}

fn raw_agent(description: Option<&str>, mode: Option<&str>, prompt: PromptField) -> RawAgentFrontmatter {
    RawAgentFrontmatter { description: description.map(str::to_string), mode: mode.map(str::to_string), prompt }
}

#[test]
fn agent_errors_and_modes() {
    let a = parse_agent_markdown(agent_file_scan(raw_agent(Some("Review"), Some("subagent"), PromptField::Absent), "# body"))
        .unwrap();
    assert_eq!(a.name, "review");
    assert_eq!(a.mode, Some(AgentMode::Subagent));
    assert_eq!(a.source_rel_path, "group/review.md");

    let e = parse_agent_markdown(agent_file_scan(raw_agent(None, None, PromptField::Absent), "# body")).unwrap_err();
    assert_eq!(e.message(), "agent frontmatter is missing required description");
    let e = parse_agent_markdown(agent_file_scan(raw_agent(Some(" "), None, PromptField::Absent), "# body")).unwrap_err();
    assert!(matches!(e, AgentError::Frontmatter(AgentFrontmatterError::EmptyDescription)));
    let e = parse_agent_markdown(agent_file_scan(raw_agent(Some("R"), Some("boss"), PromptField::Absent), "# body"))
        .unwrap_err();
    assert_eq!(e.message(), "unsupported agent mode 'boss'");
    let e = parse_agent_markdown(agent_file_scan(
        raw_agent(Some("R"), None, PromptField::Mapping(vec!["file".to_string()])),
        "# body",
    ))
    .unwrap_err();
    assert_eq!(e.message(), "multi-file agents using prompt: {file:...} are unsupported in v1");
    let ok = parse_agent_markdown(agent_file_scan(
        raw_agent(Some("R"), None, PromptField::Mapping(vec!["text".to_string()])),
        "# body",
    ));
    assert!(ok.is_ok());
    let e = parse_agent_markdown(agent_file_scan(raw_agent(Some("R"), None, PromptField::Other), "  \n ")).unwrap_err();
    assert_eq!(e.message(), "agent prompt body must be contained in the markdown file");
    let installed = validate_installed_agent(agent_file_scan(raw_agent(Some("R"), None, PromptField::Absent), "x")).unwrap();
    assert_eq!(installed.source_rel_path, "review.md");
}

#[test]
fn command_errors() {
    let scan = |body: &str| CommandFileScan {
        path: "/lib/ship.md".to_string(),
        file_name: Some("ship.md".to_string()),
        rel_path: None,
        frontmatter: Ok((None, body.to_string())),
    };
    let e = parse_command_markdown(scan("\n\n")).unwrap_err();
    assert_eq!(e.message(), "command template body must not be empty");
    let c = validate_installed_command(scan("Run $ARGUMENTS")).unwrap();
    assert_eq!(c.name, "ship");
    assert_eq!(c.source_rel_path, "ship.md");
    assert!(c.description.is_none());
}

#[test]
fn frontmatter_split_cases() {
    let (yaml, body) = split_frontmatter("---\nname: x\ndescription: y\n---\nline one\nline two\n").unwrap();
    assert_eq!(yaml, "name: x\ndescription: y");
    assert_eq!(body, "line one\nline two");
    let (yaml, body) = split_frontmatter("  ---  \r\na: 1\r\n --- \r\nbody\r\n").unwrap();
    assert_eq!(yaml, "a: 1");
    assert_eq!(body, "body");
    assert_eq!(split_frontmatter("no block\n---\n"), Err(FrontmatterError::MissingOpening));
    assert_eq!(split_frontmatter(""), Err(FrontmatterError::MissingOpening));
    assert_eq!(split_frontmatter("---\na: 1\n"), Err(FrontmatterError::MissingClosing));
    assert_eq!(FrontmatterError::MissingOpening.message(), "missing opening frontmatter delimiter");
}

#[test]
fn command_parts_cases() {
    let p = command_parts("# Just a body\n").unwrap();
    assert!(p.yaml.is_none());
    assert_eq!(p.body, "# Just a body\n");
    let p = command_parts("---\ndescription: Ship\n---\nDo it").unwrap();
    assert_eq!(p.yaml, Some("description: Ship".to_string()));
    assert_eq!(p.body, "Do it");
    assert!(command_parts("---\ndescription: x\n").is_err());
}

#[test]
fn markdown_walk_actions() {
    assert_eq!(markdown_entry_action(EntryKind::File, Some("a.md")), WalkAction::Parse);
    assert_eq!(markdown_entry_action(EntryKind::File, Some("a.txt")), WalkAction::Skip);
    assert_eq!(markdown_entry_action(EntryKind::File, Some(".md")), WalkAction::Skip);
    assert_eq!(markdown_entry_action(EntryKind::File, None), WalkAction::Skip);
    assert_eq!(markdown_entry_action(EntryKind::Dir, Some("group")), WalkAction::Descend);
    assert_eq!(markdown_entry_action(EntryKind::Other, Some("x.md")), WalkAction::Skip);
    assert_eq!(file_stem("review.md"), "review");
    assert_eq!(file_stem("archive.tar.md"), "archive.tar");
    assert_eq!(file_stem(".hidden"), ".hidden");
}

#[test]
fn source_file_error_texts() {
    let e = SourceFileError::Read { path: "/a.md".to_string(), detail: "denied".to_string() };
    assert_eq!(e.message("agent"), "failed to read /a.md: denied");
    let e = SourceFileError::Decode { path: "/a.md".to_string(), detail: "bad yaml".to_string() };
    assert_eq!(e.message("skill"), "failed to parse skill frontmatter in /a.md: bad yaml");
}

#[test]
fn file_level_errors_of_agents_and_commands() {
    let mut scan = agent_file_scan(raw_agent(Some("R"), None, PromptField::Absent), "x");
    scan.file_name = None;
    let e = parse_agent_markdown(scan).unwrap_err();
    assert_eq!(e.message(), "agent file has no valid UTF-8 name");
    let mut scan = agent_file_scan(raw_agent(Some("R"), None, PromptField::Absent), "x");
    scan.frontmatter = Err(SourceFileError::Split { path: "/lib/review.md".into(), error: FrontmatterError::MissingOpening });
    let e = parse_agent_markdown(scan).unwrap_err();
    assert_eq!(e.message(), "invalid frontmatter in /lib/review.md: missing opening frontmatter delimiter");

    let e = parse_command_markdown(CommandFileScan {
        path: "/lib/x".into(),
        file_name: None,
        rel_path: None,
        frontmatter: Ok((None, "body".into())),
    })
    .unwrap_err();
    assert_eq!(e.message(), "command file has no valid UTF-8 name");
    let e = parse_command_markdown(CommandFileScan {
        path: "/lib/x.md".into(),
        file_name: Some("x.md".into()),
        rel_path: None,
        frontmatter: Err(SourceFileError::Decode { path: "/lib/x.md".into(), detail: "bad".into() }),
    })
    .unwrap_err();
    assert_eq!(e.message(), "failed to parse command frontmatter in /lib/x.md: bad");
}

#[test]
fn directory_entries_are_visited_by_name() {
    let names: Vec<String> = ["zeta", "alpha", "Beta", "alpha2", "_x"].iter().map(|s| s.to_string()).collect();
    let order = hermes::discovery::entry_order(&names);
    assert_eq!(order, vec![2, 4, 1, 3, 0]);
    assert!(hermes::discovery::entry_order(&vec![]).is_empty());
}
