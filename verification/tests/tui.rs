use hermes::models::{AgentMode, DiscoveredAgent, DiscoveredCommand, DiscoveredSkill};
use hermes::tree::{build_tree, toggle_tree_row};
use hermes::tui::{
    selection_without_screen, agent_detail, checkbox, command_detail, key_for_char, leaf_counts, pane_title, row_prefix, skill_detail,
    tally, Focus, Key, SelectionState,
};

fn skill(name: &str, source_rel_path: &str) -> DiscoveredSkill {
    DiscoveredSkill {
        name: name.to_string(),
        description: format!("{name} description"),
        source_path: "/tmp".to_string(),
        source_rel_path: source_rel_path.to_string(),
    }
}

fn agent(name: &str, source_rel_path: &str) -> DiscoveredAgent {
    DiscoveredAgent {
        name: name.to_string(),
        description: format!("{name} description"),
        mode: None,
        source_path: "/tmp".to_string(),
        source_rel_path: source_rel_path.to_string(),
    }
}

fn command(name: &str, source_rel_path: &str) -> DiscoveredCommand {
    DiscoveredCommand {
        name: name.to_string(),
        description: None,
        source_path: "/tmp".to_string(),
        source_rel_path: source_rel_path.to_string(),
    }
}

#[test]
fn build_tree_flat_items() {
    let items = vec![skill("code-review", "code-review"), skill("test", "test")];
    let rows = build_tree(items);
    assert_eq!(rows.len(), 2);
    assert!(!rows[0].is_folder);
    assert!(!rows[1].is_folder);
}

#[test]
fn build_tree_grouped_items() {
    let items = vec![
        skill("code-review", "review/code-review"),
        skill("security-review", "review/security-review"),
        skill("python-testing", "testing/python-testing"),
    ];
    let rows = build_tree(items);
    assert_eq!(rows.len(), 5);

    // review folder
    assert!(rows[0].is_folder);
    assert_eq!(rows[0].name, "review");
    assert_eq!(rows[0].depth, 0);

    // code-review leaf
    assert!(!rows[1].is_folder);
    assert_eq!(rows[1].name, "code-review");
    assert_eq!(rows[1].depth, 1);

    // security-review leaf
    assert!(!rows[2].is_folder);
    assert_eq!(rows[2].name, "security-review");
    assert_eq!(rows[2].depth, 1);

    // testing folder
    assert!(rows[3].is_folder);
    assert_eq!(rows[3].name, "testing");
    assert_eq!(rows[3].depth, 0);

    // python-testing leaf
    assert!(!rows[4].is_folder);
    assert_eq!(rows[4].name, "python-testing");
    assert_eq!(rows[4].depth, 1);
}

#[test]
fn toggle_folder_selects_all_descendants() {
    let items = vec![
        skill("code-review", "review/code-review"),
        skill("security-review", "review/security-review"),
    ];
    let mut rows = build_tree(items);

    // Toggle folder at index 0
    toggle_tree_row(&mut rows, 0);

    assert!(rows[0].selected);
    assert!(!rows[0].partial);
    assert!(rows[1].selected);
    assert!(rows[2].selected);
}

#[test]
fn toggle_folder_deselects_all_when_all_selected() {
    let items = vec![skill("code-review", "review/code-review")];
    let mut rows = build_tree(items);

    // First toggle selects all
    toggle_tree_row(&mut rows, 0);
    assert!(rows[0].selected);
    assert!(rows[1].selected);

    // Second toggle deselects all
    toggle_tree_row(&mut rows, 0);
    assert!(!rows[0].selected);
    assert!(!rows[0].partial);
    assert!(!rows[1].selected);
}

#[test]
fn toggle_leaf_updates_parent_partial_state() {
    let items = vec![
        skill("code-review", "review/code-review"),
        skill("security-review", "review/security-review"),
    ];
    let mut rows = build_tree(items);

    // Toggle first leaf
    toggle_tree_row(&mut rows, 1);

    assert!(!rows[0].selected);
    assert!(rows[0].partial);
    assert!(rows[1].selected);
    assert!(!rows[2].selected);
}

#[test]
fn selection_result_includes_only_selected_leaves() {
    let skills = vec![skill("code-review", "review/code-review"), skill("test", "test")];
    let state = SelectionState::new(skills, vec![], vec![]);
    let result = state.result();
    assert!(result.is_none(), "result is none before confirmation");
}

#[test]
fn tree_rows_are_in_path_order() {
    let items = vec![
        skill("zeta", "zeta"),
        skill("python-testing", "testing/python-testing"),
        skill("alpha", "alpha"),
        skill("code-review", "review/code-review"),
    ];
    let rows = build_tree(items);
    let names: Vec<&str> = rows.iter().map(|r| r.name.as_str()).collect();
    assert_eq!(names, vec!["alpha", "review", "code-review", "testing", "python-testing", "zeta"]);
    let leaves = rows.iter().filter(|r| !r.is_folder).count();
    assert_eq!(leaves, 4);
    assert!(rows.iter().all(|r| !r.selected && !r.partial));
}

#[test]
fn tree_orders_root_then_dot_then_parent_then_names() {
    let items = vec![
        skill("s1", "zeta/s1"),
        skill("s5", "-x/s5"),
        skill("s2", "../up/s2"),
        skill("s3", "./here/s3"),
        skill("s4", "/root/s4"),
    ];
    let rows = build_tree(items);
    let shown: Vec<(usize, bool, &str)> = rows.iter().map(|r| (r.depth, r.is_folder, r.name.as_str())).collect();
    assert_eq!(
        shown,
        vec![
            (0, true, "/"),
            (1, true, "root"),
            (2, false, "s4"),
            (0, true, "."),
            (1, true, "here"),
            (2, false, "s3"),
            (0, true, ".."),
            (1, true, "up"),
            (2, false, "s2"),
            (0, true, "-x"),
            (1, false, "s5"),
            (0, true, "zeta"),
            (1, false, "s1"),
        ]
    );
}

#[test]
fn tree_skips_dot_components_inside_a_path() {
    let rows = build_tree(vec![skill("a", "x/./y//a")]);
    let shown: Vec<(usize, bool, &str)> = rows.iter().map(|r| (r.depth, r.is_folder, r.name.as_str())).collect();
    assert_eq!(shown, vec![(0, true, "x"), (1, true, "y"), (2, false, "a")]);
}

#[test]
fn toggling_a_leaf_twice_restores_it() {
    let items = vec![
        skill("code-review", "review/code-review"),
        skill("security-review", "review/security-review"),
    ];
    let mut rows = build_tree(items);
    toggle_tree_row(&mut rows, 2);
    assert!(rows[2].selected);
    assert!(rows[0].partial);
    toggle_tree_row(&mut rows, 2);
    assert!(!rows[2].selected);
    assert!(!rows[0].partial);
    assert!(!rows[0].selected);
}

#[test]
fn toggling_a_partial_folder_selects_every_leaf() {
    let items = vec![
        skill("code-review", "review/code-review"),
        skill("security-review", "review/security-review"),
        skill("other", "other"),
    ];
    let mut rows = build_tree(items);
    // rows: other, review, code-review, security-review
    assert_eq!(rows[1].name, "review");
    toggle_tree_row(&mut rows, 2);
    assert!(rows[1].partial);
    toggle_tree_row(&mut rows, 1);
    assert!(rows[1].selected);
    assert!(!rows[1].partial);
    assert!(rows[2].selected);
    assert!(rows[3].selected);
    assert!(!rows[0].selected);
}

#[test]
fn toggling_past_the_end_changes_nothing() {
    let mut rows = build_tree(vec![skill("a", "a")]);
    toggle_tree_row(&mut rows, 7);
    assert_eq!(rows.len(), 1);
    assert!(!rows[0].selected);
}

#[test]
fn confirmed_selection_lists_selected_leaves_per_pane() {
    let skills = vec![skill("code-review", "review/code-review"), skill("test", "test")];
    let agents = vec![agent("review", "review.md")];
    let commands = vec![command("ship", "ship.md")];
    let mut state = SelectionState::new(skills, agents, commands);
    assert_eq!(state.focus, Focus::Skills);
    assert_eq!(state.skill_cursor, Some(0));
    // rows: review, code-review, test
    state.handle_key(Key::Toggle);
    state.handle_key(Key::SwitchPane);
    assert_eq!(state.focus, Focus::Agents);
    state.handle_key(Key::Toggle);
    assert!(!state.is_done());
    state.handle_key(Key::Confirm);
    assert!(state.is_done());
    let result = state.result().expect("confirmed");
    assert_eq!(result.selected_skills, vec!["code-review".to_string()]);
    assert_eq!(result.selected_agents, vec!["review".to_string()]);
    assert!(result.selected_commands.is_empty());
}

#[test]
fn cancelled_selection_has_no_result() {
    let mut state = SelectionState::new(vec![skill("a", "a")], vec![], vec![]);
    state.handle_key(Key::Toggle);
    state.handle_key(Key::Cancel);
    assert!(state.is_done());
    assert!(state.result().is_none());
}

#[test]
fn cursor_wraps_around_both_ends() {
    let skills = vec![skill("a", "a"), skill("b", "b"), skill("c", "c")];
    let mut state = SelectionState::new(skills, vec![], vec![]);
    state.handle_key(Key::Up);
    assert_eq!(state.skill_cursor, Some(2));
    state.handle_key(Key::Down);
    assert_eq!(state.skill_cursor, Some(0));
    state.handle_key(Key::Down);
    state.handle_key(Key::Down);
    assert_eq!(state.skill_cursor, Some(2));
    state.handle_key(Key::Down);
    assert_eq!(state.skill_cursor, Some(0));
}

#[test]
fn empty_pane_has_no_cursor_and_ignores_moves() {
    let mut state = SelectionState::new(vec![], vec![], vec![]);
    assert_eq!(state.skill_cursor, None);
    state.handle_key(Key::Down);
    state.handle_key(Key::Toggle);
    assert_eq!(state.skill_cursor, None);
    assert!(state.skills.is_empty());
}

#[test]
fn focus_cycles_through_three_panes() {
    let mut state = SelectionState::new(vec![], vec![], vec![]);
    state.switch_focus();
    assert_eq!(state.focus, Focus::Agents);
    state.switch_focus();
    assert_eq!(state.focus, Focus::Commands);
    state.switch_focus();
    assert_eq!(state.focus, Focus::Skills);
}

#[test]
fn typed_characters_map_to_keys() {
    assert_eq!(key_for_char('q'), Key::Cancel);
    assert_eq!(key_for_char(' '), Key::Toggle);
    assert_eq!(key_for_char('j'), Key::Down);
    assert_eq!(key_for_char('k'), Key::Up);
    assert_eq!(key_for_char('c'), Key::Confirm);
    assert_eq!(key_for_char('x'), Key::Other);
}

#[test]
fn other_keys_change_nothing() {
    let mut state = SelectionState::new(vec![skill("a", "a")], vec![], vec![]);
    state.handle_key(Key::Other);
    assert_eq!(state.skill_cursor, Some(0));
    assert!(!state.skills[0].selected);
    assert!(!state.is_done());
}

#[test]
fn rows_render_checkbox_and_indent() {
    let items = vec![
        skill("code-review", "review/code-review"),
        skill("security-review", "review/security-review"),
    ];
    let mut rows = build_tree(items);
    assert_eq!(checkbox(&rows[0]), "[ ]");
    assert_eq!(row_prefix(&rows[1]), "  [ ] ");
    toggle_tree_row(&mut rows, 1);
    assert_eq!(checkbox(&rows[0]), "[-]");
    assert_eq!(checkbox(&rows[1]), "[x]");
    assert_eq!(row_prefix(&rows[0]), "[-] ");
    toggle_tree_row(&mut rows, 0);
    assert_eq!(checkbox(&rows[0]), "[x]");
    assert_eq!(leaf_counts(&rows), (2, 2));
}

#[test]
fn pane_titles_and_tally() {
    assert_eq!(pane_title("Skills", 1, 12), " Skills (1/12) ");
    assert_eq!(tally(0, 3, 10), "0 skills  •  3 agents  •  10 commands");
}

#[test]
fn leaf_details() {
    let s = skill("a", "a");
    assert_eq!(skill_detail(&s), " — a description");
    let mut ag = agent("rev", "rev.md");
    assert_eq!(agent_detail(&ag), (String::new(), " — rev description".to_string()));
    ag.mode = Some(AgentMode::Subagent);
    assert_eq!(agent_detail(&ag).0, " (subagent)");
    let mut c = command("ship", "ship.md");
    assert_eq!(command_detail(&c), " — No description");
    c.description = Some("Ship it".to_string());
    assert_eq!(command_detail(&c), " — Ship it");
}

#[test]
fn nothing_found_means_an_empty_selection_without_the_screen() {
    let empty = selection_without_screen(&vec![], &vec![], &vec![]).expect("empty selection");
    assert!(empty.selected_skills.is_empty());
    assert!(empty.selected_agents.is_empty());
    assert!(empty.selected_commands.is_empty());
    assert!(selection_without_screen(&vec![], &vec![agent("a", "a")], &vec![]).is_none());
    assert!(selection_without_screen(&vec![skill("s", "s")], &vec![], &vec![]).is_none());
    assert!(selection_without_screen(&vec![], &vec![], &vec![command("c", "c")]).is_none());
}

#[test]
fn new_state_starts_with_nothing_ticked() {
    let state = SelectionState::new(
        vec![skill("a", "g/a"), skill("b", "b")],
        vec![agent("x", "x")],
        vec![command("c", "c")],
    );
    assert!(state.skills.iter().all(|r| !r.selected && !r.partial));
    assert!(state.agents.iter().all(|r| !r.selected && !r.partial));
    assert!(state.commands.iter().all(|r| !r.selected && !r.partial));
    assert_eq!(state.skill_cursor, Some(0));
    assert_eq!(state.focus, Focus::Skills);
}
