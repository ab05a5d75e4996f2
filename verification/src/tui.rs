//! The state of the interactive install selection: three panes of trees,
//! one focused, each with a cursor, and the choice to confirm or cancel.
use vstd::prelude::*;

use crate::models::{DiscoveredAgent, DiscoveredCommand, DiscoveredSkill};
use crate::models::Artifact;
use crate::listing::mode_suffix;
use crate::text::{concat2, concat3, concat4, decimal, decimal_string};
use crate::tree::{
    all_leaves_selected, build_tree, folder_consistent, in_subtree, leaf_under, rows_view, selected_after_toggle,
    toggle_tree_row, tree_consistent, tree_of, TreeRow,
};

verus! {

/// The pane that keys act on.
#[derive(Debug, Clone, Copy, PartialEq, Eq, Structural)]
pub enum Focus {
    Skills,
    Agents,
    Commands,
}

/// The pane after `f` in the cycle skills, agents, commands.
pub open spec fn next_focus(f: Focus) -> Focus {
    match f {
        Focus::Skills => Focus::Agents,
        Focus::Agents => Focus::Commands,
        Focus::Commands => Focus::Skills,
    }
}

/// The names of the artifacts picked in the interactive selection.
#[derive(Debug)]
pub struct SelectionResult {
    pub selected_skills: Vec<String>,
    pub selected_agents: Vec<String>,
    pub selected_commands: Vec<String>,
}

/// The selection screen: the three trees, the focused pane, a cursor per
/// pane (`None` while the pane is empty) and whether the user has confirmed
/// or cancelled.
#[derive(Debug)]
pub struct SelectionState {
    pub focus: Focus,
    pub skills: Vec<TreeRow<DiscoveredSkill>>,
    pub agents: Vec<TreeRow<DiscoveredAgent>>,
    pub commands: Vec<TreeRow<DiscoveredCommand>>,
    pub skill_cursor: Option<usize>,
    pub agent_cursor: Option<usize>,
    pub command_cursor: Option<usize>,
    pub confirmed: bool,
    pub cancelled: bool,
}

/// The cursor after moving one row down (`forward`) or up in a pane of
/// `len` rows, wrapping around at both ends; an unset cursor counts as row 0.
pub open spec fn moved_cursor(cursor: Option<usize>, len: usize, forward: bool) -> Option<usize> {
    if len == 0 {
        cursor
    } else {
        let current = match cursor {
            Some(c) => c as int,
            None => 0,
        };
        if forward {
            Some(((current + 1) % (len as int)) as usize)
        } else if current == 0 {
            Some((len - 1) as usize)
        } else {
            Some((current - 1) as usize)
        }
    }
}

/// Moves a pane's cursor one row.
pub fn move_selection(cursor: &mut Option<usize>, len: usize, forward: bool)
    requires
        match *old(cursor) {
            Some(c) => c < usize::MAX,
            None => true,
        },
    ensures
        *final(cursor) == moved_cursor(*old(cursor), len, forward),
{
    if len == 0 {
        return;
    }
    let current = match *cursor {
        Some(c) => c,
        None => 0,
    };
    let next = if forward {
        (current + 1) % len
    } else if current == 0 {
        len - 1
    } else {
        current - 1
    };
    *cursor = Some(next);
}

/// The names of the selected leaves among `rows`, in row order.
pub open spec fn selected_names<T: Artifact>(rows: Seq<TreeRow<T>>) -> Seq<Seq<char>>
    decreases rows.len(),
{
    if rows.len() == 0 {
        seq![]
    } else {
        let r = rows.last();
        let rest = selected_names(rows.drop_last());
        if !r.is_folder && r.selected && r.leaf.is_some() {
            rest.push(r.leaf.unwrap().spec_name())
        } else {
            rest
        }
    }
}

/// The names a pane reports are those of its selected leaves: each
/// selected leaf's name is among them, and each of them is the name of a
/// selected leaf.
pub proof fn lemma_selected_names<T: Artifact>(rows: Seq<TreeRow<T>>)
    ensures
        forall|k: int|
            0 <= k < rows.len() && !(#[trigger] rows[k]).is_folder && rows[k].selected && rows[k].leaf is Some
                ==> selected_names(rows).contains(rows[k].leaf.unwrap().spec_name()),
        forall|m: int|
            #![trigger selected_names(rows)[m]]
            0 <= m < selected_names(rows).len() ==> exists|k: int|
                0 <= k < rows.len() && !(#[trigger] rows[k]).is_folder && rows[k].selected && rows[k].leaf is Some
                    && rows[k].leaf.unwrap().spec_name() == selected_names(rows)[m],
    decreases rows.len(),
{
    if rows.len() > 0 {
        let init = rows.drop_last();
        let r = rows.last();
        lemma_selected_names(init);
        let rest = selected_names(init);
        assert forall|k: int|
            0 <= k < rows.len() && !(#[trigger] rows[k]).is_folder && rows[k].selected && rows[k].leaf is Some
                implies selected_names(rows).contains(rows[k].leaf.unwrap().spec_name()) by {
            if k < rows.len() - 1 {
                assert(init[k] == rows[k]);
                let m = choose|m: int| 0 <= m < rest.len() && rest[m] == rows[k].leaf.unwrap().spec_name();
                if !r.is_folder && r.selected && r.leaf.is_some() {
                    assert(selected_names(rows)[m] == rest[m]);
                }
            } else {
                assert(rows[k] == r);
                assert(selected_names(rows)[rest.len() as int] == r.leaf.unwrap().spec_name());
            }
        }
        assert forall|m: int|
            #![trigger selected_names(rows)[m]]
            0 <= m < selected_names(rows).len() implies exists|k: int|
            0 <= k < rows.len() && !(#[trigger] rows[k]).is_folder && rows[k].selected && rows[k].leaf is Some
                && rows[k].leaf.unwrap().spec_name() == selected_names(rows)[m] by {
            if m < rest.len() {
                assert(selected_names(rows)[m] == rest[m]);
                let k = choose|k: int|
                    0 <= k < init.len() && !(#[trigger] init[k]).is_folder && init[k].selected && init[k].leaf is Some
                        && init[k].leaf.unwrap().spec_name() == rest[m];
                assert(rows[k] == init[k]);
            } else {
                assert(rows[rows.len() - 1] == r);
            }
        }
    }
}

/// The names of the selected leaves of a pane.
pub fn selected_leaf_names<T: Artifact>(rows: &Vec<TreeRow<T>>) -> (r: Vec<String>)
    ensures
        r@.map_values(|s: String| s@) == selected_names(rows@),
{
    let mut out: Vec<String> = Vec::new();
    let mut i: usize = 0;
    assert(rows@.take(0) =~= Seq::<TreeRow<T>>::empty());
    assert(out@.map_values(|s: String| s@) =~= Seq::<Seq<char>>::empty());
    while i < rows.len()
        invariant
            i <= rows@.len(),
            out@.map_values(|s: String| s@) == selected_names(rows@.take(i as int)),
        decreases rows@.len() - i,
    {
        let row = &rows[i];
        assert(rows@.take(i + 1).drop_last() =~= rows@.take(i as int));
        assert(rows@.take(i + 1).last() == rows@[i as int]);
        if !row.is_folder && row.selected {
            match &row.leaf {
                Some(item) => {
                    let ghost before = out@;
                    out.push(String::from_str(item.name()));
                    assert(out@.map_values(|s: String| s@) =~= before.map_values(|s: String| s@).push(
                        item.spec_name(),
                    ));
                },
                None => {},
            }
        }
        i = i + 1;
    }
    assert(rows@.take(rows@.len() as int) =~= rows@);
    out
}

/// The selection made without opening the screen: when nothing was found
/// there is nothing to choose, and the selection is empty. `None` while
/// there is something to choose from.
pub fn selection_without_screen(
    skills: &Vec<DiscoveredSkill>,
    agents: &Vec<DiscoveredAgent>,
    commands: &Vec<DiscoveredCommand>,
) -> (r: Option<SelectionResult>)
    ensures
        r.is_some() == (skills@.len() == 0 && agents@.len() == 0 && commands@.len() == 0),
        r matches Some(res) ==> {
            &&& res.selected_skills@.len() == 0
            &&& res.selected_agents@.len() == 0
            &&& res.selected_commands@.len() == 0
        },
{
    if skills.len() == 0 && agents.len() == 0 && commands.len() == 0 {
        Some(SelectionResult { selected_skills: Vec::new(), selected_agents: Vec::new(), selected_commands: Vec::new() })
    } else {
        None
    }
}

/// The first cursor of a pane: row 0 when the pane has rows.
pub open spec fn first_cursor(len: nat) -> Option<usize> {
    if len > 0 {
        Some(0usize)
    } else {
        None
    }
}

impl SelectionState {
    /// The selection screen for the artifacts found, with nothing selected
    /// and the skills pane focused.
    pub fn new(
        skills: Vec<DiscoveredSkill>,
        agents: Vec<DiscoveredAgent>,
        commands: Vec<DiscoveredCommand>,
    ) -> (s: SelectionState)
        ensures
            s.focus == Focus::Skills,
            rows_view(s.skills@) == tree_of(skills@),
            rows_view(s.agents@) == tree_of(agents@),
            rows_view(s.commands@) == tree_of(commands@),
            forall|i: int| 0 <= i < s.skills@.len() ==> !(#[trigger] s.skills@[i]).selected && !s.skills@[i].partial,
            forall|i: int| 0 <= i < s.agents@.len() ==> !(#[trigger] s.agents@[i]).selected && !s.agents@[i].partial,
            forall|i: int| 0 <= i < s.commands@.len() ==> !(#[trigger] s.commands@[i]).selected && !s.commands@[i].partial,
            s.skill_cursor == first_cursor(s.skills@.len()),
            s.agent_cursor == first_cursor(s.agents@.len()),
            s.command_cursor == first_cursor(s.commands@.len()),
            !s.confirmed,
            !s.cancelled,
            s.wf(),
    {
        let skill_rows = build_tree(skills);
        let agent_rows = build_tree(agents);
        let command_rows = build_tree(commands);
        let skill_cursor = if skill_rows.len() > 0 { Some(0) } else { None };
        let agent_cursor = if agent_rows.len() > 0 { Some(0) } else { None };
        let command_cursor = if command_rows.len() > 0 { Some(0) } else { None };
        SelectionState {
            focus: Focus::Skills,
            skills: skill_rows,
            agents: agent_rows,
            commands: command_rows,
            skill_cursor,
            agent_cursor,
            command_cursor,
            confirmed: false,
            cancelled: false,
        }
    }

    /// Moves the focus to the next pane.
    pub fn switch_focus(&mut self)
        ensures
            *final(self) == (SelectionState { focus: next_focus(old(self).focus), ..*old(self) }),
    {
        self.focus = match self.focus {
            Focus::Skills => Focus::Agents,
            Focus::Agents => Focus::Commands,
            Focus::Commands => Focus::Skills,
        };
    }

    /// Records that the user confirmed the selection.
    pub fn confirm(&mut self)
        ensures
            *final(self) == (SelectionState { confirmed: true, ..*old(self) }),
    {
        self.confirmed = true;
    }

    /// Records that the user cancelled the selection.
    pub fn cancel(&mut self)
        ensures
            *final(self) == (SelectionState { cancelled: true, ..*old(self) }),
    {
        self.cancelled = true;
    }

    /// Whether the user has confirmed or cancelled.
    pub fn is_done(&self) -> (b: bool)
        ensures
            b == (self.confirmed || self.cancelled),
    {
        self.confirmed || self.cancelled
    }

    /// The names of the selected leaves of each pane, once the user has
    /// confirmed and not cancelled.
    pub fn result(&self) -> (r: Option<SelectionResult>)
        ensures
            r.is_some() == (self.confirmed && !self.cancelled),
            r matches Some(res) ==> {
                &&& res.selected_skills@.map_values(|s: String| s@) == selected_names(self.skills@)
                &&& res.selected_agents@.map_values(|s: String| s@) == selected_names(self.agents@)
                &&& res.selected_commands@.map_values(|s: String| s@) == selected_names(self.commands@)
            },
    {
        if self.cancelled || !self.confirmed {
            return None;
        }
        Some(
            SelectionResult {
                selected_skills: selected_leaf_names(&self.skills),
                selected_agents: selected_leaf_names(&self.agents),
                selected_commands: selected_leaf_names(&self.commands),
            },
        )
    }
}

/// A cursor that points at a row of a pane of `len` rows, if it is set.
pub open spec fn cursor_in(c: Option<usize>, len: nat) -> bool {
    match c {
        Some(x) => x < len,
        None => true,
    }
}

impl SelectionState {
    /// The screen is well formed: each pane's cursor points at one of its
    /// rows.
    pub open spec fn wf(&self) -> bool {
        &&& cursor_in(self.skill_cursor, self.skills@.len())
        &&& cursor_in(self.agent_cursor, self.agents@.len())
        &&& cursor_in(self.command_cursor, self.commands@.len())
    }

    /// The cursor of the focused pane.
    pub open spec fn focused_cursor(&self) -> Option<usize> {
        match self.focus {
            Focus::Skills => self.skill_cursor,
            Focus::Agents => self.agent_cursor,
            Focus::Commands => self.command_cursor,
        }
    }

    /// The number of rows of the focused pane.
    pub open spec fn focused_len(&self) -> nat {
        match self.focus {
            Focus::Skills => self.skills@.len(),
            Focus::Agents => self.agents@.len(),
            Focus::Commands => self.commands@.len(),
        }
    }

    /// The same screen with only the focused pane's cursor changed to `c`.
    pub open spec fn with_focused_cursor(&self, c: Option<usize>) -> SelectionState {
        match self.focus {
            Focus::Skills => SelectionState { skill_cursor: c, ..*self },
            Focus::Agents => SelectionState { agent_cursor: c, ..*self },
            Focus::Commands => SelectionState { command_cursor: c, ..*self },
        }
    }

    /// Moves the focused pane's cursor one row down, wrapping to the top.
    pub fn next(&mut self)
        requires
            old(self).wf(),
        ensures
            final(self).wf(),
            *final(self) == old(self).with_focused_cursor(
                moved_cursor(old(self).focused_cursor(), old(self).focused_len() as usize, true),
            ),
    {
        match self.focus {
            Focus::Skills => {
                let len = self.skills.len();
                move_selection(&mut self.skill_cursor, len, true);
            },
            Focus::Agents => {
                let len = self.agents.len();
                move_selection(&mut self.agent_cursor, len, true);
            },
            Focus::Commands => {
                let len = self.commands.len();
                move_selection(&mut self.command_cursor, len, true);
            },
        }
    }

    /// Moves the focused pane's cursor one row up, wrapping to the bottom.
    pub fn previous(&mut self)
        requires
            old(self).wf(),
        ensures
            final(self).wf(),
            *final(self) == old(self).with_focused_cursor(
                moved_cursor(old(self).focused_cursor(), old(self).focused_len() as usize, false),
            ),
    {
        match self.focus {
            Focus::Skills => {
                let len = self.skills.len();
                move_selection(&mut self.skill_cursor, len, false);
            },
            Focus::Agents => {
                let len = self.agents.len();
                move_selection(&mut self.agent_cursor, len, false);
            },
            Focus::Commands => {
                let len = self.commands.len();
                move_selection(&mut self.command_cursor, len, false);
            },
        }
    }

    /// Toggles the row under the focused pane's cursor.
    pub fn toggle_current(&mut self)
        ensures
            toggled_current(*old(self), *final(self)),
    {
        match self.focus {
            Focus::Skills => {
                if let Some(index) = self.skill_cursor {
                    toggle_tree_row(&mut self.skills, index);
                }
            },
            Focus::Agents => {
                if let Some(index) = self.agent_cursor {
                    toggle_tree_row(&mut self.agents, index);
                }
            },
            Focus::Commands => {
                if let Some(index) = self.command_cursor {
                    toggle_tree_row(&mut self.commands, index);
                }
            },
        }
    }
}

/// `after` is the screen `before` with the row under the focused pane's
/// cursor toggled, and nothing else changed.
pub open spec fn toggled_current(before: SelectionState, after: SelectionState) -> bool {
    &&& after.focus == before.focus
    &&& after.skill_cursor == before.skill_cursor
    &&& after.agent_cursor == before.agent_cursor
    &&& after.command_cursor == before.command_cursor
    &&& after.confirmed == before.confirmed
    &&& after.cancelled == before.cancelled
    &&& (before.focus == Focus::Skills && before.skill_cursor.is_some() ==> toggled(
        before.skills@,
        after.skills@,
        before.skill_cursor.unwrap() as int,
    ))
    &&& (before.focus == Focus::Agents && before.agent_cursor.is_some() ==> toggled(
        before.agents@,
        after.agents@,
        before.agent_cursor.unwrap() as int,
    ))
    &&& (before.focus == Focus::Commands && before.command_cursor.is_some() ==> toggled(
        before.commands@,
        after.commands@,
        before.command_cursor.unwrap() as int,
    ))
    &&& (before.focus != Focus::Skills || before.skill_cursor.is_none() ==> after.skills == before.skills)
    &&& (before.focus != Focus::Agents || before.agent_cursor.is_none() ==> after.agents == before.agents)
    &&& (before.focus != Focus::Commands || before.command_cursor.is_none() ==> after.commands
        == before.commands)
}

proof fn lemma_toggled_rows<T>(b: Seq<TreeRow<T>>, a: Seq<TreeRow<T>>, c: int)
    requires
        toggled(b, a, c),
        0 <= c < b.len(),
    ensures
        a.len() == b.len(),
        !b[c].is_folder ==> a[c].selected == !b[c].selected,
        !b[c].is_folder ==> forall|k: int|
            0 <= k < b.len() && k != c && !b[k].is_folder ==> (#[trigger] a[k]).selected == b[k].selected,
        b[c].is_folder ==> forall|k: int| #[trigger] leaf_under(b, c, k) ==> a[k].selected == !b[c].selected,
        b[c].is_folder ==> forall|k: int|
            0 <= k < b.len() && !b[k].is_folder && !in_subtree(b, c, k) ==> (#[trigger] a[k]).selected
                == b[k].selected,
{
    if b[c].is_folder {
        assert forall|k: int| #[trigger] leaf_under(b, c, k) implies a[k].selected == !b[c].selected by {
            crate::tree::lemma_scan_end_bounds(b, b[c].depth, c + 1);
            assert(0 <= k < b.len());
            assert(a[k].selected == selected_after_toggle(b, c, k));
        }
    }
}

/// Space toggles the row under the focused pane's cursor, in whichever
/// pane has the focus, and touches no other pane: a leaf under the cursor
/// flips and the other leaves keep their state; a folder under the cursor
/// sets every leaf below it to the opposite of its own check, and the
/// leaves outside it keep theirs.
pub proof fn lemma_toggle_current_rows(before: SelectionState, after: SelectionState)
    requires
        toggled_current(before, after),
        before.wf(),
    ensures
        before.focus == Focus::Skills ==> after.agents == before.agents && after.commands == before.commands,
        before.focus == Focus::Agents ==> after.skills == before.skills && after.commands == before.commands,
        before.focus == Focus::Commands ==> after.skills == before.skills && after.agents == before.agents,
        before.focus == Focus::Skills && before.skill_cursor is Some ==> {
            let b = before.skills@;
            let a = after.skills@;
            let c = before.skill_cursor.unwrap() as int;
            &&& a.len() == b.len()
            &&& !b[c].is_folder ==> a[c].selected == !b[c].selected
            &&& !b[c].is_folder ==> forall|k: int|
                0 <= k < b.len() && k != c && !b[k].is_folder ==> (#[trigger] a[k]).selected == b[k].selected
            &&& b[c].is_folder ==> forall|k: int| #[trigger] leaf_under(b, c, k) ==> a[k].selected == !b[c].selected
            &&& b[c].is_folder ==> forall|k: int|
                0 <= k < b.len() && !b[k].is_folder && !in_subtree(b, c, k) ==> (#[trigger] a[k]).selected
                    == b[k].selected
        },
        before.focus == Focus::Agents && before.agent_cursor is Some ==> {
            let b = before.agents@;
            let a = after.agents@;
            let c = before.agent_cursor.unwrap() as int;
            &&& a.len() == b.len()
            &&& !b[c].is_folder ==> a[c].selected == !b[c].selected
            &&& !b[c].is_folder ==> forall|k: int|
                0 <= k < b.len() && k != c && !b[k].is_folder ==> (#[trigger] a[k]).selected == b[k].selected
            &&& b[c].is_folder ==> forall|k: int| #[trigger] leaf_under(b, c, k) ==> a[k].selected == !b[c].selected
            &&& b[c].is_folder ==> forall|k: int|
                0 <= k < b.len() && !b[k].is_folder && !in_subtree(b, c, k) ==> (#[trigger] a[k]).selected
                    == b[k].selected
        },
        before.focus == Focus::Commands && before.command_cursor is Some ==> {
            let b = before.commands@;
            let a = after.commands@;
            let c = before.command_cursor.unwrap() as int;
            &&& a.len() == b.len()
            &&& !b[c].is_folder ==> a[c].selected == !b[c].selected
            &&& !b[c].is_folder ==> forall|k: int|
                0 <= k < b.len() && k != c && !b[k].is_folder ==> (#[trigger] a[k]).selected == b[k].selected
            &&& b[c].is_folder ==> forall|k: int| #[trigger] leaf_under(b, c, k) ==> a[k].selected == !b[c].selected
            &&& b[c].is_folder ==> forall|k: int|
                0 <= k < b.len() && !b[k].is_folder && !in_subtree(b, c, k) ==> (#[trigger] a[k]).selected
                    == b[k].selected
        },
{
    if before.focus == Focus::Skills && before.skill_cursor is Some {
        lemma_toggled_rows(before.skills@, after.skills@, before.skill_cursor.unwrap() as int);
    }
    if before.focus == Focus::Agents && before.agent_cursor is Some {
        lemma_toggled_rows(before.agents@, after.agents@, before.agent_cursor.unwrap() as int);
    }
    if before.focus == Focus::Commands && before.command_cursor is Some {
        lemma_toggled_rows(before.commands@, after.commands@, before.command_cursor.unwrap() as int);
    }
}

/// `after` is `before` with row `index` toggled, as `toggle_tree_row` does it.
pub open spec fn toggled<T>(before: Seq<TreeRow<T>>, after: Seq<TreeRow<T>>, index: int) -> bool {
    if index >= before.len() {
        after == before
    } else {
        &&& after.len() == before.len()
        &&& tree_consistent(after)
        &&& forall|k: int|
            0 <= k < before.len() ==> {
                &&& (#[trigger] after[k]).depth == before[k].depth
                &&& after[k].is_folder == before[k].is_folder
                &&& after[k].name == before[k].name
                &&& after[k].leaf == before[k].leaf
                &&& (!before[k].is_folder ==> after[k].selected == selected_after_toggle(before, index, k)
                    && after[k].partial == before[k].partial)
            }
    }
}

} // verus!

verus! {

/// What a key press asks of the selection screen.
#[derive(Debug, Clone, Copy, PartialEq, Eq, Structural)]
pub enum Key {
    /// `q` or Esc.
    Cancel,
    /// Space or Enter.
    Toggle,
    /// Down or `j`.
    Down,
    /// Up or `k`.
    Up,
    /// Tab.
    SwitchPane,
    /// `c`.
    Confirm,
    /// Any other key, which does nothing.
    Other,
}

/// The key a typed character stands for.
pub open spec fn char_key(c: char) -> Key {
    if c == 'q' {
        Key::Cancel
    } else if c == ' ' {
        Key::Toggle
    } else if c == 'j' {
        Key::Down
    } else if c == 'k' {
        Key::Up
    } else if c == 'c' {
        Key::Confirm
    } else {
        Key::Other
    }
}

/// The key a typed character stands for.
pub fn key_for_char(c: char) -> (k: Key)
    ensures
        k == char_key(c),
{
    if c == 'q' {
        Key::Cancel
    } else if c == ' ' {
        Key::Toggle
    } else if c == 'j' {
        Key::Down
    } else if c == 'k' {
        Key::Up
    } else if c == 'c' {
        Key::Confirm
    } else {
        Key::Other
    }
}

/// The screen `after` is what a press of `key` makes of `before`.
pub open spec fn key_effect(before: SelectionState, after: SelectionState, key: Key) -> bool {
    match key {
        Key::Cancel => after == (SelectionState { cancelled: true, ..before }),
        Key::Confirm => after == (SelectionState { confirmed: true, ..before }),
        Key::SwitchPane => after == (SelectionState { focus: next_focus(before.focus), ..before }),
        Key::Down => after == before.with_focused_cursor(
            moved_cursor(before.focused_cursor(), before.focused_len() as usize, true),
        ),
        Key::Up => after == before.with_focused_cursor(
            moved_cursor(before.focused_cursor(), before.focused_len() as usize, false),
        ),
        Key::Toggle => toggled_current(before, after),
        Key::Other => after == before,
    }
}

impl SelectionState {
    /// Acts on one key press.
    pub fn handle_key(&mut self, key: Key)
        requires
            old(self).wf(),
        ensures
            final(self).wf(),
            key_effect(*old(self), *final(self), key),
    {
        match key {
            Key::Cancel => self.cancel(),
            Key::Toggle => self.toggle_current(),
            Key::Down => self.next(),
            Key::Up => self.previous(),
            Key::SwitchPane => self.switch_focus(),
            Key::Confirm => self.confirm(),
            Key::Other => {},
        }
    }
}

/// The check box of a row: `[x]` when selected, `[-]` for a folder with
/// some but not all leaves selected, `[ ]` otherwise.
pub open spec fn checkbox_text<T>(row: TreeRow<T>) -> Seq<char> {
    if row.selected {
        "[x]"@
    } else if row.is_folder && row.partial {
        "[-]"@
    } else {
        "[ ]"@
    }
}

/// The check box of a row.
pub fn checkbox<T>(row: &TreeRow<T>) -> (r: &'static str)
    ensures
        r@ == checkbox_text(*row),
{
    if row.selected {
        "[x]"
    } else if row.is_folder && row.partial {
        "[-]"
    } else {
        "[ ]"
    }
}

/// Two spaces per level of depth.
pub open spec fn indent(depth: nat) -> Seq<char>
    decreases depth,
{
    if depth == 0 {
        seq![]
    } else {
        indent((depth - 1) as nat) + "  "@
    }
}

/// What a row shows before its name: its indentation, its check box and a
/// space.
pub open spec fn row_prefix_text<T>(row: TreeRow<T>) -> Seq<char> {
    indent(row.depth as nat) + checkbox_text(row) + " "@
}

/// Writes what a row shows before its name.
pub fn row_prefix<T>(row: &TreeRow<T>) -> (r: String)
    ensures
        r@ == row_prefix_text(*row),
{
    let mut r = String::new();
    let mut d: usize = 0;
    while d < row.depth
        invariant
            d <= row.depth,
            r@ == indent(d as nat),
        decreases row.depth - d,
    {
        r.append("  ");
        d = d + 1;
    }
    r.append(checkbox(row));
    r.append(" ");
    r
}

/// How many leaves of a pane are selected.
pub open spec fn selected_leaf_count<T>(rows: Seq<TreeRow<T>>) -> nat
    decreases rows.len(),
{
    if rows.len() == 0 {
        0
    } else {
        selected_leaf_count(rows.drop_last()) + if !rows.last().is_folder && rows.last().selected {
            1nat
        } else {
            0nat
        }
    }
}

/// How many leaves a pane has.
pub open spec fn leaf_count<T>(rows: Seq<TreeRow<T>>) -> nat
    decreases rows.len(),
{
    if rows.len() == 0 {
        0
    } else {
        leaf_count(rows.drop_last()) + if !rows.last().is_folder {
            1nat
        } else {
            0nat
        }
    }
}

proof fn lemma_counts_bounded<T>(rows: Seq<TreeRow<T>>)
    ensures
        selected_leaf_count(rows) <= leaf_count(rows) <= rows.len(),
    decreases rows.len(),
{
    if rows.len() > 0 {
        lemma_counts_bounded(rows.drop_last());
    }
}

/// Counts the selected leaves and all leaves of a pane.
pub fn leaf_counts<T>(rows: &Vec<TreeRow<T>>) -> (r: (usize, usize))
    ensures
        r.0 == selected_leaf_count(rows@),
        r.1 == leaf_count(rows@),
{
    let mut selected: usize = 0;
    let mut leaves: usize = 0;
    let mut i: usize = 0;
    while i < rows.len()
        invariant
            i <= rows@.len(),
            selected == selected_leaf_count(rows@.take(i as int)),
            leaves == leaf_count(rows@.take(i as int)),
        decreases rows@.len() - i,
    {
        proof {
            assert(rows@.take(i + 1).drop_last() =~= rows@.take(i as int));
            lemma_counts_bounded(rows@.take(i + 1));
        }
        if !rows[i].is_folder {
            leaves = leaves + 1;
            if rows[i].selected {
                selected = selected + 1;
            }
        }
        i = i + 1;
    }
    assert(rows@.take(i as int) =~= rows@);
    (selected, leaves)
}

/// The title of a pane: ` <Label> (<selected>/<leaves>) `.
pub open spec fn pane_title_text(label: Seq<char>, selected: nat, leaves: nat) -> Seq<char> {
    " "@ + label + " ("@ + decimal(selected) + "/"@ + decimal(leaves) + ") "@
}

/// Writes the title of a pane.
pub fn pane_title(label: &str, selected: usize, leaves: usize) -> (r: String)
    ensures
        r@ == pane_title_text(label@, selected as nat, leaves as nat),
{
    let s = decimal_string(selected);
    let l = decimal_string(leaves);
    let mut r = concat4(" ", label, " (", s.as_str());
    r.append("/");
    r.append(l.as_str());
    r.append(") ");
    r
}

/// The tally under the banner: how many skills, agents and commands are
/// selected.
pub open spec fn tally_text(skills: nat, agents: nat, commands: nat) -> Seq<char> {
    decimal(skills) + " skills  •  "@ + decimal(agents) + " agents  •  "@ + decimal(commands)
        + " commands"@
}

/// Writes the tally under the banner.
pub fn tally(skills: usize, agents: usize, commands: usize) -> (r: String)
    ensures
        r@ == tally_text(skills as nat, agents as nat, commands as nat),
{
    let s = decimal_string(skills);
    let a = decimal_string(agents);
    let c = decimal_string(commands);
    let mut r = concat4(s.as_str(), " skills  •  ", a.as_str(), " agents  •  ");
    r.append(c.as_str());
    r.append(" commands");
    r
}

/// The text after a skill's name: ` — <description>`.
pub open spec fn skill_detail_text(s: DiscoveredSkill) -> Seq<char> {
    " — "@ + s.description@
}

/// Writes the text after a skill's name.
pub fn skill_detail(s: &DiscoveredSkill) -> (r: String)
    ensures
        r@ == skill_detail_text(*s),
{
    concat2(" — ", s.description.as_str())
}

/// The text after an agent's name: its mode as ` (<mode>)` if it has one,
/// then ` — <description>`.
pub open spec fn agent_detail_text(a: DiscoveredAgent) -> (Seq<char>, Seq<char>) {
    (mode_suffix(a.mode), " — "@ + a.description@)
}

/// Writes the text after an agent's name, the mode part and the
/// description part.
pub fn agent_detail(a: &DiscoveredAgent) -> (r: (String, String))
    ensures
        (r.0@, r.1@) == agent_detail_text(*a),
{
    let mode = match a.mode {
        Some(m) => concat3(" (", m.as_str(), ")"),
        None => String::new(),
    };
    (mode, concat2(" — ", a.description.as_str()))
}

/// The text after a command's name: ` — <description>`, or
/// ` — No description`.
pub open spec fn command_detail_text(c: DiscoveredCommand) -> Seq<char> {
    match c.description {
        Some(d) => " — "@ + d@,
        None => " — No description"@,
    }
}

/// Writes the text after a command's name.
pub fn command_detail(c: &DiscoveredCommand) -> (r: String)
    ensures
        r@ == command_detail_text(*c),
{
    match &c.description {
        Some(d) => concat2(" — ", d.as_str()),
        None => String::from_str(" — No description"),
    }
}

} // verus!

verus! {

/// Three presses of Tab come back to the pane where they started.
pub proof fn lemma_focus_cycle(f: Focus)
    ensures
        next_focus(next_focus(next_focus(f))) == f,
        next_focus(f) != f,
{
}

/// Moving a cursor down and then up, or up and then down, puts it back
/// where it was.
pub proof fn lemma_cursor_round_trip(c: usize, len: usize)
    requires
        c < len,
    ensures
        moved_cursor(moved_cursor(Some(c), len, true), len, false) == Some(c),
        moved_cursor(moved_cursor(Some(c), len, false), len, true) == Some(c),
        cursor_in(moved_cursor(Some(c), len, true), len as nat),
        cursor_in(moved_cursor(Some(c), len, false), len as nat),
{
    let l = len as int;
    let x = c as int;
    if x + 1 < l {
        vstd::arithmetic::div_mod::lemma_small_mod((x + 1) as nat, l as nat);
    } else {
        vstd::arithmetic::div_mod::lemma_mod_self_0(l);
    }
    if x > 0 {
        vstd::arithmetic::div_mod::lemma_small_mod(x as nat, l as nat);
    }
}

/// Toggling a leaf twice gives every leaf its first selection back.
pub proof fn lemma_leaf_toggle_twice<T>(a: Seq<TreeRow<T>>, b: Seq<TreeRow<T>>, index: int, k: int)
    requires
        0 <= index < a.len(),
        !a[index].is_folder,
        toggled(a, b, index),
        0 <= k < a.len(),
        !a[k].is_folder,
    ensures
        selected_after_toggle(b, index, k) == a[k].selected,
{
}

/// Toggling a folder of a consistent tree selects every leaf under it when
/// some leaf under it was not selected, clears them all when all were, and
/// leaves every other leaf as it was.
pub proof fn lemma_folder_toggle<T>(a: Seq<TreeRow<T>>, index: int, k: int)
    requires
        tree_consistent(a),
        0 <= index < a.len(),
        a[index].is_folder,
        0 <= k < a.len(),
        !a[k].is_folder,
    ensures
        leaf_under(a, index, k) ==> selected_after_toggle(a, index, k) == !all_leaves_selected(a, index),
        !in_subtree(a, index, k) ==> selected_after_toggle(a, index, k) == a[k].selected,
{
    assert(folder_consistent(a, index));
}

} // verus!
