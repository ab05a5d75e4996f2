//! What `list` prints: the recorded or the available artifacts of each
//! kind, one line each, and the problems discovery met.
use vstd::prelude::*;

use crate::cli::ListTarget;
use crate::discovery::{kind_label, string_views, ArtifactKind};
use crate::models::{
    mode_text, CatalogManifest, DiscoveredAgent, DiscoveredCommand, DiscoveredSkill, InstalledAgent,
    InstalledCommand, InstalledSkill,
};
use crate::text::{concat2, concat3, concat4};

verus! {

/// The part of an agent's line that shows its mode: ` (<mode>)`, or nothing.
pub open spec fn mode_suffix(mode: Option<crate::models::AgentMode>) -> Seq<char> {
    match mode {
        Some(m) => " ("@ + mode_text(m) + ")"@,
        None => seq![],
    }
}

/// A command's description, or nothing.
pub open spec fn description_or_empty(d: Option<String>) -> Seq<char> {
    match d {
        Some(s) => s@,
        None => seq![],
    }
}

/// Something `list` shows on a line of its own.
pub trait Listed: Sized {
    /// Its line: `- <name>: <description>`, and for an agent its mode.
    spec fn spec_line(&self) -> Seq<char>;

    fn line(&self) -> (r: String)
        ensures
            r@ == self.spec_line(),
    ;
}

/// Writes the part of an agent's line that shows its mode.
pub fn mode_suffix_string(mode: Option<crate::models::AgentMode>) -> (r: String)
    ensures
        r@ == mode_suffix(mode),
{
    match mode {
        Some(m) => concat3(" (", m.as_str(), ")"),
        None => String::new(),
    }
}

fn agent_line(name: &str, description: &str, mode: Option<crate::models::AgentMode>) -> (r: String)
    ensures
        r@ == "- "@ + name@ + ": "@ + description@ + mode_suffix(mode),
{
    let mut r = concat4("- ", name, ": ", description);
    let s = mode_suffix_string(mode);
    r.append(s.as_str());
    r
}

fn command_line(name: &str, description: &Option<String>) -> (r: String)
    ensures
        r@ == "- "@ + name@ + ": "@ + description_or_empty(*description),
{
    match description {
        Some(d) => concat4("- ", name, ": ", d.as_str()),
        None => {
            let r = concat3("- ", name, ": ");
            assert(r@ =~= "- "@ + name@ + ": "@ + Seq::<char>::empty());
            r
        },
    }
}

impl Listed for DiscoveredSkill {
    open spec fn spec_line(&self) -> Seq<char> {
        "- "@ + self.name@ + ": "@ + self.description@
    }

    fn line(&self) -> (r: String) {
        concat4("- ", self.name.as_str(), ": ", self.description.as_str())
    }
}

impl Listed for InstalledSkill {
    open spec fn spec_line(&self) -> Seq<char> {
        "- "@ + self.name@ + ": "@ + self.description@
    }

    fn line(&self) -> (r: String) {
        concat4("- ", self.name.as_str(), ": ", self.description.as_str())
    }
}

impl Listed for DiscoveredAgent {
    open spec fn spec_line(&self) -> Seq<char> {
        "- "@ + self.name@ + ": "@ + self.description@ + mode_suffix(self.mode)
    }

    fn line(&self) -> (r: String) {
        agent_line(self.name.as_str(), self.description.as_str(), self.mode)
    }
}

impl Listed for InstalledAgent {
    open spec fn spec_line(&self) -> Seq<char> {
        "- "@ + self.name@ + ": "@ + self.description@ + mode_suffix(self.mode)
    }

    fn line(&self) -> (r: String) {
        agent_line(self.name.as_str(), self.description.as_str(), self.mode)
    }
}

impl Listed for DiscoveredCommand {
    open spec fn spec_line(&self) -> Seq<char> {
        "- "@ + self.name@ + ": "@ + description_or_empty(self.description)
    }

    fn line(&self) -> (r: String) {
        command_line(self.name.as_str(), &self.description)
    }
}

impl Listed for InstalledCommand {
    open spec fn spec_line(&self) -> Seq<char> {
        "- "@ + self.name@ + ": "@ + description_or_empty(self.description)
    }

    fn line(&self) -> (r: String) {
        command_line(self.name.as_str(), &self.description)
    }
}

/// A heading and a line per item, or `(none)` when there is no item.
pub open spec fn section_lines<T: Listed>(heading: Seq<char>, items: Seq<T>) -> Seq<Seq<char>> {
    seq![heading] + if items.len() == 0 {
        seq!["(none)"@]
    } else {
        items.map_values(|t: T| t.spec_line())
    }
}

/// Writes a heading and a line per item.
pub fn section<T: Listed>(heading: &str, items: &Vec<T>) -> (r: Vec<String>)
    ensures
        string_views(r@) == section_lines(heading@, items@),
{
    let mut out: Vec<String> = Vec::new();
    out.push(String::from_str(heading));
    if items.len() == 0 {
        out.push(String::from_str("(none)"));
        assert(string_views(out@) =~= section_lines(heading@, items@));
        return out;
    }
    let mut i: usize = 0;
    let ghost lines = items@.map_values(|t: T| t.spec_line());
    assert(string_views(out@) =~= seq![heading@] + lines.take(0));
    while i < items.len()
        invariant
            i <= items@.len(),
            lines == items@.map_values(|t: T| t.spec_line()),
            string_views(out@) == seq![heading@] + lines.take(i as int),
        decreases items@.len() - i,
    {
        let ghost before = string_views(out@);
        out.push(items[i].line());
        assert(string_views(out@) =~= before.push(items@[i as int].spec_line()));
        assert(lines.take(i + 1) =~= lines.take(i as int).push(lines[i as int]));
        i = i + 1;
    }
    assert(lines.take(i as int) =~= lines);
    out
}

/// The problems discovery met, after a blank line and a heading; nothing
/// when there are none.
pub open spec fn warning_lines(issues: Seq<Seq<char>>) -> Seq<Seq<char>> {
    if issues.len() == 0 {
        seq![]
    } else {
        seq![seq![], "Discovery warnings:"@] + issues.map_values(|i: Seq<char>| "- "@ + i)
    }
}

/// Writes the problems discovery met.
pub fn warnings(issues: &Vec<String>) -> (r: Vec<String>)
    ensures
        string_views(r@) == warning_lines(string_views(issues@)),
{
    let mut out: Vec<String> = Vec::new();
    if issues.len() == 0 {
        assert(string_views(out@) =~= warning_lines(string_views(issues@)));
        return out;
    }
    out.push(String::new());
    out.push(String::from_str("Discovery warnings:"));
    let ghost lines = string_views(issues@).map_values(|i: Seq<char>| "- "@ + i);
    let ghost head = seq![Seq::<char>::empty(), "Discovery warnings:"@];
    assert(string_views(out@) =~= head + lines.take(0));
    let mut i: usize = 0;
    while i < issues.len()
        invariant
            i <= issues@.len(),
            lines == string_views(issues@).map_values(|i: Seq<char>| "- "@ + i),
            head == seq![Seq::<char>::empty(), "Discovery warnings:"@],
            string_views(out@) == head + lines.take(i as int),
        decreases issues@.len() - i,
    {
        let ghost before = string_views(out@);
        out.push(concat2("- ", issues[i].as_str()));
        assert(string_views(out@) =~= before.push(lines[i as int]));
        assert(lines.take(i + 1) =~= lines.take(i as int).push(lines[i as int]));
        i = i + 1;
    }
    assert(lines.take(i as int) =~= lines);
    out
}

/// The lines of `list --available` for one kind: its artifacts, then the
/// problems discovery met.
pub fn available_listing<T: Listed>(heading: &str, items: &Vec<T>, issues: &Vec<String>) -> (r: Vec<String>)
    ensures
        string_views(r@) == section_lines(heading@, items@) + warning_lines(string_views(issues@)),
{
    let mut out = section(heading, items);
    let mut w = warnings(issues);
    let ghost a = string_views(out@);
    let ghost b = string_views(w@);
    out.append(&mut w);
    assert(string_views(out@) =~= a + b);
    out
}

/// The heading of the installed artifacts of a kind.
pub open spec fn installed_heading(kind: ArtifactKind) -> Seq<char> {
    "Installed "@ + kind_label(kind) + "s:"@
}

/// The heading of the available artifacts of a kind.
pub open spec fn available_heading(kind: ArtifactKind) -> Seq<char> {
    "Available "@ + kind_label(kind) + "s:"@
}

/// Writes a heading of `list`, for installed (`installed`) or available
/// artifacts.
pub fn heading(kind: ArtifactKind, installed: bool) -> (r: String)
    ensures
        r@ == if installed {
            installed_heading(kind)
        } else {
            available_heading(kind)
        },
{
    if installed {
        concat3("Installed ", kind.label(), "s:")
    } else {
        concat3("Available ", kind.label(), "s:")
    }
}

/// The lines of `list --installed` for the catalog: the skills, agents and
/// commands sections, each alone or all three with blank lines between.
pub open spec fn installed_lines(manifest: CatalogManifest, target: ListTarget) -> Seq<Seq<char>> {
    let skills = section_lines(installed_heading(ArtifactKind::Skill), manifest.skills@);
    let agents = section_lines(installed_heading(ArtifactKind::Agent), manifest.agents@);
    let commands = section_lines(installed_heading(ArtifactKind::Command), manifest.commands@);
    match target {
        ListTarget::Skills => skills,
        ListTarget::Agents => agents,
        ListTarget::Commands => commands,
        ListTarget::All => skills + seq![seq![]] + agents + seq![seq![]] + commands,
    }
}

/// Writes what `list --installed` prints for the catalog.
pub fn installed_listing(manifest: &CatalogManifest, target: ListTarget) -> (r: Vec<String>)
    ensures
        string_views(r@) == installed_lines(*manifest, target),
{
    match target {
        ListTarget::Skills => section(heading(ArtifactKind::Skill, true).as_str(), &manifest.skills),
        ListTarget::Agents => section(heading(ArtifactKind::Agent, true).as_str(), &manifest.agents),
        ListTarget::Commands => section(
            heading(ArtifactKind::Command, true).as_str(),
            &manifest.commands,
        ),
        ListTarget::All => {
            let mut out = section(heading(ArtifactKind::Skill, true).as_str(), &manifest.skills);
            let mut agents = section(heading(ArtifactKind::Agent, true).as_str(), &manifest.agents);
            let mut commands = section(
                heading(ArtifactKind::Command, true).as_str(),
                &manifest.commands,
            );
            let ghost s = string_views(out@);
            let ghost a = string_views(agents@);
            let ghost c = string_views(commands@);
            out.push(String::new());
            out.append(&mut agents);
            out.push(String::new());
            out.append(&mut commands);
            assert(string_views(out@) =~= s + seq![Seq::<char>::empty()] + a + seq![
                Seq::<char>::empty(),
            ] + c);
            out
        },
    }
}

/// `lines` is a section headed `heading` with one line per item, each
/// written by `line`, or `(none)` when there are no items.
proof fn lemma_section_shape<T: Listed>(heading: Seq<char>, items: Seq<T>)
    ensures
        section_lines(heading, items)[0] == heading,
        items.len() == 0 ==> section_lines(heading, items) == seq![heading, "(none)"@],
        items.len() > 0 ==> section_lines(heading, items).len() == 1 + items.len(),
        forall|i: int| 0 <= i < items.len() ==> section_lines(heading, items)[1 + i] == (#[trigger] items[i]).spec_line(),
{
    if items.len() == 0 {
        assert(section_lines(heading, items) =~= seq![heading, "(none)"@]);
    }
}

/// `list --installed` for one kind prints that kind's section of the
/// catalog and nothing else: its heading, then one line per recorded
/// artifact of that kind (`- <name>: <description>`, and an agent's mode),
/// or `(none)`. For all kinds it prints the three sections in turn, with a
/// blank line between them.
pub proof fn lemma_installed_listing_kind(manifest: CatalogManifest)
    ensures
        installed_lines(manifest, ListTarget::Skills)[0] == "Installed skills:"@,
        installed_lines(manifest, ListTarget::Agents)[0] == "Installed agents:"@,
        installed_lines(manifest, ListTarget::Commands)[0] == "Installed commands:"@,
        installed_lines(manifest, ListTarget::Skills).len() == 1 + if manifest.skills@.len() == 0 {
            1
        } else {
            manifest.skills@.len()
        },
        installed_lines(manifest, ListTarget::Agents).len() == 1 + if manifest.agents@.len() == 0 {
            1
        } else {
            manifest.agents@.len()
        },
        installed_lines(manifest, ListTarget::Commands).len() == 1 + if manifest.commands@.len() == 0 {
            1
        } else {
            manifest.commands@.len()
        },
        manifest.skills@.len() == 0 ==> installed_lines(manifest, ListTarget::Skills)[1] == "(none)"@,
        manifest.agents@.len() == 0 ==> installed_lines(manifest, ListTarget::Agents)[1] == "(none)"@,
        manifest.commands@.len() == 0 ==> installed_lines(manifest, ListTarget::Commands)[1] == "(none)"@,
        forall|i: int|
            0 <= i < manifest.skills@.len() ==> installed_lines(manifest, ListTarget::Skills)[1 + i] == "- "@
                + (#[trigger] manifest.skills@[i]).name@ + ": "@ + manifest.skills@[i].description@,
        forall|i: int|
            0 <= i < manifest.agents@.len() ==> installed_lines(manifest, ListTarget::Agents)[1 + i] == "- "@
                + (#[trigger] manifest.agents@[i]).name@ + ": "@ + manifest.agents@[i].description@ + mode_suffix(
                manifest.agents@[i].mode,
            ),
        forall|i: int|
            0 <= i < manifest.commands@.len() ==> installed_lines(manifest, ListTarget::Commands)[1 + i] == "- "@
                + (#[trigger] manifest.commands@[i]).name@ + ": "@ + description_or_empty(
                manifest.commands@[i].description,
            ),
        installed_lines(manifest, ListTarget::All) == installed_lines(manifest, ListTarget::Skills) + seq![seq![]]
            + installed_lines(manifest, ListTarget::Agents) + seq![seq![]] + installed_lines(
            manifest,
            ListTarget::Commands,
        ),
{
    reveal_strlit("Installed ");
    reveal_strlit("s:");
    reveal_strlit("skill");
    reveal_strlit("agent");
    reveal_strlit("command");
    reveal_strlit("Installed skills:");
    reveal_strlit("Installed agents:");
    reveal_strlit("Installed commands:");
    assert(installed_heading(ArtifactKind::Skill) =~= "Installed skills:"@);
    assert(installed_heading(ArtifactKind::Agent) =~= "Installed agents:"@);
    assert(installed_heading(ArtifactKind::Command) =~= "Installed commands:"@);
    lemma_section_shape(installed_heading(ArtifactKind::Skill), manifest.skills@);
    lemma_section_shape(installed_heading(ArtifactKind::Agent), manifest.agents@);
    lemma_section_shape(installed_heading(ArtifactKind::Command), manifest.commands@);
}

/// The line of `list` when the project has no catalog.
pub open spec fn no_catalog_line_text(catalog_path: Seq<char>) -> Seq<char> {
    "No catalog found at "@ + catalog_path
}

/// Writes the line of `list` when the project has no catalog.
pub fn no_catalog_line(catalog_path: &str) -> (r: String)
    ensures
        r@ == no_catalog_line_text(catalog_path@),
{
    concat2("No catalog found at ", catalog_path)
}

/// The error when a kind that is needed has no source root.
pub open spec fn no_root_text(kind: ArtifactKind) -> Seq<char> {
    "no "@ + kind_label(kind) + "s source root configured"@
}

/// Writes the error when a kind that is needed has no source root.
pub fn no_root_message(kind: ArtifactKind) -> (r: String)
    ensures
        r@ == no_root_text(kind),
{
    concat3("no ", kind.label(), "s source root configured")
}

} // verus!

verus! {

/// `s` padded with spaces on the right to `width` characters (`{:<width}`).
pub open spec fn padded(s: Seq<char>, width: nat) -> Seq<char> {
    if s.len() < width {
        s + Seq::new((width - s.len()) as nat, |i: int| ' ')
    } else {
        s
    }
}

/// The label of an artifact in the prompt that picks artifacts of one kind:
/// its name padded to 24 characters, a space, and the rest of its line.
pub open spec fn prompt_label_text(name: Seq<char>, rest: Seq<char>) -> Seq<char> {
    padded(name, 24) + " "@ + rest
}

/// Writes the label of an artifact in the prompt: `rest` is its
/// description, and for an agent its mode as `list` shows it.
pub fn prompt_label(name: &str, rest: &str) -> (r: String)
    ensures
        r@ == prompt_label_text(name@, rest@),
{
    let mut r = String::from_str(name);
    let n = name.unicode_len();
    let mut k: usize = n;
    while k < 24
        invariant
            n == name@.len(),
            n <= k <= 24 || (n > 24 && k == n),
            r@ == name@ + Seq::new((k - n) as nat, |i: int| ' '),
        decreases 24 - k,
    {
        let ghost before = r@;
        r.append(" ");
        proof {
            reveal_strlit(" ");
        }
        assert(Seq::new((k + 1 - n) as nat, |i: int| ' ') =~= Seq::new((k - n) as nat, |i: int| ' ').push(' '));
        assert(r@ =~= before + " "@);
        k = k + 1;
    }
    assert(r@ =~= padded(name@, 24)) by {
        if n >= 24 {
            assert(Seq::new(0, |i: int| ' ') =~= Seq::<char>::empty());
        }
    }
    r.append(" ");
    r.append(rest);
    r
}

} // verus!
