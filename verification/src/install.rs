//! What `install` decides: which artifacts were asked for, which of them
//! may be installed, and how the catalog records them.
use vstd::prelude::*;

use crate::cli::{InstallArgs, InstallTarget};
use crate::discovery::{kind_label, string_views, ArtifactKind};
use crate::catalog::{find_named, first_named, upsert, upserted, CatalogEntry};
use crate::fs_ops::{join_path, joined};
use crate::models::{
    Artifact, CatalogManifest, DiscoveredAgent, DiscoveredCommand, DiscoveredSkill, InstalledAgent,
    InstalledCommand, InstalledSkill, ProjectPaths,
};
use crate::sync::{manifest_updated_line, manifest_updated_text};
use crate::sorting::lemma_remove_duplicates_distinct;
use crate::text::{concat2, concat3, concat4, decimal, decimal_string, str_equals};

verus! {

/// A copy of a list of strings.
pub fn copy_strings(v: &Vec<String>) -> (r: Vec<String>)
    ensures
        string_views(r@) == string_views(v@),
{
    let mut r: Vec<String> = Vec::new();
    let mut i: usize = 0;
    while i < v.len()
        invariant
            i <= v@.len(),
            string_views(r@) == string_views(v@).take(i as int),
        decreases v@.len() - i,
    {
        let ghost before = string_views(r@);
        r.push(v[i].clone());
        assert(string_views(r@) =~= before.push(v@[i as int]@));
        assert(string_views(v@).take(i + 1) =~= string_views(v@).take(i as int).push(v@[i as int]@));
        i = i + 1;
    }
    assert(string_views(v@).take(v@.len() as int) =~= string_views(v@));
    r
}

/// Whether `n` is among `v`.
pub fn contains_name(v: &Vec<String>, n: &str) -> (b: bool)
    ensures
        b == string_views(v@).contains(n@),
{
    let mut i: usize = 0;
    while i < v.len()
        invariant
            i <= v@.len(),
            forall|k: int| 0 <= k < i ==> v@[k]@ != n@,
        decreases v@.len() - i,
    {
        if str_equals(v[i].as_str(), n) {
            assert(string_views(v@)[i as int] == n@);
            return true;
        }
        i = i + 1;
    }
    false
}

/// The names in the order they were first given, each once.
pub fn dedupe(names: &Vec<String>) -> (r: Vec<String>)
    ensures
        string_views(r@) == string_views(names@).remove_duplicates(seq![]),
{
    let ghost v = string_views(names@);
    let mut r: Vec<String> = Vec::new();
    let mut i: usize = 0;
    assert(v.take(0) =~= Seq::<Seq<char>>::empty());
    assert(Seq::<Seq<char>>::empty().remove_duplicates(seq![]) =~= Seq::<Seq<char>>::empty());
    while i < names.len()
        invariant
            i <= names@.len(),
            v == string_views(names@),
            string_views(r@) == v.take(i as int).remove_duplicates(seq![]),
        decreases names@.len() - i,
    {
        let ghost t = v.take(i as int);
        proof {
            t.lemma_remove_duplicates_append(v[i as int], seq![]);
            t.lemma_remove_duplicates_properties(seq![]);
            assert(t + Seq::<Seq<char>>::empty() =~= t);
            assert(v.take(i + 1) =~= t + seq![v[i as int]]);
        }
        if !contains_name(&r, names[i].as_str()) {
            let ghost before = string_views(r@);
            r.push(names[i].clone());
            assert(string_views(r@) =~= before + seq![v[i as int]]);
        }
        i = i + 1;
    }
    assert(v.take(names@.len() as int) =~= v);
    r
}

/// How artifacts of one kind were asked for.
#[derive(Debug)]
pub enum RequestedArtifacts {
    /// Not at all.
    Skip,
    /// Chosen interactively.
    Prompt,
    /// By name.
    Named(Vec<String>),
}

/// A request, with names by their text.
pub enum RequestView {
    Skip,
    Prompt,
    Named(Seq<Seq<char>>),
}

impl View for RequestedArtifacts {
    type V = RequestView;

    open spec fn view(&self) -> RequestView {
        match self {
            RequestedArtifacts::Skip => RequestView::Skip,
            RequestedArtifacts::Prompt => RequestView::Prompt,
            RequestedArtifacts::Named(v) => RequestView::Named(string_views(v@)),
        }
    }
}

impl RequestedArtifacts {
    /// Whether artifacts of this kind are to be installed at all.
    pub fn enabled(&self) -> (b: bool)
        ensures
            b == !(self is Skip),
    {
        !matches!(self, RequestedArtifacts::Skip)
    }

    /// Whether this kind is to be chosen interactively.
    pub fn is_prompt(&self) -> (b: bool)
        ensures
            b == (self is Prompt),
    {
        matches!(self, RequestedArtifacts::Prompt)
    }
}

/// What `install` was asked to install, per kind.
#[derive(Debug)]
pub struct InstallSelection {
    pub skills: RequestedArtifacts,
    pub agents: RequestedArtifacts,
    pub commands: RequestedArtifacts,
}

/// `install` was given names both as flags and after a kind subcommand.
#[derive(Debug, Clone, Copy, PartialEq, Eq, Structural)]
pub struct ConflictingSelection;

impl ConflictingSelection {
    /// `cannot combine --skills/--agents/--commands with install kind subcommands`.
    pub fn message(&self) -> (r: String)
        ensures
            r@ == "cannot combine --skills/--agents/--commands with install kind subcommands"@,
    {
        String::from_str("cannot combine --skills/--agents/--commands with install kind subcommands")
    }
}

/// Names after a kind subcommand: none means choose interactively.
pub open spec fn named_or_prompt(names: Seq<Seq<char>>) -> RequestView {
    if names.len() == 0 {
        RequestView::Prompt
    } else {
        RequestView::Named(names)
    }
}

/// Names given as a flag: none means this kind is not installed.
pub open spec fn named_or_skip(names: Seq<Seq<char>>) -> RequestView {
    if names.len() == 0 {
        RequestView::Skip
    } else {
        RequestView::Named(names)
    }
}

/// What the arguments of `install` ask for: a kind subcommand asks for that
/// kind only (by name, or interactively when no name follows); flags ask for
/// the kinds they name; no names at all asks for every kind interactively.
pub open spec fn selection_for(args: InstallArgs) -> Result<(RequestView, RequestView, RequestView), ConflictingSelection> {
    let s = string_views(args.skills@);
    let a = string_views(args.agents@);
    let c = string_views(args.commands@);
    if args.target.is_some() && (s.len() > 0 || a.len() > 0 || c.len() > 0) {
        Err(ConflictingSelection)
    } else {
        match args.target {
            Some(InstallTarget::Skills(nl)) => Ok(
                (named_or_prompt(string_views(nl.names@)), RequestView::Skip, RequestView::Skip),
            ),
            Some(InstallTarget::Agents(nl)) => Ok(
                (RequestView::Skip, named_or_prompt(string_views(nl.names@)), RequestView::Skip),
            ),
            Some(InstallTarget::Commands(nl)) => Ok(
                (RequestView::Skip, RequestView::Skip, named_or_prompt(string_views(nl.names@))),
            ),
            None => if s.len() == 0 && a.len() == 0 && c.len() == 0 {
                Ok((RequestView::Prompt, RequestView::Prompt, RequestView::Prompt))
            } else {
                Ok((named_or_skip(s), named_or_skip(a), named_or_skip(c)))
            },
        }
    }
}

/// What `install` is asked for, read off its arguments: a kind subcommand
/// together with a kind flag is refused; a kind subcommand asks for its own
/// kind only, by the names after it or interactively when none follow;
/// without one, the kinds whose flags name something are asked for by those
/// names and the others not at all; with no names anywhere every kind is
/// chosen interactively.
pub proof fn lemma_install_selection(args: InstallArgs)
    ensures
        args.target is Some && (args.skills@.len() > 0 || args.agents@.len() > 0 || args.commands@.len() > 0)
            ==> selection_for(args) is Err,
        args.target is None && args.skills@.len() == 0 && args.agents@.len() == 0 && args.commands@.len() == 0
            ==> selection_for(args) == Ok::<_, ConflictingSelection>(
            (RequestView::Prompt, RequestView::Prompt, RequestView::Prompt),
        ),
        args.target is None && (args.skills@.len() > 0 || args.agents@.len() > 0 || args.commands@.len() > 0)
            ==> selection_for(args) == Ok::<_, ConflictingSelection>(
            (
                if args.skills@.len() > 0 {
                    RequestView::Named(string_views(args.skills@))
                } else {
                    RequestView::Skip
                },
                if args.agents@.len() > 0 {
                    RequestView::Named(string_views(args.agents@))
                } else {
                    RequestView::Skip
                },
                if args.commands@.len() > 0 {
                    RequestView::Named(string_views(args.commands@))
                } else {
                    RequestView::Skip
                },
            ),
        ),
        args.target matches Some(InstallTarget::Skills(nl)) ==> (args.skills@.len() == 0 && args.agents@.len() == 0
            && args.commands@.len() == 0 ==> selection_for(args) == Ok::<_, ConflictingSelection>(
            (
                if nl.names@.len() > 0 {
                    RequestView::Named(string_views(nl.names@))
                } else {
                    RequestView::Prompt
                },
                RequestView::Skip,
                RequestView::Skip,
            ),
        )),
        args.target matches Some(InstallTarget::Agents(nl)) ==> (args.skills@.len() == 0 && args.agents@.len() == 0
            && args.commands@.len() == 0 ==> selection_for(args) == Ok::<_, ConflictingSelection>(
            (
                RequestView::Skip,
                if nl.names@.len() > 0 {
                    RequestView::Named(string_views(nl.names@))
                } else {
                    RequestView::Prompt
                },
                RequestView::Skip,
            ),
        )),
        args.target matches Some(InstallTarget::Commands(nl)) ==> (args.skills@.len() == 0 && args.agents@.len()
            == 0 && args.commands@.len() == 0 ==> selection_for(args) == Ok::<_, ConflictingSelection>(
            (
                RequestView::Skip,
                RequestView::Skip,
                if nl.names@.len() > 0 {
                    RequestView::Named(string_views(nl.names@))
                } else {
                    RequestView::Prompt
                },
            ),
        )),
{
}

fn request_named_or_prompt(names: &Vec<String>) -> (r: RequestedArtifacts)
    ensures
        r@ == named_or_prompt(string_views(names@)),
{
    if names.len() == 0 {
        RequestedArtifacts::Prompt
    } else {
        RequestedArtifacts::Named(copy_strings(names))
    }
}

fn request_named_or_skip(names: &Vec<String>) -> (r: RequestedArtifacts)
    ensures
        r@ == named_or_skip(string_views(names@)),
{
    if names.len() == 0 {
        RequestedArtifacts::Skip
    } else {
        RequestedArtifacts::Named(copy_strings(names))
    }
}

impl InstallSelection {
    /// Reads what `install` was asked for from its arguments.
    pub fn from_args(args: &InstallArgs) -> (r: Result<InstallSelection, ConflictingSelection>)
        ensures
            match r {
                Ok(sel) => selection_for(*args) == Ok::<_, ConflictingSelection>(
                    (sel.skills@, sel.agents@, sel.commands@),
                ),
                Err(e) => selection_for(*args) == Err::<(RequestView, RequestView, RequestView), _>(e),
            },
    {
        if args.target.is_some() && (args.skills.len() > 0 || args.agents.len() > 0
            || args.commands.len() > 0) {
            return Err(ConflictingSelection);
        }
        let selection = match &args.target {
            Some(InstallTarget::Skills(nl)) => InstallSelection {
                skills: request_named_or_prompt(&nl.names),
                agents: RequestedArtifacts::Skip,
                commands: RequestedArtifacts::Skip,
            },
            Some(InstallTarget::Agents(nl)) => InstallSelection {
                skills: RequestedArtifacts::Skip,
                agents: request_named_or_prompt(&nl.names),
                commands: RequestedArtifacts::Skip,
            },
            Some(InstallTarget::Commands(nl)) => InstallSelection {
                skills: RequestedArtifacts::Skip,
                agents: RequestedArtifacts::Skip,
                commands: request_named_or_prompt(&nl.names),
            },
            None => if args.skills.len() == 0 && args.agents.len() == 0 && args.commands.len() == 0 {
                InstallSelection {
                    skills: RequestedArtifacts::Prompt,
                    agents: RequestedArtifacts::Prompt,
                    commands: RequestedArtifacts::Prompt,
                }
            } else {
                InstallSelection {
                    skills: request_named_or_skip(&args.skills),
                    agents: request_named_or_skip(&args.agents),
                    commands: request_named_or_skip(&args.commands),
                }
            },
        };
        Ok(selection)
    }

    /// Whether the selection is made on the interactive screen: every kind
    /// is to be chosen interactively.
    pub fn uses_tui(&self) -> (b: bool)
        ensures
            b == (self.skills is Prompt && self.agents is Prompt && self.commands is Prompt),
    {
        self.skills.is_prompt() && self.agents.is_prompt() && self.commands.is_prompt()
    }
}

} // verus!

verus! {

/// Why names given to `install` could not be matched to artifacts.
#[derive(Debug)]
pub enum SelectError {
    /// Several artifacts have this name.
    Ambiguous { kind: ArtifactKind, name: String },
    /// No artifact has this name.
    Unknown { kind: ArtifactKind, name: String },
}

impl SelectError {
    /// What went wrong, in words.
    pub fn message(&self) -> (r: String)
        ensures
            r@ == match *self {
                SelectError::Ambiguous { kind, name } => "ambiguous "@ + kind_label(kind) + " '"@ + name@
                    + "': multiple artifacts share this name; rename or regroup the colliding source artifacts"@,
                SelectError::Unknown { kind, name } => "unknown "@ + kind_label(kind) + " '"@ + name@ + "'"@,
            },
    {
        match self {
            SelectError::Ambiguous { kind, name } => {
                let mut r = concat3("ambiguous ", kind.label(), " '");
                r.append(name.as_str());
                r.append(
                    "': multiple artifacts share this name; rename or regroup the colliding source artifacts",
                );
                r
            },
            SelectError::Unknown { kind, name } => {
                let mut r = concat3("unknown ", kind.label(), " '");
                r.append(name.as_str());
                r.append("'");
                r
            },
        }
    }
}

/// The last artifact named `n`, which a map from names to artifacts built
/// in order keeps.
pub open spec fn last_named<T: Artifact>(items: Seq<T>, n: Seq<char>) -> Option<T>
    decreases items.len(),
{
    if items.len() == 0 {
        None
    } else if items.last().spec_name() == n {
        Some(items.last())
    } else {
        last_named(items.drop_last(), n)
    }
}

/// The artifacts for the names `ns` in order, or the first name that is
/// ambiguous (`true`) or unknown (`false`).
pub open spec fn selection_of<T: Artifact>(ns: Seq<Seq<char>>, items: Seq<T>, dups: Seq<Seq<char>>) -> Result<
    Seq<T>,
    (bool, Seq<char>),
>
    decreases ns.len(),
{
    if ns.len() == 0 {
        Ok(seq![])
    } else {
        match selection_of(ns.drop_last(), items, dups) {
            Err(e) => Err(e),
            Ok(prev) => {
                let n = ns.last();
                if dups.contains(n) {
                    Err((true, n))
                } else {
                    match last_named(items, n) {
                        None => Err((false, n)),
                        Some(t) => Ok(prev.push(t)),
                    }
                }
            },
        }
    }
}

/// The last artifact named `n`, copied.
fn find_last_named<T: Artifact>(items: &Vec<T>, n: &str) -> (r: Option<T>)
    ensures
        r == last_named(items@, n@),
{
    let mut i = items.len();
    assert(items@.take(items@.len() as int) =~= items@);
    while i > 0
        invariant
            i <= items@.len(),
            last_named(items@, n@) == last_named(items@.take(i as int), n@),
        decreases i,
    {
        assert(items@.take(i as int).last() == items@[i - 1]);
        if str_equals(items[i - 1].name(), n) {
            return Some(items[i - 1].duplicate());
        }
        assert(items@.take(i as int).drop_last() =~= items@.take(i - 1));
        i = i - 1;
    }
    None
}

/// The artifacts for the names given to `install`, each name once and in
/// the order first given; an ambiguous or unknown name is an error.
pub fn select_named<T: Artifact>(
    names: &Vec<String>,
    discovered: Vec<T>,
    duplicate_names: &Vec<String>,
    kind: ArtifactKind,
) -> (r: Result<Vec<T>, SelectError>)
    ensures
        match r {
            Ok(v) => selection_of(
                string_views(names@).remove_duplicates(seq![]),
                discovered@,
                string_views(duplicate_names@),
            ) == Ok::<_, (bool, Seq<char>)>(v@),
            Err(SelectError::Ambiguous { kind: k, name }) => k == kind && selection_of(
                string_views(names@).remove_duplicates(seq![]),
                discovered@,
                string_views(duplicate_names@),
            ) == Err::<Seq<T>, _>((true, name@)),
            Err(SelectError::Unknown { kind: k, name }) => k == kind && selection_of(
                string_views(names@).remove_duplicates(seq![]),
                discovered@,
                string_views(duplicate_names@),
            ) == Err::<Seq<T>, _>((false, name@)),
        },
{
    let ns = dedupe(names);
    let ghost nsv = string_views(ns@);
    let ghost dv = string_views(duplicate_names@);
    let mut selected: Vec<T> = Vec::new();
    let mut i: usize = 0;
    assert(nsv.take(0) =~= Seq::<Seq<char>>::empty());
    while i < ns.len()
        invariant
            i <= ns@.len(),
            nsv == string_views(ns@),
            nsv == string_views(names@).remove_duplicates(seq![]),
            dv == string_views(duplicate_names@),
            selection_of(nsv.take(i as int), discovered@, dv) == Ok::<_, (bool, Seq<char>)>(selected@),
        decreases ns@.len() - i,
    {
        let name = &ns[i];
        assert(nsv.take(i + 1).drop_last() =~= nsv.take(i as int));
        assert(nsv.take(i + 1).last() == name@);
        if contains_name(duplicate_names, name.as_str()) {
            assert(selection_of(nsv.take(i + 1), discovered@, dv) == Err::<Seq<T>, _>((true, name@)));
            proof {
                lemma_selection_prefix_err(nsv, i as int + 1, discovered@, dv, (true, name@));
            }
            let r = Err(SelectError::Ambiguous { kind, name: name.clone() });
            return r;
        }
        match find_last_named(&discovered, name.as_str()) {
            None => {
                assert(selection_of(nsv.take(i + 1), discovered@, dv) == Err::<Seq<T>, _>((false, name@)));
                proof {
                    lemma_selection_prefix_err(nsv, i as int + 1, discovered@, dv, (false, name@));
                }
                return Err(SelectError::Unknown { kind, name: name.clone() });
            },
            Some(t) => {
                selected.push(t);
            },
        }
        i = i + 1;
    }
    assert(nsv.take(ns@.len() as int) =~= nsv);
    Ok(selected)
}

/// The names `install` works through name each artifact once, and every
/// name given is among them.
pub proof fn lemma_dedupe_distinct(names: Seq<Seq<char>>)
    ensures
        names.remove_duplicates(seq![]).no_duplicates(),
        forall|n: Seq<char>| #[trigger] names.remove_duplicates(seq![]).contains(n) <==> names.contains(n),
{
    lemma_remove_duplicates_distinct(names, seq![]);
    names.lemma_remove_duplicates_properties(seq![]);
    assert(names + Seq::<Seq<char>>::empty() =~= names);
}

proof fn lemma_last_named_name<T: Artifact>(items: Seq<T>, n: Seq<char>)
    ensures
        last_named(items, n) matches Some(t) ==> t.spec_name() == n && items.contains(t),
    decreases items.len(),
{
    if items.len() > 0 && items.last().spec_name() != n {
        lemma_last_named_name(items.drop_last(), n);
        if let Some(t) = last_named(items.drop_last(), n) {
            let k = choose|k: int| 0 <= k < items.drop_last().len() && items.drop_last()[k] == t;
            assert(items[k] == t);
        }
    }
    if items.len() > 0 && items.last().spec_name() == n {
        assert(items[items.len() - 1] == items.last());
    }
}

/// A successful selection gives, in order, one artifact for each name
/// asked for, named as asked, and found among the discovered artifacts.
pub proof fn lemma_selection_names<T: Artifact>(ns: Seq<Seq<char>>, items: Seq<T>, dups: Seq<Seq<char>>)
    ensures
        selection_of(ns, items, dups) matches Ok(v) ==> {
            &&& v.len() == ns.len()
            &&& forall|k: int| 0 <= k < v.len() ==> (#[trigger] v[k]).spec_name() == ns[k] && items.contains(v[k])
                && !dups.contains(ns[k])
        },
    decreases ns.len(),
{
    if ns.len() > 0 {
        lemma_selection_names(ns.drop_last(), items, dups);
        lemma_last_named_name(items, ns.last());
    }
}

/// Once a prefix of the names fails, the whole selection fails the same way.
proof fn lemma_selection_prefix_err<T: Artifact>(
    ns: Seq<Seq<char>>,
    k: int,
    items: Seq<T>,
    dups: Seq<Seq<char>>,
    e: (bool, Seq<char>),
)
    requires
        0 <= k <= ns.len(),
        selection_of(ns.take(k), items, dups) == Err::<Seq<T>, _>(e),
    ensures
        selection_of(ns, items, dups) == Err::<Seq<T>, _>(e),
    decreases ns.len() - k,
{
    if k == ns.len() {
        assert(ns.take(k) =~= ns);
    } else {
        assert(ns.take(k + 1).drop_last() =~= ns.take(k));
        lemma_selection_prefix_err(ns, k + 1, items, dups, e);
    }
}

} // verus!

verus! {

/// Why an artifact was not installed.
#[derive(Debug, Clone, Copy, PartialEq, Eq, Structural)]
pub enum SkipReason {
    /// The installed copy was changed since Hermes recorded it.
    LocallyModified,
    /// Something the catalog does not know already sits at the install path.
    Untracked(ArtifactKind),
}

/// The text of a skip reason.
pub open spec fn skip_reason_text(r: SkipReason) -> Seq<char> {
    match r {
        SkipReason::LocallyModified => "local installed copy differs from the last recorded manifest hash"@,
        SkipReason::Untracked(k) => "an untracked local "@ + kind_label(k) + " already exists at the install path"@,
    }
}

impl SkipReason {
    /// Why, in words.
    pub fn message(&self) -> (r: String)
        ensures
            r@ == skip_reason_text(*self),
    {
        match self {
            SkipReason::LocallyModified => String::from_str(
                "local installed copy differs from the last recorded manifest hash",
            ),
            SkipReason::Untracked(k) => concat3(
                "an untracked local ",
                k.label(),
                " already exists at the install path",
            ),
        }
    }
}

/// The first step of installing one artifact.
#[derive(Debug)]
pub enum InstallPlan {
    /// Install it.
    Proceed,
    /// Install it only if the installed copy still has the recorded hash.
    CompareInstalledHash(String),
    /// Leave it.
    Skip(SkipReason),
}

/// Installs overwrite freely where nothing is installed or `--force` is
/// given; an installed copy the catalog records is overwritten only while it
/// is unchanged; one the catalog does not record is left alone.
pub fn plan_install<E: CatalogEntry>(
    entries: &Vec<E>,
    name: &str,
    installed_exists: bool,
    force: bool,
    kind: ArtifactKind,
) -> (p: InstallPlan)
    ensures
        !installed_exists || force ==> p is Proceed,
        installed_exists && !force ==> {
            let i = first_named(entries@, name@);
            if i < entries@.len() {
                p matches InstallPlan::CompareInstalledHash(h) && h@ == entries@[i].spec_installed_hash()
            } else {
                p == InstallPlan::Skip(SkipReason::Untracked(kind))
            }
        },
{
    if !installed_exists || force {
        return InstallPlan::Proceed;
    }
    match find_named(entries, name) {
        Some(i) => InstallPlan::CompareInstalledHash(String::from_str(entries[i].installed_hash())),
        None => InstallPlan::Skip(SkipReason::Untracked(kind)),
    }
}

/// An installed copy whose hash differs from the recorded one was changed
/// locally and is kept.
pub fn check_installed_hash(recorded: &str, current: &str) -> (r: Option<SkipReason>)
    ensures
        r == (if recorded@ == current@ {
            None
        } else {
            Some(SkipReason::LocallyModified)
        }),
{
    if str_equals(recorded, current) {
        None
    } else {
        Some(SkipReason::LocallyModified)
    }
}

/// Where an artifact is installed, relative to `.opencode/`: skills as
/// directories under `skills/`, agents and commands as `<name>.md` files
/// under `agents/` and `commands/`.
pub open spec fn installed_rel_path_of(kind: ArtifactKind, name: Seq<char>) -> Seq<char> {
    match kind {
        ArtifactKind::Skill => joined("skills"@, name),
        ArtifactKind::Agent => joined("agents"@, name + ".md"@),
        ArtifactKind::Command => joined("commands"@, name + ".md"@),
    }
}

/// The install path of an artifact, relative to `.opencode/`.
pub fn installed_rel_path(kind: ArtifactKind, name: &str) -> (r: String)
    ensures
        r@ == installed_rel_path_of(kind, name@),
{
    match kind {
        ArtifactKind::Skill => join_path("skills", name),
        ArtifactKind::Agent => {
            let file = concat2(name, ".md");
            join_path("agents", file.as_str())
        },
        ArtifactKind::Command => {
            let file = concat2(name, ".md");
            join_path("commands", file.as_str())
        },
    }
}

/// The catalog entry for a skill just installed.
pub fn skill_entry(skill: &DiscoveredSkill, installed_rel_path: String, source_hash: String, installed_hash: String) -> (e: InstalledSkill)
    ensures
        e.name == skill.name,
        e.description == skill.description,
        e.source_rel_path == skill.source_rel_path,
        e.installed_rel_path == installed_rel_path,
        e.source_hash == source_hash,
        e.installed_hash == installed_hash,
{
    InstalledSkill {
        name: skill.name.clone(),
        description: skill.description.clone(),
        source_rel_path: skill.source_rel_path.clone(),
        installed_rel_path,
        source_hash,
        installed_hash,
    }
}

/// The catalog entry for an agent just installed.
pub fn agent_entry(agent: &DiscoveredAgent, installed_rel_path: String, source_hash: String, installed_hash: String) -> (e: InstalledAgent)
    ensures
        e.name == agent.name,
        e.description == agent.description,
        e.mode == agent.mode,
        e.source_rel_path == agent.source_rel_path,
        e.installed_rel_path == installed_rel_path,
        e.source_hash == source_hash,
        e.installed_hash == installed_hash,
{
    InstalledAgent {
        name: agent.name.clone(),
        description: agent.description.clone(),
        mode: agent.mode,
        source_rel_path: agent.source_rel_path.clone(),
        installed_rel_path,
        source_hash,
        installed_hash,
    }
}

/// The catalog entry for a command just installed.
pub fn command_entry(command: &DiscoveredCommand, installed_rel_path: String, source_hash: String, installed_hash: String) -> (e: InstalledCommand)
    ensures
        e.name == command.name,
        e.description == command.description,
        e.source_rel_path == command.source_rel_path,
        e.installed_rel_path == installed_rel_path,
        e.source_hash == source_hash,
        e.installed_hash == installed_hash,
{
    let description = match &command.description {
        Some(d) => Some(d.clone()),
        None => None,
    };
    InstalledCommand {
        name: command.name.clone(),
        description,
        source_rel_path: command.source_rel_path.clone(),
        installed_rel_path,
        source_hash,
        installed_hash,
    }
}

/// Records an installed skill in the catalog.
pub fn upsert_skill(manifest: &mut CatalogManifest, entry: InstalledSkill)
    ensures
        final(manifest).skills@ == upserted(old(manifest).skills@, entry),
        final(manifest).agents == old(manifest).agents,
        final(manifest).commands == old(manifest).commands,
        final(manifest).version == old(manifest).version,
        final(manifest).install_mode == old(manifest).install_mode,
        final(manifest).skills_source_root == old(manifest).skills_source_root,
        final(manifest).agents_source_root == old(manifest).agents_source_root,
        final(manifest).commands_source_root == old(manifest).commands_source_root,
{
    upsert(&mut manifest.skills, entry);
}

/// Records an installed agent in the catalog.
pub fn upsert_agent(manifest: &mut CatalogManifest, entry: InstalledAgent)
    ensures
        final(manifest).agents@ == upserted(old(manifest).agents@, entry),
        final(manifest).skills == old(manifest).skills,
        final(manifest).commands == old(manifest).commands,
        final(manifest).version == old(manifest).version,
        final(manifest).install_mode == old(manifest).install_mode,
        final(manifest).skills_source_root == old(manifest).skills_source_root,
        final(manifest).agents_source_root == old(manifest).agents_source_root,
        final(manifest).commands_source_root == old(manifest).commands_source_root,
{
    upsert(&mut manifest.agents, entry);
}

/// Records an installed command in the catalog.
pub fn upsert_command(manifest: &mut CatalogManifest, entry: InstalledCommand)
    ensures
        final(manifest).commands@ == upserted(old(manifest).commands@, entry),
        final(manifest).skills == old(manifest).skills,
        final(manifest).agents == old(manifest).agents,
        final(manifest).version == old(manifest).version,
        final(manifest).install_mode == old(manifest).install_mode,
        final(manifest).skills_source_root == old(manifest).skills_source_root,
        final(manifest).agents_source_root == old(manifest).agents_source_root,
        final(manifest).commands_source_root == old(manifest).commands_source_root,
{
    upsert(&mut manifest.commands, entry);
}

} // verus!

verus! {

/// The word for `count` artifacts of a kind: singular for one, plural
/// otherwise.
pub open spec fn counted_label(kind: ArtifactKind, count: nat) -> Seq<char> {
    if count == 1 {
        kind_label(kind)
    } else {
        kind_label(kind) + "s"@
    }
}

/// The summary of what was installed of one kind into `dir`: a count line,
/// a line per name and a blank line; nothing when nothing was installed.
pub open spec fn summary_section(kind: ArtifactKind, dir: Seq<char>, names: Seq<Seq<char>>) -> Seq<Seq<char>> {
    if names.len() == 0 {
        seq![]
    } else {
        seq!["Installed "@ + decimal(names.len()) + " "@ + counted_label(kind, names.len()) + " into "@ + dir]
            + names.map_values(|n: Seq<char>| "- "@ + n) + seq![seq![]]
    }
}

/// The hint printed after each skipped artifact.
pub open spec fn force_hint_text() -> Seq<char> {
    "Hint: rerun with --force if you want to overwrite local changes"@
}

/// Each skipped artifact's notice, the hint and a blank line.
pub open spec fn skipped_lines(skipped: Seq<Seq<char>>) -> Seq<Seq<char>>
    decreases skipped.len(),
{
    if skipped.len() == 0 {
        seq![]
    } else {
        skipped_lines(skipped.drop_last()) + seq![skipped.last(), force_hint_text(), seq![]]
    }
}

/// What `install` prints at the end: per kind what was installed, the
/// notes, the skipped artifacts, and where the catalog was written.
pub open spec fn summary_lines(
    paths: ProjectPaths,
    skills: Seq<Seq<char>>,
    agents: Seq<Seq<char>>,
    commands: Seq<Seq<char>>,
    skipped: Seq<Seq<char>>,
    notes: Seq<Seq<char>>,
) -> Seq<Seq<char>> {
    summary_section(ArtifactKind::Skill, paths.skills_dir@, skills) + summary_section(
        ArtifactKind::Agent,
        paths.agents_dir@,
        agents,
    ) + summary_section(ArtifactKind::Command, paths.commands_dir@, commands) + notes + skipped_lines(
        skipped,
    ) + seq![manifest_updated_text(paths.catalog_path@)]
}

fn append_lines(out: &mut Vec<String>, lines: &Vec<String>)
    ensures
        string_views(final(out)@) == string_views(old(out)@) + string_views(lines@),
{
    let ghost start = string_views(out@);
    let mut i: usize = 0;
    assert(string_views(lines@).take(0) =~= Seq::<Seq<char>>::empty());
    assert(start + Seq::<Seq<char>>::empty() =~= start);
    while i < lines.len()
        invariant
            i <= lines@.len(),
            string_views(out@) == start + string_views(lines@).take(i as int),
        decreases lines@.len() - i,
    {
        let ghost before = string_views(out@);
        out.push(lines[i].clone());
        assert(string_views(out@) =~= before.push(lines@[i as int]@));
        assert(string_views(lines@).take(i + 1) =~= string_views(lines@).take(i as int).push(
            lines@[i as int]@,
        ));
        i = i + 1;
    }
    assert(string_views(lines@).take(i as int) =~= string_views(lines@));
}

fn push_summary_section(out: &mut Vec<String>, kind: ArtifactKind, dir: &str, names: &Vec<String>)
    ensures
        string_views(final(out)@) == string_views(old(out)@) + summary_section(
            kind,
            dir@,
            string_views(names@),
        ),
{
    let ghost start = string_views(out@);
    if names.len() == 0 {
        assert(start + Seq::<Seq<char>>::empty() =~= start);
        return;
    }
    let count = decimal_string(names.len());
    let label = if names.len() == 1 {
        String::from_str(kind.label())
    } else {
        concat2(kind.label(), "s")
    };
    let mut head = concat4("Installed ", count.as_str(), " ", label.as_str());
    head.append(" into ");
    head.append(dir);
    out.push(head);
    let ghost lines = string_views(names@).map_values(|n: Seq<char>| "- "@ + n);
    let ghost top = string_views(out@);
    assert(top =~= start + seq![
        "Installed "@ + decimal(names@.len()) + " "@ + counted_label(kind, names@.len()) + " into "@
            + dir@,
    ]);
    let mut i: usize = 0;
    assert(top + lines.take(0) =~= top);
    while i < names.len()
        invariant
            i <= names@.len(),
            lines == string_views(names@).map_values(|n: Seq<char>| "- "@ + n),
            string_views(out@) == top + lines.take(i as int),
        decreases names@.len() - i,
    {
        let ghost before = string_views(out@);
        out.push(concat2("- ", names[i].as_str()));
        assert(string_views(out@) =~= before.push(lines[i as int]));
        assert(lines.take(i + 1) =~= lines.take(i as int).push(lines[i as int]));
        i = i + 1;
    }
    assert(lines.take(i as int) =~= lines);
    let ghost before = string_views(out@);
    out.push(String::new());
    assert(string_views(out@) =~= before.push(Seq::<char>::empty()));
    assert(string_views(out@) =~= start + summary_section(kind, dir@, string_views(names@)));
}

fn push_skipped(out: &mut Vec<String>, skipped: &Vec<String>)
    ensures
        string_views(final(out)@) == string_views(old(out)@) + skipped_lines(string_views(skipped@)),
{
    let ghost start = string_views(out@);
    let mut i: usize = 0;
    assert(string_views(skipped@).take(0) =~= Seq::<Seq<char>>::empty());
    assert(start + Seq::<Seq<char>>::empty() =~= start);
    while i < skipped.len()
        invariant
            i <= skipped@.len(),
            string_views(out@) == start + skipped_lines(string_views(skipped@).take(i as int)),
        decreases skipped@.len() - i,
    {
        let ghost before = string_views(out@);
        out.push(skipped[i].clone());
        out.push(String::from_str("Hint: rerun with --force if you want to overwrite local changes"));
        out.push(String::new());
        let ghost t = string_views(skipped@).take(i + 1);
        assert(t.drop_last() =~= string_views(skipped@).take(i as int));
        assert(t.last() == skipped@[i as int]@);
        assert(string_views(out@) =~= before + seq![
            skipped@[i as int]@,
            force_hint_text(),
            Seq::<char>::empty(),
        ]);
        i = i + 1;
    }
    assert(string_views(skipped@).take(i as int) =~= string_views(skipped@));
}

/// Writes what `install` prints at the end.
pub fn install_summary(
    paths: &ProjectPaths,
    skills: &Vec<String>,
    agents: &Vec<String>,
    commands: &Vec<String>,
    skipped: &Vec<String>,
    notes: &Vec<String>,
) -> (r: Vec<String>)
    ensures
        string_views(r@) == summary_lines(
            *paths,
            string_views(skills@),
            string_views(agents@),
            string_views(commands@),
            string_views(skipped@),
            string_views(notes@),
        ),
{
    let mut out: Vec<String> = Vec::new();
    assert(string_views(out@) =~= Seq::<Seq<char>>::empty());
    push_summary_section(&mut out, ArtifactKind::Skill, paths.skills_dir.as_str(), skills);
    push_summary_section(&mut out, ArtifactKind::Agent, paths.agents_dir.as_str(), agents);
    push_summary_section(&mut out, ArtifactKind::Command, paths.commands_dir.as_str(), commands);
    append_lines(&mut out, notes);
    push_skipped(&mut out, skipped);
    let ghost before = string_views(out@);
    out.push(manifest_updated_line(paths.catalog_path.as_str()));
    assert(string_views(out@) =~= before.push(manifest_updated_text(paths.catalog_path@)));
    assert(string_views(out@) =~= summary_lines(
        *paths,
        string_views(skills@),
        string_views(agents@),
        string_views(commands@),
        string_views(skipped@),
        string_views(notes@),
    ));
    out
}

/// The note when the interactive selection was cancelled.
pub open spec fn nothing_selected_text() -> Seq<char> {
    "No artifacts selected for installation"@
}

/// Writes the note when the interactive selection was cancelled.
pub fn nothing_selected_note() -> (r: String)
    ensures
        r@ == nothing_selected_text(),
{
    String::from_str("No artifacts selected for installation")
}

/// The line printed for a problem discovery met.
pub open spec fn warning_text(issue: Seq<char>) -> Seq<char> {
    "Warning: "@ + issue
}

/// Writes the line printed for a problem discovery met.
pub fn warning_line(issue: &str) -> (r: String)
    ensures
        r@ == warning_text(issue@),
{
    concat2("Warning: ", issue)
}

} // verus!
