//! What discovery reports about a source library once it has walked it:
//! artifacts that share a name are withdrawn and reported, since installed
//! artifacts live in flat directories and names must not collide there.
use vstd::prelude::*;

use crate::models::{Artifact, Inspection};
use crate::fs_ops::{extension_of, name_extension, name_stem, stem_of};
use crate::fs_ops::char_vecs;
use crate::sorting::{
    chars_eq, chars_lt, comps_lt, equal_to, keyed_view, lemma_chars_lt_irreflexive, lemma_filter_filter, lemma_map_filter_len,
    lemma_remove_duplicates_distinct, lemma_stable_sort_all, lemma_stable_sort_counts, lemma_stable_sort_sorted, sort_keyed,
    stable_sort,
};
use crate::text::{chars_of, concat3, string_from_chars};

verus! {

/// The three kinds of artifact Hermes installs.
#[derive(Debug, Clone, Copy, PartialEq, Eq, Structural)]
pub enum ArtifactKind {
    Skill,
    Agent,
    Command,
}

/// The word for a kind in messages.
pub open spec fn kind_label(k: ArtifactKind) -> Seq<char> {
    match k {
        ArtifactKind::Skill => "skill"@,
        ArtifactKind::Agent => "agent"@,
        ArtifactKind::Command => "command"@,
    }
}

impl ArtifactKind {
    /// The word for the kind in messages.
    pub fn label(&self) -> (r: &'static str)
        ensures
            r@ == kind_label(*self),
    {
        match self {
            ArtifactKind::Skill => "skill",
            ArtifactKind::Agent => "agent",
            ArtifactKind::Command => "command",
        }
    }
}

/// The names of a sequence of artifacts.
pub open spec fn names_of<T: Artifact>(items: Seq<T>) -> Seq<Seq<char>> {
    items.map_values(|t: T| t.spec_name())
}

/// How many entries of `names` equal `n`.
pub open spec fn name_count(names: Seq<Seq<char>>, n: Seq<char>) -> nat {
    names.filter(equal_to(n)).len()
}

/// The artifacts whose name no other artifact of `items` shares.
pub open spec fn unique_items<T: Artifact>(items: Seq<T>) -> Seq<T> {
    items.filter(|t: T| name_count(names_of(items), t.spec_name()) == 1)
}

/// The names that more than one artifact of `items` has, each once, in the
/// order in which they first occur.
pub open spec fn duplicated_names<T: Artifact>(items: Seq<T>) -> Seq<Seq<char>> {
    names_of(items).filter(|n: Seq<char>| name_count(names_of(items), n) > 1).remove_duplicates(
        seq![],
    )
}

/// The relative paths of the artifacts named `n`, in order.
pub open spec fn paths_named<T: Artifact>(items: Seq<T>, n: Seq<char>) -> Seq<Seq<char>> {
    items.filter(|t: T| t.spec_name() == n).map_values(|t: T| t.spec_rel_path())
}

/// Sequences of characters joined by `", "`.
pub open spec fn join_comma(ls: Seq<Seq<char>>) -> Seq<char>
    decreases ls.len(),
{
    if ls.len() == 0 {
        seq![]
    } else if ls.len() == 1 {
        ls[0]
    } else {
        join_comma(ls.drop_last()) + ", "@ + ls.last()
    }
}

/// The issue reported for a name that several artifacts share.
pub open spec fn duplicate_issue(kind: ArtifactKind, n: Seq<char>, paths: Seq<Seq<char>>) -> Seq<char> {
    "duplicate "@ + kind_label(kind) + " name '"@ + n + "' found at: "@ + join_comma(paths)
}

/// The views of a vector of strings.
pub open spec fn string_views(v: Seq<String>) -> Seq<Seq<char>> {
    v.map_values(|s: String| s@)
}

proof fn lemma_filter_take_push<A>(s: Seq<A>, i: int, p: spec_fn(A) -> bool)
    requires
        0 <= i < s.len(),
    ensures
        s.take(i + 1).filter(p) == if p(s[i]) {
            s.take(i).filter(p).push(s[i])
        } else {
            s.take(i).filter(p)
        },
{
    assert(s.take(i + 1) =~= s.take(i).push(s[i]));
    s.take(i).lemma_filter_push(s[i], p);
}

/// After duplicates are withdrawn, no two artifacts left share a name.
pub proof fn lemma_kept_names_unique<T: Artifact>(items: Seq<T>, n: Seq<char>)
    ensures
        name_count(names_of(unique_items(items)), n) <= 1,
{
    let p = |t: T| name_count(names_of(items), t.spec_name()) == 1;
    let u = items.filter(p);
    let eqn = equal_to(n);
    let getname = |t: T| t.spec_name();
    let q = |t: T| eqn(getname(t));
    let pq = |x: T| p(x) && q(x);
    lemma_map_filter_len(u, getname, eqn);
    lemma_filter_filter(items, p, q);
    lemma_map_filter_len(items, getname, eqn);
    if name_count(names_of(items), n) == 1 {
        assert(pq =~= q);
    } else {
        assert forall|k: int| 0 <= k < items.len() implies !pq(items[k]) by {
            if q(items[k]) {
                assert(items[k].spec_name() == n);
            }
        }
        items.lemma_all_neg_filter_empty(pq);
    }
}

/// A name is reported as shared only when several artifacts have it, and
/// no artifact left after withdrawal has a name reported as shared.
pub proof fn lemma_duplicates_withdrawn<T: Artifact>(items: Seq<T>, n: Seq<char>)
    ensures
        duplicated_names(items).contains(n) ==> name_count(names_of(items), n) > 1,
        duplicated_names(items).no_duplicates(),
        forall|t: T| #[trigger] unique_items(items).contains(t) ==> !duplicated_names(items).contains(t.spec_name()),
{
    let pd = |m: Seq<char>| name_count(names_of(items), m) > 1;
    let pu = |t: T| name_count(names_of(items), t.spec_name()) == 1;
    let f = names_of(items).filter(pd);
    f.lemma_remove_duplicates_properties(seq![]);
    assert(f + Seq::<Seq<char>>::empty() =~= f);
    lemma_remove_duplicates_distinct(f, seq![]);
    if duplicated_names(items).contains(n) {
        names_of(items).lemma_filter_contains_rev(pd, n);
        let i = choose|i: int| 0 <= i < f.len() && f[i] == n;
        names_of(items).lemma_filter_pred(pd, i);
    }
    assert forall|t: T| #[trigger] unique_items(items).contains(t) implies !duplicated_names(items).contains(
        t.spec_name(),
    ) by {
        let i = choose|i: int| 0 <= i < items.filter(pu).len() && items.filter(pu)[i] == t;
        items.lemma_filter_pred(pu, i);
        if duplicated_names(items).contains(t.spec_name()) {
            let j = choose|j: int| 0 <= j < f.len() && f[j] == t.spec_name();
            names_of(items).lemma_filter_pred(pd, j);
        }
    }
}

/// How many of `names` equal `n`.
pub fn count_named(names: &Vec<String>, n: &str) -> (r: usize)
    ensures
        r == name_count(string_views(names@), n@),
{
    let ghost v = string_views(names@);
    let ghost p = equal_to(n@);
    let mut c: usize = 0;
    let mut i: usize = 0;
    assert(v.take(0) =~= Seq::<Seq<char>>::empty());
    assert(v.take(0).filter(p) =~= Seq::<Seq<char>>::empty()) by {
        reveal(Seq::filter);
    }
    while i < names.len()
        invariant
            i <= names@.len(),
            v == string_views(names@),
            p == equal_to(n@),
            c == v.take(i as int).filter(p).len(),
            c <= i,
        decreases names@.len() - i,
    {
        proof {
            lemma_filter_take_push(v, i as int, p);
        }
        if crate::text::str_equals(names[i].as_str(), n) {
            c = c + 1;
        }
        i = i + 1;
    }
    assert(v.take(names@.len() as int) =~= v);
    c
}

/// Strings joined by `", "`.
pub fn join_with_comma(parts: &Vec<String>) -> (r: String)
    ensures
        r@ == join_comma(string_views(parts@)),
{
    let ghost v = string_views(parts@);
    let mut r = String::new();
    let mut i: usize = 0;
    assert(v.take(0) =~= Seq::<Seq<char>>::empty());
    while i < parts.len()
        invariant
            i <= parts@.len(),
            v == string_views(parts@),
            r@ == join_comma(v.take(i as int)),
        decreases parts@.len() - i,
    {
        let ghost before = r@;
        if i > 0 {
            r.append(", ");
        }
        r.append(parts[i].as_str());
        proof {
            let t = v.take(i + 1);
            assert(t.drop_last() =~= v.take(i as int));
            assert(t.last() == parts@[i as int]@);
            if i == 0 {
                assert(t.len() == 1);
                assert(r@ =~= t[0]);
            }
        }
        i = i + 1;
    }
    assert(v.take(parts@.len() as int) =~= v);
    r
}

} // verus!

verus! {

/// The names of the artifacts, in order.
fn names_vec<T: Artifact>(items: &Vec<T>) -> (r: Vec<String>)
    ensures
        string_views(r@) == names_of(items@),
{
    let mut r: Vec<String> = Vec::new();
    let mut i: usize = 0;
    while i < items.len()
        invariant
            i <= items@.len(),
            string_views(r@) == names_of(items@).take(i as int),
        decreases items@.len() - i,
    {
        let ghost before = string_views(r@);
        r.push(String::from_str(items[i].name()));
        assert(string_views(r@) =~= before.push(items@[i as int].spec_name()));
        assert(names_of(items@).take(i + 1) =~= names_of(items@).take(i as int).push(
            items@[i as int].spec_name(),
        ));
        assert(string_views(r@) =~= names_of(items@).take(i + 1));
        i = i + 1;
    }
    assert(names_of(items@).take(items@.len() as int) =~= names_of(items@));
    r
}

/// The relative paths of the artifacts named `n`, in order.
fn paths_named_vec<T: Artifact>(items: &Vec<T>, n: &str) -> (r: Vec<String>)
    ensures
        string_views(r@) == paths_named(items@, n@),
{
    let ghost p = |t: T| t.spec_name() == n@;
    let ghost f = |t: T| t.spec_rel_path();
    let mut r: Vec<String> = Vec::new();
    let mut i: usize = 0;
    assert(items@.take(0).filter(p) =~= Seq::<T>::empty()) by {
        reveal(Seq::filter);
    }
    while i < items.len()
        invariant
            i <= items@.len(),
            p == (|t: T| t.spec_name() == n@),
            f == (|t: T| t.spec_rel_path()),
            string_views(r@) == items@.take(i as int).filter(p).map_values(f),
        decreases items@.len() - i,
    {
        proof {
            lemma_filter_take_push(items@, i as int, p);
        }
        if crate::text::str_equals(items[i].name(), n) {
            let ghost before = r@;
            r.push(String::from_str(items[i].rel_path()));
            assert(string_views(r@) =~= string_views(before).push(items@[i as int].spec_rel_path()));
            assert(items@.take(i + 1).filter(p).map_values(f) =~= items@.take(i as int).filter(
                p,
            ).map_values(f).push(f(items@[i as int])));
        }
        i = i + 1;
    }
    assert(items@.take(items@.len() as int) =~= items@);
    r
}

/// Whether `n` is among `v`.
fn contains_str(v: &Vec<String>, n: &str) -> (b: bool)
    ensures
        b == string_views(v@).contains(n@),
{
    let mut i: usize = 0;
    while i < v.len()
        invariant
            i <= v@.len(),
            forall|k: int| 0 <= k < i ==> v@[k]@ != n@,
        decreases v@.len() - i,
    {
        if crate::text::str_equals(v[i].as_str(), n) {
            assert(string_views(v@)[i as int] == n@);
            return true;
        }
        i = i + 1;
    }
    false
}

/// The issue for a name that several artifacts share.
fn duplicate_message(kind: ArtifactKind, n: &str, paths: &Vec<String>) -> (r: String)
    ensures
        r@ == duplicate_issue(kind, n@, string_views(paths@)),
{
    let joined = join_with_comma(paths);
    let mut r = concat3("duplicate ", kind.label(), " name '");
    r.append(n);
    r.append("' found at: ");
    r.append(joined.as_str());
    r
}

/// Withdraws the artifacts whose name another artifact shares, and records
/// each such name once, with an issue that lists where it was found.
pub fn deduplicate<T: Artifact>(inspection: &mut Inspection<T>, kind: ArtifactKind)
    ensures
        final(inspection).items@ == unique_items(old(inspection).items@),
        string_views(final(inspection).duplicate_names@) == string_views(
            old(inspection).duplicate_names@,
        ) + duplicated_names(old(inspection).items@),
        string_views(final(inspection).issues@) == string_views(old(inspection).issues@)
            + duplicated_names(old(inspection).items@).map_values(
            |n: Seq<char>| duplicate_issue(kind, n, paths_named(old(inspection).items@, n)),
        ),
{
    let ghost all = inspection.items@;
    let names = names_vec(&inspection.items);
    let ghost nv = names_of(all);
    let ghost pu = |t: T| name_count(names_of(all), t.spec_name()) == 1;
    let ghost pd = |n: Seq<char>| name_count(names_of(all), n) > 1;
    let ghost msg = |n: Seq<char>| duplicate_issue(kind, n, paths_named(all, n));
    let mut kept: Vec<T> = Vec::new();
    let mut dups: Vec<String> = Vec::new();
    let mut msgs: Vec<String> = Vec::new();
    let mut i: usize = 0;
    assert(all.take(0).filter(pu) =~= Seq::<T>::empty()) by {
        reveal(Seq::filter);
    }
    assert(nv.take(0).filter(pd) =~= Seq::<Seq<char>>::empty()) by {
        reveal(Seq::filter);
    }
    assert(Seq::<Seq<char>>::empty().remove_duplicates(seq![]) =~= Seq::<Seq<char>>::empty());
    while i < inspection.items.len()
        invariant
            inspection.items@ == all,
            i <= all.len(),
            nv == names_of(all),
            string_views(names@) == nv,
            pu == (|t: T| name_count(names_of(all), t.spec_name()) == 1),
            pd == (|n: Seq<char>| name_count(names_of(all), n) > 1),
            msg == (|n: Seq<char>| duplicate_issue(kind, n, paths_named(all, n))),
            kept@ == all.take(i as int).filter(pu),
            string_views(dups@) == nv.take(i as int).filter(pd).remove_duplicates(seq![]),
            string_views(msgs@) == string_views(dups@).map_values(msg),
        decreases all.len() - i,
    {
        let item = &inspection.items[i];
        assert(nv[i as int] == item.spec_name());
        proof {
            lemma_filter_take_push(all, i as int, pu);
            lemma_filter_take_push(nv, i as int, pd);
        }
        let c = count_named(&names, item.name());
        proof {
            nv.lemma_filter_contains(equal_to(item.spec_name()), i as int);
            let cf = nv.filter(equal_to(item.spec_name()));
            assert(cf.contains(nv[i as int]));
            assert(c == cf.len());
            assert(c >= 1);
            assert(pd(nv[i as int]) == (c > 1));
        }
        if c == 1 {
            kept.push(item.duplicate());
        } else {
            let ghost fs = nv.take(i as int).filter(pd);
            proof {
                fs.lemma_remove_duplicates_append(item.spec_name(), seq![]);
                fs.lemma_remove_duplicates_properties(seq![]);
                assert(fs + Seq::<Seq<char>>::empty() =~= fs);
                assert(fs + seq![item.spec_name()] =~= fs.push(item.spec_name()));
            }
            let present = contains_str(&dups, item.name());
            proof {
                assert(nv.take(i + 1).filter(pd) =~= fs.push(item.spec_name()));
                if present {
                    assert(nv.take(i + 1).filter(pd).remove_duplicates(seq![]) == fs.remove_duplicates(
                        seq![],
                    ));
                }
            }
            if !present {
                let paths = paths_named_vec(&inspection.items, item.name());
                let m = duplicate_message(kind, item.name(), &paths);
                let ghost before_d = string_views(dups@);
                let ghost before_m = string_views(msgs@);
                dups.push(String::from_str(item.name()));
                msgs.push(m);
                assert(string_views(dups@) =~= before_d + seq![item.spec_name()]);
                assert(string_views(msgs@) =~= before_m.push(msg(item.spec_name())));
                assert(string_views(msgs@) =~= string_views(dups@).map_values(msg));
            }
        }
        i = i + 1;
    }
    assert(all.take(all.len() as int) =~= all);
    assert(nv.take(all.len() as int) =~= nv);
    let ghost old_dups = string_views(inspection.duplicate_names@);
    let ghost old_issues = string_views(inspection.issues@);
    inspection.items = kept;
    let mut k: usize = 0;
    while k < dups.len()
        invariant
            k <= dups@.len(),
            dups@.len() == msgs@.len(),
            string_views(inspection.duplicate_names@) == old_dups + string_views(dups@).take(k as int),
            string_views(inspection.issues@) == old_issues + string_views(msgs@).take(k as int),
            inspection.items@ == all.filter(pu),
        decreases dups@.len() - k,
    {
        let ghost bd = string_views(inspection.duplicate_names@);
        let ghost bi = string_views(inspection.issues@);
        inspection.duplicate_names.push(dups[k].clone());
        inspection.issues.push(msgs[k].clone());
        assert(string_views(inspection.duplicate_names@) =~= bd.push(dups@[k as int]@));
        assert(string_views(inspection.issues@) =~= bi.push(msgs@[k as int]@));
        assert(string_views(dups@).take(k + 1) =~= string_views(dups@).take(k as int).push(dups@[k as int]@));
        assert(string_views(msgs@).take(k + 1) =~= string_views(msgs@).take(k as int).push(msgs@[k as int]@));
        assert(string_views(inspection.duplicate_names@) =~= old_dups + string_views(dups@).take(k + 1));
        assert(string_views(inspection.issues@) =~= old_issues + string_views(msgs@).take(k + 1));
        k = k + 1;
    }
    assert(string_views(dups@).take(dups@.len() as int) =~= string_views(dups@));
    assert(string_views(msgs@).take(msgs@.len() as int) =~= string_views(msgs@));
}

} // verus!

verus! {

/// A failure that can be told in words.
pub trait Problem: Sized {
    spec fn spec_text(&self) -> Seq<char>;

    fn message(&self) -> (r: String)
        ensures
            r@ == self.spec_text(),
    ;
}

/// What walking a source library gave for one entry that looked like an
/// artifact: its entry name, and the artifact or why it is invalid.
#[derive(Debug)]
pub struct Scanned<T, E> {
    pub entry_name: String,
    pub outcome: Result<T, E>,
}

/// The artifacts among the scan outcomes, in order.
pub open spec fn scanned_items<T, E>(scans: Seq<Scanned<T, E>>) -> Seq<T>
    decreases scans.len(),
{
    if scans.len() == 0 {
        seq![]
    } else {
        let rest = scanned_items(scans.drop_last());
        match scans.last().outcome {
            Ok(t) => rest.push(t),
            Err(_) => rest,
        }
    }
}

/// The issue for an invalid entry.
pub open spec fn invalid_issue(kind: ArtifactKind, entry: Seq<char>, text: Seq<char>) -> Seq<char> {
    "invalid "@ + kind_label(kind) + " '"@ + entry + "': "@ + text
}

/// The issues for the invalid entries among the scan outcomes, in order.
pub open spec fn scan_issues<T, E: Problem>(scans: Seq<Scanned<T, E>>, kind: ArtifactKind) -> Seq<Seq<char>>
    decreases scans.len(),
{
    if scans.len() == 0 {
        seq![]
    } else {
        let rest = scan_issues(scans.drop_last(), kind);
        match scans.last().outcome {
            Ok(_) => rest,
            Err(e) => rest.push(invalid_issue(kind, scans.last().entry_name@, e.spec_text())),
        }
    }
}

/// The inspection of a source library from its scan outcomes: the valid
/// artifacts, an issue per invalid entry, then duplicate names withdrawn.
pub fn inspect<T: Artifact, E: Problem>(scans: Vec<Scanned<T, E>>, kind: ArtifactKind) -> (r: Inspection<T>)
    ensures
        r.items@ == unique_items(scanned_items(scans@)),
        string_views(r.duplicate_names@) == duplicated_names(scanned_items(scans@)),
        string_views(r.issues@) == scan_issues(scans@, kind) + duplicated_names(scanned_items(scans@)).map_values(
            |n: Seq<char>| duplicate_issue(kind, n, paths_named(scanned_items(scans@), n)),
        ),
{
    let ghost all = scans@;
    let n = scans.len();
    let mut rest = scans;
    let mut inspection: Inspection<T> = Inspection::new();
    let mut done: usize = 0;
    assert(all.take(0) =~= Seq::<Scanned<T, E>>::empty());
    assert(string_views(inspection.issues@) =~= Seq::<Seq<char>>::empty());
    while rest.len() > 0
        invariant
            done + rest@.len() == all.len(),
            all.len() == n,
            rest@ == all.skip(done as int),
            inspection.items@ == scanned_items(all.take(done as int)),
            string_views(inspection.issues@) == scan_issues(all.take(done as int), kind),
            inspection.duplicate_names@.len() == 0,
        decreases rest@.len(),
    {
        let ghost before = rest@;
        let s = rest.remove(0);
        assert(rest@ =~= all.skip(done + 1));
        assert(s == all[done as int]);
        assert(all.take(done + 1).drop_last() =~= all.take(done as int));
        let ghost bi = string_views(inspection.issues@);
        match s.outcome {
            Ok(t) => {
                inspection.items.push(t);
            },
            Err(e) => {
                let text = e.message();
                let mut m = concat3("invalid ", kind.label(), " '");
                m.append(s.entry_name.as_str());
                m.append("': ");
                m.append(text.as_str());
                inspection.issues.push(m);
                assert(string_views(inspection.issues@) =~= bi.push(
                    invalid_issue(kind, s.entry_name@, e.spec_text()),
                ));
            },
        }
        done = done + 1;
    }
    assert(all.take(n as int) =~= all);
    assert(string_views(inspection.duplicate_names@) =~= Seq::<Seq<char>>::empty());
    deduplicate(&mut inspection, kind);
    inspection
}

} // verus!

verus! {

/// The kind of a directory entry, not following symbolic links.
#[derive(Debug, Clone, Copy, PartialEq, Eq, Structural)]
pub enum EntryKind {
    File,
    Dir,
    Other,
}

/// What a walk of a source library does with one entry.
#[derive(Debug, Clone, Copy, PartialEq, Eq, Structural)]
pub enum WalkAction {
    /// Read the entry as an artifact.
    Parse,
    /// Walk into the directory.
    Descend,
    /// Pass over the entry.
    Skip,
}

/// The walk of an agents or commands library: a file whose name has the
/// extension `md` is an artifact; every directory is walked into.
pub fn markdown_entry_action(kind: EntryKind, name: Option<&str>) -> (a: WalkAction)
    ensures
        a == (match kind {
            EntryKind::Dir => WalkAction::Descend,
            EntryKind::File => if name matches Some(n) && name_extension(n@) == Some("md"@) {
                WalkAction::Parse
            } else {
                WalkAction::Skip
            },
            EntryKind::Other => WalkAction::Skip,
        }),
{
    match kind {
        EntryKind::Dir => WalkAction::Descend,
        EntryKind::Other => WalkAction::Skip,
        EntryKind::File => match name {
            None => WalkAction::Skip,
            Some(n) => {
                let v = chars_of(n);
                match extension_of(&v) {
                    Some(e) => {
                        let md = chars_of("md");
                        if chars_eq(&e, &md) {
                            WalkAction::Parse
                        } else {
                            WalkAction::Skip
                        }
                    },
                    None => WalkAction::Skip,
                }
            },
        },
    }
}

/// The stem of a file name, as a string.
pub fn file_stem(name: &str) -> (r: String)
    ensures
        r@ == name_stem(name@),
{
    let v = chars_of(name);
    let s = stem_of(&v);
    string_from_chars(&s)
}


/// The positions of a directory's entries in the order they are visited:
/// sorted by file name, stably.
pub open spec fn name_order(names: Seq<Seq<char>>) -> Seq<usize> {
    stable_sort(Seq::new(names.len(), |i: int| (seq![names[i]], i as usize))).map_values(
        |p: (Seq<Seq<char>>, usize)| p.1,
    )
}

/// The order in which to visit the entries of a directory, given their file
/// names: their positions, sorted by name.
pub fn entry_order(names: &Vec<String>) -> (order: Vec<usize>)
    ensures
        order@ == name_order(string_views(names@)),
        order@.len() == names@.len(),
        forall|i: int| 0 <= i < order@.len() ==> #[trigger] order@[i] < names@.len(),
        forall|i: int, j: int|
            0 <= i < j < order@.len() ==> !chars_lt(
                #[trigger] names@[order@[j] as int]@,
                #[trigger] names@[order@[i] as int]@,
            ),
{
    let ghost nv = string_views(names@);
    let ghost keyed_spec = Seq::new(nv.len(), |i: int| (seq![nv[i]], i as usize));
    let mut keyed: Vec<(Vec<Vec<char>>, usize)> = Vec::new();
    let mut i: usize = 0;
    while i < names.len()
        invariant
            i <= names@.len(),
            nv == string_views(names@),
            keyed_spec == Seq::new(nv.len(), |i: int| (seq![nv[i]], i as usize)),
            keyed_view(keyed@) == keyed_spec.take(i as int),
        decreases names@.len() - i,
    {
        let mut key: Vec<Vec<char>> = Vec::new();
        key.push(chars_of(names[i].as_str()));
        assert(char_vecs(key@) =~= seq![nv[i as int]]);
        let ghost before = keyed_view(keyed@);
        keyed.push((key, i));
        assert(keyed_view(keyed@) =~= before.push(keyed_spec[i as int]));
        assert(keyed_spec.take(i + 1) =~= keyed_spec.take(i as int).push(keyed_spec[i as int]));
        i = i + 1;
    }
    assert(keyed_spec.take(names@.len() as int) =~= keyed_spec);
    let sorted = sort_keyed(keyed);
    let ghost sv = keyed_view(sorted@);
    let mut order: Vec<usize> = Vec::new();
    let mut k: usize = 0;
    while k < sorted.len()
        invariant
            k <= sorted@.len(),
            sv == keyed_view(sorted@),
            order@ == sv.take(k as int).map_values(|p: (Seq<Seq<char>>, usize)| p.1),
        decreases sorted@.len() - k,
    {
        order.push(sorted[k].1);
        assert(sv.take(k + 1) =~= sv.take(k as int).push(sv[k as int]));
        assert(order@ =~= sv.take(k + 1).map_values(|p: (Seq<Seq<char>>, usize)| p.1));
        k = k + 1;
    }
    assert(sv.take(sorted@.len() as int) =~= sv);
    proof {
        let good = |p: (Seq<Seq<char>>, usize)| p.1 < nv.len() && p.0 == seq![nv[p.1 as int]];
        lemma_stable_sort_all(keyed_spec, good);
        lemma_stable_sort_counts(keyed_spec, |p: (Seq<Seq<char>>, usize)| true);
        lemma_stable_sort_sorted(keyed_spec);
        assert forall|i: int, j: int| 0 <= i < j < order@.len() implies !chars_lt(
            #[trigger] names@[order@[j] as int]@,
            #[trigger] names@[order@[i] as int]@,
        ) by {
            let a = nv[order@[j] as int];
            let b = nv[order@[i] as int];
            assert(good(sv[i]) && good(sv[j]));
            assert(!comps_lt(sv[j].0, sv[i].0));
            if chars_lt(a, b) {
                lemma_chars_lt_irreflexive(a);
                reveal_with_fuel(comps_lt, 2);
                assert(seq![a].drop_first() =~= Seq::<Seq<char>>::empty());
                assert(seq![b].drop_first() =~= Seq::<Seq<char>>::empty());
                assert(comps_lt(seq![a], seq![b]));
            }
        }
        assert forall|i: int| 0 <= i < order@.len() implies #[trigger] order@[i] < names@.len() by {
            assert(good(sv[i]));
        }
    }
    order
}
} // verus!
