//! The entries of the project catalog: looking them up by name, recording
//! an install, and forgetting a removed artifact.
use vstd::prelude::*;

use crate::fs_ops::char_vecs;
use crate::models::{InstalledAgent, InstalledCommand, InstalledSkill};
use crate::sorting::{
    chars_lt, comps_lt, equal_to, keyed_view, lemma_chars_lt_irreflexive, lemma_contains_count, lemma_map_filter_len,
    lemma_stable_sort_counts, lemma_stable_sort_sorted, sort_keyed, stable_sort,
};
use crate::text::{chars_of, str_equals};

verus! {

/// A catalog entry for an installed artifact.
pub trait CatalogEntry: Sized {
    spec fn spec_entry_name(&self) -> Seq<char>;

    spec fn spec_installed_rel_path(&self) -> Seq<char>;

    spec fn spec_installed_hash(&self) -> Seq<char>;

    spec fn spec_source_rel_path(&self) -> Seq<char>;

    spec fn spec_source_hash(&self) -> Seq<char>;

    fn entry_name(&self) -> (r: &str)
        ensures
            r@ == self.spec_entry_name(),
    ;

    fn installed_rel_path(&self) -> (r: &str)
        ensures
            r@ == self.spec_installed_rel_path(),
    ;

    fn installed_hash(&self) -> (r: &str)
        ensures
            r@ == self.spec_installed_hash(),
    ;

    fn source_rel_path(&self) -> (r: &str)
        ensures
            r@ == self.spec_source_rel_path(),
    ;

    fn source_hash(&self) -> (r: &str)
        ensures
            r@ == self.spec_source_hash(),
    ;

    /// Records the hashes of a fresh copy.
    fn set_hashes(&mut self, source_hash: String, installed_hash: String)
        ensures
            final(self).spec_source_hash() == source_hash@,
            final(self).spec_installed_hash() == installed_hash@,
            final(self).spec_entry_name() == old(self).spec_entry_name(),
            final(self).spec_installed_rel_path() == old(self).spec_installed_rel_path(),
            final(self).spec_source_rel_path() == old(self).spec_source_rel_path(),
    ;
}

impl CatalogEntry for InstalledSkill {
    open spec fn spec_entry_name(&self) -> Seq<char> {
        self.name@
    }

    open spec fn spec_installed_rel_path(&self) -> Seq<char> {
        self.installed_rel_path@
    }

    open spec fn spec_installed_hash(&self) -> Seq<char> {
        self.installed_hash@
    }

    open spec fn spec_source_rel_path(&self) -> Seq<char> {
        self.source_rel_path@
    }

    open spec fn spec_source_hash(&self) -> Seq<char> {
        self.source_hash@
    }

    fn entry_name(&self) -> (r: &str) {
        self.name.as_str()
    }

    fn installed_rel_path(&self) -> (r: &str) {
        self.installed_rel_path.as_str()
    }

    fn installed_hash(&self) -> (r: &str) {
        self.installed_hash.as_str()
    }

    fn source_rel_path(&self) -> (r: &str) {
        self.source_rel_path.as_str()
    }

    fn source_hash(&self) -> (r: &str) {
        self.source_hash.as_str()
    }

    fn set_hashes(&mut self, source_hash: String, installed_hash: String)
        ensures
            *final(self) == (InstalledSkill { source_hash, installed_hash, ..*old(self) }),
    {
        self.source_hash = source_hash;
        self.installed_hash = installed_hash;
    }
}

impl CatalogEntry for InstalledAgent {
    open spec fn spec_entry_name(&self) -> Seq<char> {
        self.name@
    }

    open spec fn spec_installed_rel_path(&self) -> Seq<char> {
        self.installed_rel_path@
    }

    open spec fn spec_installed_hash(&self) -> Seq<char> {
        self.installed_hash@
    }

    open spec fn spec_source_rel_path(&self) -> Seq<char> {
        self.source_rel_path@
    }

    open spec fn spec_source_hash(&self) -> Seq<char> {
        self.source_hash@
    }

    fn entry_name(&self) -> (r: &str) {
        self.name.as_str()
    }

    fn installed_rel_path(&self) -> (r: &str) {
        self.installed_rel_path.as_str()
    }

    fn installed_hash(&self) -> (r: &str) {
        self.installed_hash.as_str()
    }

    fn source_rel_path(&self) -> (r: &str) {
        self.source_rel_path.as_str()
    }

    fn source_hash(&self) -> (r: &str) {
        self.source_hash.as_str()
    }

    fn set_hashes(&mut self, source_hash: String, installed_hash: String)
        ensures
            *final(self) == (InstalledAgent { source_hash, installed_hash, ..*old(self) }),
    {
        self.source_hash = source_hash;
        self.installed_hash = installed_hash;
    }
}

impl CatalogEntry for InstalledCommand {
    open spec fn spec_entry_name(&self) -> Seq<char> {
        self.name@
    }

    open spec fn spec_installed_rel_path(&self) -> Seq<char> {
        self.installed_rel_path@
    }

    open spec fn spec_installed_hash(&self) -> Seq<char> {
        self.installed_hash@
    }

    open spec fn spec_source_rel_path(&self) -> Seq<char> {
        self.source_rel_path@
    }

    open spec fn spec_source_hash(&self) -> Seq<char> {
        self.source_hash@
    }

    fn entry_name(&self) -> (r: &str) {
        self.name.as_str()
    }

    fn installed_rel_path(&self) -> (r: &str) {
        self.installed_rel_path.as_str()
    }

    fn installed_hash(&self) -> (r: &str) {
        self.installed_hash.as_str()
    }

    fn source_rel_path(&self) -> (r: &str) {
        self.source_rel_path.as_str()
    }

    fn source_hash(&self) -> (r: &str) {
        self.source_hash.as_str()
    }

    fn set_hashes(&mut self, source_hash: String, installed_hash: String)
        ensures
            *final(self) == (InstalledCommand { source_hash, installed_hash, ..*old(self) }),
    {
        self.source_hash = source_hash;
        self.installed_hash = installed_hash;
    }
}

/// The index of the first entry at or after `j` named `n`, or `s.len()`.
pub open spec fn first_named_from<E: CatalogEntry>(s: Seq<E>, n: Seq<char>, j: int) -> int
    decreases s.len() - j,
{
    if j >= s.len() {
        s.len() as int
    } else if s[j].spec_entry_name() == n {
        j
    } else {
        first_named_from(s, n, j + 1)
    }
}

/// The index of the first entry named `n`, or `s.len()` when none is.
pub open spec fn first_named<E: CatalogEntry>(s: Seq<E>, n: Seq<char>) -> int {
    first_named_from(s, n, 0)
}

/// `first_named_from` finds the first entry at or after `j` with the name,
/// and gives the length when there is none.
pub proof fn lemma_first_named_from<E: CatalogEntry>(s: Seq<E>, n: Seq<char>, j: int)
    requires
        0 <= j <= s.len(),
    ensures
        j <= first_named_from(s, n, j) <= s.len(),
        first_named_from(s, n, j) < s.len() ==> s[first_named_from(s, n, j)].spec_entry_name() == n,
        forall|k: int| j <= k < first_named_from(s, n, j) ==> s[k].spec_entry_name() != n,
    decreases s.len() - j,
{
    if j < s.len() && s[j].spec_entry_name() != n {
        lemma_first_named_from(s, n, j + 1);
    }
}

/// Finds the first entry named `n`.
pub fn find_named<E: CatalogEntry>(entries: &Vec<E>, n: &str) -> (r: Option<usize>)
    ensures
        match r {
            Some(i) => i == first_named(entries@, n@) && i < entries@.len(),
            None => first_named(entries@, n@) == entries@.len(),
        },
{
    let mut i: usize = 0;
    while i < entries.len()
        invariant
            i <= entries@.len(),
            first_named(entries@, n@) == first_named_from(entries@, n@, i as int),
        decreases entries@.len() - i,
    {
        if str_equals(entries[i].entry_name(), n) {
            return Some(i);
        }
        i = i + 1;
    }
    None
}

/// Entries paired with their names as sort keys.
pub open spec fn name_keyed<E: CatalogEntry>(s: Seq<E>) -> Seq<(Seq<Seq<char>>, E)> {
    s.map_values(|e: E| (seq![e.spec_entry_name()], e))
}

/// The items of keyed pairs.
pub open spec fn unkeyed<E>(s: Seq<(Seq<Seq<char>>, E)>) -> Seq<E> {
    s.map_values(|p: (Seq<Seq<char>>, E)| p.1)
}

/// The entries after recording `e`: it replaces the first entry with its
/// name; without one, it joins the entries, which are then sorted by name.
pub open spec fn upserted<E: CatalogEntry>(s: Seq<E>, e: E) -> Seq<E> {
    let i = first_named(s, e.spec_entry_name());
    if i < s.len() {
        s.update(i, e)
    } else {
        unkeyed(stable_sort(name_keyed(s.push(e))))
    }
}

/// Records an entry in a catalog list.
pub fn upsert<E: CatalogEntry>(entries: &mut Vec<E>, entry: E)
    ensures
        final(entries)@ == upserted(old(entries)@, entry),
{
    let ghost orig = entries@;
    match find_named(entries, entry.entry_name()) {
        Some(i) => {
            entries.remove(i);
            entries.insert(i, entry);
            assert(entries@ =~= orig.update(i as int, entry));
        },
        None => {
            entries.push(entry);
            let ghost pushed = entries@;
            let mut keyed: Vec<(Vec<Vec<char>>, E)> = Vec::new();
            let mut done: usize = 0;
            let n = entries.len();
            assert(keyed_view(keyed@) =~= name_keyed(pushed).take(0));
            while entries.len() > 0
                invariant
                    done + entries@.len() == pushed.len(),
                    pushed.len() == n,
                    entries@ == pushed.skip(done as int),
                    keyed_view(keyed@) == name_keyed(pushed).take(done as int),
                decreases entries@.len(),
            {
                let e = entries.remove(0);
                assert(e == pushed[done as int]);
                let mut key: Vec<Vec<char>> = Vec::new();
                key.push(chars_of(e.entry_name()));
                assert(char_vecs(key@) =~= seq![e.spec_entry_name()]);
                let ghost before = keyed_view(keyed@);
                keyed.push((key, e));
                assert(keyed_view(keyed@) =~= before.push((seq![e.spec_entry_name()], e)));
                assert(name_keyed(pushed).take(done + 1) =~= name_keyed(pushed).take(done as int).push(
                    (seq![e.spec_entry_name()], e),
                ));
                assert(entries@ =~= pushed.skip(done + 1));
                done = done + 1;
            }
            assert(name_keyed(pushed).take(done as int) =~= name_keyed(pushed));
            let mut sorted = sort_keyed(keyed);
            let ghost sv = keyed_view(sorted@);
            let m = sorted.len();
            let mut k: usize = 0;
            assert(entries@ =~= unkeyed(sv).take(0));
            while sorted.len() > 0
                invariant
                    k + sorted@.len() == sv.len(),
                    sv.len() == m,
                    keyed_view(sorted@) == sv.skip(k as int),
                    entries@ == unkeyed(sv).take(k as int),
                decreases sorted@.len(),
            {
                let ghost before = keyed_view(sorted@);
                let ghost before_raw = sorted@;
                let (_key, e) = sorted.remove(0);
                assert(sorted@ =~= before_raw.drop_first());
                assert(keyed_view(sorted@) =~= before.drop_first());
                assert(before[0].1 == e);
                assert(sv[k as int] == before[0]);
                entries.push(e);
                assert(entries@ =~= unkeyed(sv).take(k + 1));
                assert(keyed_view(sorted@) =~= sv.skip(k + 1));
                k = k + 1;
            }
            assert(unkeyed(sv).take(k as int) =~= unkeyed(sv));
        },
    }
}

/// Takes the first entry named `n` out of a catalog list.
pub fn remove_named<E: CatalogEntry>(entries: &mut Vec<E>, n: &str) -> (r: Option<E>)
    ensures
        ({
            let i = first_named(old(entries)@, n@);
            if i < old(entries)@.len() {
                r == Some(old(entries)@[i]) && final(entries)@ == old(entries)@.remove(i)
            } else {
                r.is_none() && final(entries)@ == old(entries)@
            }
        }),
{
    match find_named(entries, n) {
        Some(i) => Some(entries.remove(i)),
        None => None,
    }
}


/// The predicate of being named `n`.
pub open spec fn name_is<E: CatalogEntry>(n: Seq<char>) -> spec_fn(E) -> bool {
    |y: E| y.spec_entry_name() == n
}

/// How many entries are named `n`.
pub open spec fn named_count<E: CatalogEntry>(s: Seq<E>, n: Seq<char>) -> nat {
    s.filter(name_is::<E>(n)).len()
}

/// No two entries share a name.
pub open spec fn names_unique<E: CatalogEntry>(s: Seq<E>) -> bool {
    forall|n: Seq<char>| #[trigger] named_count(s, n) <= 1
}

proof fn lemma_first_named_is<E: CatalogEntry>(s: Seq<E>, n: Seq<char>, i: int)
    requires
        0 <= i < s.len(),
        s[i].spec_entry_name() == n,
        forall|k: int| 0 <= k < i ==> s[k].spec_entry_name() != n,
    ensures
        first_named(s, n) == i,
{
    lemma_first_named_from(s, n, 0);
}

proof fn lemma_none_named<E: CatalogEntry>(s: Seq<E>, n: Seq<char>)
    requires
        first_named(s, n) == s.len(),
    ensures
        named_count(s, n) == 0,
        forall|k: int| 0 <= k < s.len() ==> s[k].spec_entry_name() != n,
{
    lemma_first_named_from(s, n, 0);
    s.lemma_all_neg_filter_empty(name_is::<E>(n));
}

proof fn lemma_some_named<E: CatalogEntry>(s: Seq<E>, n: Seq<char>)
    requires
        named_count(s, n) > 0,
    ensures
        first_named(s, n) < s.len(),
{
    lemma_first_named_from(s, n, 0);
    if first_named(s, n) == s.len() {
        s.lemma_all_neg_filter_empty(name_is::<E>(n));
    }
}

/// Sorting entries by name after a push keeps the count of whatever holds
/// of them.
proof fn lemma_sorted_counts<E: CatalogEntry>(x: Seq<E>, p: spec_fn(E) -> bool)
    ensures
        unkeyed(stable_sort(name_keyed(x))).filter(p).len() == x.filter(p).len(),
        unkeyed(stable_sort(name_keyed(x))).len() == x.len(),
{
    let key = |e: E| (seq![e.spec_entry_name()], e);
    let snd = |kv: (Seq<Seq<char>>, E)| kv.1;
    let q = |kv: (Seq<Seq<char>>, E)| p(kv.1);
    let k = name_keyed(x);
    let sorted = stable_sort(k);
    lemma_map_filter_len(sorted, snd, p);
    assert((|kv: (Seq<Seq<char>>, E)| p(snd(kv))) =~= q);
    lemma_stable_sort_counts(k, q);
    lemma_map_filter_len(x, key, q);
    assert((|e: E| q(key(e))) =~= p);
}

proof fn lemma_update_same_name_counts<E: CatalogEntry>(s: Seq<E>, i: int, e: E, m: Seq<char>)
    requires
        0 <= i < s.len(),
        s[i].spec_entry_name() == e.spec_entry_name(),
    ensures
        named_count(s.update(i, e), m) == named_count(s, m),
{
    let p = name_is::<E>(m);
    let l = s.take(i);
    let r = s.skip(i + 1);
    assert(s =~= l.push(s[i]) + r);
    assert(s.update(i, e) =~= l.push(e) + r);
    Seq::filter_distributes_over_add(l.push(s[i]), r, p);
    Seq::filter_distributes_over_add(l.push(e), r, p);
    l.lemma_filter_push(s[i], p);
    l.lemma_filter_push(e, p);
}

proof fn lemma_remove_counts<E: CatalogEntry>(s: Seq<E>, i: int, m: Seq<char>)
    requires
        0 <= i < s.len(),
    ensures
        named_count(s, m) == named_count(s.remove(i), m) + if s[i].spec_entry_name() == m {
            1int
        } else {
            0int
        },
{
    let p = name_is::<E>(m);
    let l = s.take(i);
    let r = s.skip(i + 1);
    assert(s =~= l.push(s[i]) + r);
    assert(s.remove(i) =~= l + r);
    Seq::filter_distributes_over_add(l.push(s[i]), r, p);
    Seq::filter_distributes_over_add(l, r, p);
    l.lemma_filter_push(s[i], p);
}

/// Recording an entry and then looking its name up finds that entry.
pub proof fn lemma_upsert_records<E: CatalogEntry>(s: Seq<E>, e: E)
    ensures
        first_named(upserted(s, e), e.spec_entry_name()) < upserted(s, e).len(),
        upserted(s, e)[first_named(upserted(s, e), e.spec_entry_name())] == e,
{
    let n = e.spec_entry_name();
    let i = first_named(s, n);
    lemma_first_named_from(s, n, 0);
    if i < s.len() {
        lemma_first_named_is(s.update(i, e), n, i);
    } else {
        let x = s.push(e);
        let r = upserted(s, e);
        let byname = name_is::<E>(n);
        lemma_none_named(s, n);
        s.lemma_filter_push(e, byname);
        lemma_sorted_counts(x, byname);
        lemma_some_named(r, n);
        lemma_first_named_from(r, n, 0);
        let y = r[first_named(r, n)];
        lemma_contains_count(r, y);
        lemma_sorted_counts(x, equal_to(y));
        lemma_contains_count(x, y);
        if y != e {
            assert(x.contains(y));
            let k = choose|k: int| 0 <= k < x.len() && x[k] == y;
            assert(k < s.len());
            assert(s[k].spec_entry_name() != n);
        }
    }
}

/// Recording an entry keeps every entry under another name.
pub proof fn lemma_upsert_keeps_others<E: CatalogEntry>(s: Seq<E>, e: E, y: E)
    requires
        s.contains(y),
        y.spec_entry_name() != e.spec_entry_name(),
    ensures
        upserted(s, e).contains(y),
{
    let n = e.spec_entry_name();
    let i = first_named(s, n);
    lemma_first_named_from(s, n, 0);
    let k = choose|k: int| 0 <= k < s.len() && s[k] == y;
    if i < s.len() {
        assert(s.update(i, e)[k] == y);
    } else {
        let x = s.push(e);
        let r = upserted(s, e);
        assert(x[k] == y);
        lemma_contains_count(x, y);
        lemma_sorted_counts(x, equal_to(y));
        lemma_contains_count(r, y);
    }
}

/// Recording an entry keeps names unique in a catalog list where they are.
pub proof fn lemma_upsert_keeps_names_unique<E: CatalogEntry>(s: Seq<E>, e: E)
    requires
        names_unique(s),
    ensures
        names_unique(upserted(s, e)),
{
    let n = e.spec_entry_name();
    let i = first_named(s, n);
    lemma_first_named_from(s, n, 0);
    let r = upserted(s, e);
    assert forall|m: Seq<char>| #[trigger] named_count(r, m) <= 1 by {
        assert(named_count(s, m) <= 1);
        if i < s.len() {
            lemma_update_same_name_counts(s, i, e, m);
        } else {
            let byname = name_is::<E>(m);
            lemma_none_named(s, n);
            s.lemma_filter_push(e, byname);
            lemma_sorted_counts(s.push(e), byname);
        }
    }
}

/// Removing an artifact from a catalog list with unique names leaves no
/// entry under its name, and the names left unique.
pub proof fn lemma_removal_forgets<E: CatalogEntry>(s: Seq<E>, n: Seq<char>)
    requires
        names_unique(s),
        first_named(s, n) < s.len(),
    ensures
        named_count(s.remove(first_named(s, n)), n) == 0,
        first_named(s.remove(first_named(s, n)), n) == s.len() - 1,
        names_unique(s.remove(first_named(s, n))),
{
    let i = first_named(s, n);
    lemma_first_named_from(s, n, 0);
    let rest = s.remove(i);
    assert(named_count(s, n) <= 1);
    lemma_remove_counts(s, i, n);
    assert forall|m: Seq<char>| #[trigger] named_count(rest, m) <= 1 by {
        assert(named_count(s, m) <= 1);
        lemma_remove_counts(s, i, m);
    }
    lemma_first_named_from(rest, n, 0);
    if first_named(rest, n) < rest.len() {
        let j = first_named(rest, n);
        rest.lemma_filter_contains(name_is::<E>(n), j);
    }
}

/// The entries are in name order.
pub open spec fn names_sorted<E: CatalogEntry>(s: Seq<E>) -> bool {
    forall|i: int, j: int|
        0 <= i < j < s.len() ==> !chars_lt(#[trigger] s[j].spec_entry_name(), #[trigger] s[i].spec_entry_name())
}

/// The predicate of a keyed entry whose key is not its name.
pub open spec fn mis_keyed<E: CatalogEntry>() -> spec_fn((Seq<Seq<char>>, E)) -> bool {
    |kv: (Seq<Seq<char>>, E)| kv.0 != seq![kv.1.spec_entry_name()]
}

proof fn lemma_sorted_by_name<E: CatalogEntry>(x: Seq<E>)
    ensures
        names_sorted(unkeyed(stable_sort(name_keyed(x)))),
{
    let k = name_keyed(x);
    let sorted = stable_sort(k);
    let r = unkeyed(sorted);
    lemma_stable_sort_sorted(k);
    lemma_stable_sort_counts(k, mis_keyed::<E>());
    k.lemma_all_neg_filter_empty(mis_keyed::<E>());
    assert forall|m: int| 0 <= m < sorted.len() implies #[trigger] sorted[m].0 == seq![sorted[m].1.spec_entry_name()] by {
        if mis_keyed::<E>()(sorted[m]) {
            sorted.lemma_filter_contains(mis_keyed::<E>(), m);
        }
    }
    assert forall|i: int, j: int| 0 <= i < j < r.len() implies !chars_lt(
        #[trigger] r[j].spec_entry_name(),
        #[trigger] r[i].spec_entry_name(),
    ) by {
        assert(sorted[i].0 == seq![r[i].spec_entry_name()]);
        assert(sorted[j].0 == seq![r[j].spec_entry_name()]);
        assert(!comps_lt(sorted[j].0, sorted[i].0));
        let a = seq![r[j].spec_entry_name()];
        let b = seq![r[i].spec_entry_name()];
        if a[0] == b[0] {
            lemma_chars_lt_irreflexive(a[0]);
        }
    }
}

/// The catalog keeps each list in name order: recording an entry under a
/// new name sorts the list by name, and replacing an entry keeps the order
/// the list had.
pub proof fn lemma_upsert_sorted<E: CatalogEntry>(s: Seq<E>, e: E)
    requires
        first_named(s, e.spec_entry_name()) == s.len() || names_sorted(s),
    ensures
        names_sorted(upserted(s, e)),
{
    let n = e.spec_entry_name();
    let i = first_named(s, n);
    lemma_first_named_from(s, n, 0);
    if i < s.len() {
        let r = s.update(i, e);
        assert forall|a: int, b: int| 0 <= a < b < r.len() implies !chars_lt(
            #[trigger] r[b].spec_entry_name(),
            #[trigger] r[a].spec_entry_name(),
        ) by {
            assert(r[a].spec_entry_name() == s[a].spec_entry_name());
            assert(r[b].spec_entry_name() == s[b].spec_entry_name());
        }
    } else {
        lemma_sorted_by_name(s.push(e));
    }
}
} // verus!
