//! The folder tree that the interactive selection shows: artifacts grouped by
//! the folders of their source paths, with folder check states that follow
//! the leaves below them.
use vstd::prelude::*;

use crate::fs_ops::{char_vecs, components_from, path_components};
use crate::models::Artifact;
use crate::sorting::{
    chars_eq, keyed_view, keys_sorted, lemma_stable_sort_counts, lemma_stable_sort_sorted, sort_keyed, stable_sort,
};
use crate::text::{chars_of, extend_from_range, string_from_chars};

verus! {

/// One row of the tree: a folder, or a leaf that holds an artifact.
#[derive(Debug)]
pub struct TreeRow<T> {
    pub depth: usize,
    pub is_folder: bool,
    pub name: String,
    pub selected: bool,
    pub partial: bool,
    pub leaf: Option<T>,
}

/// The shape of a row: depth, whether it is a folder, name and artifact.
pub open spec fn row_view<T>(r: TreeRow<T>) -> (int, bool, Seq<char>, Option<T>) {
    (r.depth as int, r.is_folder, r.name@, r.leaf)
}

/// The shapes of rows.
pub open spec fn rows_view<T>(rows: Seq<TreeRow<T>>) -> Seq<(int, bool, Seq<char>, Option<T>)> {
    rows.map_values(|r: TreeRow<T>| row_view(r))
}

/// The number of leading components that `a` and `b` share.
pub open spec fn lcp(a: Seq<Seq<char>>, b: Seq<Seq<char>>) -> nat
    decreases a.len(),
{
    if a.len() == 0 || b.len() == 0 || a[0] != b[0] {
        0
    } else {
        1 + lcp(a.drop_first(), b.drop_first())
    }
}

/// Folder rows for `folders[from..]`, each at the depth of its position.
pub open spec fn folder_rows<T>(folders: Seq<Seq<char>>, from: int) -> Seq<
    (int, bool, Seq<char>, Option<T>),
> {
    Seq::new(
        (folders.len() - from) as nat,
        |i: int| (from + i, true, folders[from + i], None::<T>),
    )
}

/// The rows one artifact adds after an artifact whose folders were `prev`:
/// the folders it does not share with `prev`, then its own leaf.
pub open spec fn item_rows<T>(prev: Seq<Seq<char>>, cs: Seq<Seq<char>>, name: Seq<char>, item: T) -> Seq<
    (int, bool, Seq<char>, Option<T>),
> {
    let folders = cs.drop_last();
    folder_rows::<T>(folders, lcp(prev, folders) as int).push(
        (cs.len() - 1, false, name, Some(item)),
    )
}

/// The rows for artifacts in the order given, each paired with the sort key
/// of its path; `prev` holds the folders of the artifact before them.
/// Artifacts with an empty path add no row.
pub open spec fn tree_rows<T: Artifact>(items: Seq<(Seq<Seq<char>>, T)>, prev: Seq<Seq<char>>) -> Seq<
    (int, bool, Seq<char>, Option<T>),
>
    decreases items.len(),
{
    if items.len() == 0 {
        seq![]
    } else {
        let cs = key_components(items[0].0);
        if cs.len() == 0 {
            tree_rows(items.drop_first(), prev)
        } else {
            item_rows(prev, cs, items[0].1.spec_name(), items[0].1) + tree_rows(
                items.drop_first(),
                cs.drop_last(),
            )
        }
    }
}

/// The component a path starts with, as `Path::components` gives it: the
/// root `/` of an absolute path, or `.` for a path that is `.` or begins
/// with `./`; nothing otherwise.
pub open spec fn path_start(s: Seq<char>) -> Seq<Seq<char>> {
    if s.len() > 0 && s[0] == '/' {
        seq!["/"@]
    } else if s.len() > 0 && s[0] == '.' && (s.len() == 1 || s[1] == '/') {
        seq!["."@]
    } else {
        seq![]
    }
}

/// The components of a path as `Path::iter` names them: its start, then its
/// names and `..`s.
pub open spec fn tree_components(s: Seq<char>) -> Seq<Seq<char>> {
    path_start(s) + path_components(s)
}

/// The sort key of a component: its kind first, in the order in which
/// `Path` compares components (root, `.`, `..`, a name), then the
/// characters of a name.
pub open spec fn component_key(c: Seq<char>) -> Seq<char> {
    if c == "/"@ {
        seq!['\u{0}']
    } else if c == "."@ {
        seq!['\u{1}']
    } else if c == ".."@ {
        seq!['\u{2}']
    } else {
        seq!['\u{3}'] + c
    }
}

/// The component that a sort key stands for.
pub open spec fn key_component(k: Seq<char>) -> Seq<char> {
    if k == seq!['\u{0}'] {
        "/"@
    } else if k == seq!['\u{1}'] {
        "."@
    } else if k == seq!['\u{2}'] {
        ".."@
    } else if k.len() > 0 {
        k.drop_first()
    } else {
        k
    }
}

/// The sort key of a path: the keys of its components. Keys compare by
/// `comps_lt` as `Path` compares the paths.
pub open spec fn path_key(s: Seq<char>) -> Seq<Seq<char>> {
    tree_components(s).map_values(|c: Seq<char>| component_key(c))
}

/// The components that a path's sort key stands for.
pub open spec fn key_components(k: Seq<Seq<char>>) -> Seq<Seq<char>> {
    k.map_values(|c: Seq<char>| key_component(c))
}

/// A row shows the components of its path: the key of a path stands for
/// its components.
pub proof fn lemma_key_components(s: Seq<char>)
    ensures
        key_components(path_key(s)) == tree_components(s),
{
    reveal_strlit("/");
    reveal_strlit(".");
    reveal_strlit("..");
    assert("/"@[0] != "."@[0] && "."@.len() != ".."@.len());
    let cs = tree_components(s);
    assert forall|i: int| 0 <= i < cs.len() implies key_component(component_key(#[trigger] cs[i])) == cs[i] by {
        let c = cs[i];
        let k = component_key(c);
        if c != "/"@ && c != "."@ && c != ".."@ {
            assert(k[0] == '\u{3}');
            assert(k != seq!['\u{0}']) by {
                assert(seq!['\u{0}'][0] == '\u{0}');
            }
            assert(k != seq!['\u{1}']) by {
                assert(seq!['\u{1}'][0] == '\u{1}');
            }
            assert(k != seq!['\u{2}']) by {
                assert(seq!['\u{2}'][0] == '\u{2}');
            }
            assert(k.drop_first() =~= c);
        } else if c == "."@ {
            assert(k != seq!['\u{0}']) by {
                assert(k[0] == '\u{1}');
            }
        } else if c == ".."@ {
            assert(k != seq!['\u{0}']) by {
                assert(k[0] == '\u{2}');
            }
            assert(k != seq!['\u{1}']) by {
                assert(k[0] == '\u{2}');
            }
        }
    }
    assert(key_components(path_key(s)) =~= cs);
}

/// Artifacts paired with the sort keys of their paths.
pub open spec fn path_keyed<T: Artifact>(items: Seq<T>) -> Seq<(Seq<Seq<char>>, T)> {
    items.map_values(|t: T| (path_key(t.spec_rel_path()), t))
}

/// The tree of `items`: sorted by path, then laid out by `tree_rows`.
pub open spec fn tree_of<T: Artifact>(items: Seq<T>) -> Seq<(int, bool, Seq<char>, Option<T>)> {
    tree_rows(stable_sort(path_keyed(items)), seq![])
}

proof fn lemma_lcp<T>(a: Seq<Seq<char>>, b: Seq<Seq<char>>)
    ensures
        lcp(a, b) <= a.len(),
        lcp(a, b) <= b.len(),
        a.take(lcp(a, b) as int) == b.take(lcp(a, b) as int),
    decreases a.len(),
{
    if a.len() == 0 || b.len() == 0 || a[0] != b[0] {
        assert(a.take(0) =~= b.take(0));
    } else {
        lemma_lcp::<T>(a.drop_first(), b.drop_first());
        let n = lcp(a, b) as int;
        assert(a.take(n) =~= seq![a[0]] + a.drop_first().take(n - 1));
        assert(b.take(n) =~= seq![b[0]] + b.drop_first().take(n - 1));
    }
}

proof fn lemma_lcp_step(a: Seq<Seq<char>>, b: Seq<Seq<char>>, i: int)
    requires
        0 <= i < a.len(),
        i < b.len(),
        a[i] == b[i],
        lcp(a, b) == i + lcp(a.skip(i), b.skip(i)),
    ensures
        lcp(a, b) == i + 1 + lcp(a.skip(i + 1), b.skip(i + 1)),
{
    assert(a.skip(i).drop_first() =~= a.skip(i + 1));
    assert(b.skip(i).drop_first() =~= b.skip(i + 1));
}

fn copy_chars(v: &Vec<char>) -> (r: Vec<char>)
    ensures
        r@ == v@,
{
    let mut r: Vec<char> = Vec::new();
    extend_from_range(&mut r, v, 0, v.len());
    assert(r@ =~= v@);
    r
}

/// The components of a path, as `tree_components` gives them.
fn tree_components_of(s: &Vec<char>) -> (r: Vec<Vec<char>>)
    ensures
        char_vecs(r@) == tree_components(s@),
{
    let mut r = components_from(s);
    let ghost rest = char_vecs(r@);
    if s.len() > 0 && s[0] == '/' {
        r.insert(0, chars_of("/"));
        assert(char_vecs(r@) =~= seq!["/"@] + rest);
    } else if s.len() > 0 && s[0] == '.' && (s.len() == 1 || s[1] == '/') {
        r.insert(0, chars_of("."));
        assert(char_vecs(r@) =~= seq!["."@] + rest);
    } else {
        assert(char_vecs(r@) =~= Seq::<Seq<char>>::empty() + rest);
    }
    r
}

/// The sort key of one component.
fn key_of_component(c: &Vec<char>) -> (k: Vec<char>)
    ensures
        k@ == component_key(c@),
{
    let mut k: Vec<char> = Vec::new();
    if chars_eq(c, &chars_of("/")) {
        k.push('\u{0}');
        assert(k@ =~= seq!['\u{0}']);
    } else if chars_eq(c, &chars_of(".")) {
        k.push('\u{1}');
        assert(k@ =~= seq!['\u{1}']);
    } else if chars_eq(c, &chars_of("..")) {
        k.push('\u{2}');
        assert(k@ =~= seq!['\u{2}']);
    } else {
        k.push('\u{3}');
        extend_from_range(&mut k, c, 0, c.len());
        assert(k@ =~= seq!['\u{3}'] + c@);
    }
    k
}

/// The component that one key stands for.
fn component_of_key(k: &Vec<char>) -> (c: Vec<char>)
    ensures
        c@ == key_component(k@),
{
    if k.len() == 1 && k[0] == '\u{0}' {
        assert(k@ =~= seq!['\u{0}']);
        chars_of("/")
    } else if k.len() == 1 && k[0] == '\u{1}' {
        assert(k@ =~= seq!['\u{1}']);
        chars_of(".")
    } else if k.len() == 1 && k[0] == '\u{2}' {
        assert(k@ =~= seq!['\u{2}']);
        chars_of("..")
    } else {
        assert(k@ != seq!['\u{0}'] && k@ != seq!['\u{1}'] && k@ != seq!['\u{2}']) by {
            if k@.len() == 1 {
                assert(seq!['\u{0}'][0] == '\u{0}');
                assert(seq!['\u{1}'][0] == '\u{1}');
                assert(seq!['\u{2}'][0] == '\u{2}');
            }
        }
        let mut c: Vec<char> = Vec::new();
        if k.len() > 0 {
            extend_from_range(&mut c, k, 1, k.len());
            assert(c@ =~= k@.drop_first());
        } else {
            assert(c@ =~= k@);
        }
        c
    }
}

/// The sort keys of components.
fn keys_of_components(cs: &Vec<Vec<char>>) -> (r: Vec<Vec<char>>)
    ensures
        char_vecs(r@) == char_vecs(cs@).map_values(|c: Seq<char>| component_key(c)),
{
    let mut r: Vec<Vec<char>> = Vec::new();
    let mut i: usize = 0;
    while i < cs.len()
        invariant
            i <= cs@.len(),
            char_vecs(r@) == char_vecs(cs@).take(i as int).map_values(|c: Seq<char>| component_key(c)),
        decreases cs@.len() - i,
    {
        let ghost before = char_vecs(r@);
        r.push(key_of_component(&cs[i]));
        assert(char_vecs(cs@).take(i + 1) =~= char_vecs(cs@).take(i as int).push(cs@[i as int]@));
        assert(char_vecs(r@) =~= before.push(component_key(cs@[i as int]@)));
        i = i + 1;
    }
    assert(char_vecs(cs@).take(cs@.len() as int) =~= char_vecs(cs@));
    r
}

/// The components that sort keys stand for.
fn components_of_keys(ks: &Vec<Vec<char>>) -> (r: Vec<Vec<char>>)
    ensures
        char_vecs(r@) == key_components(char_vecs(ks@)),
{
    let mut r: Vec<Vec<char>> = Vec::new();
    let mut i: usize = 0;
    while i < ks.len()
        invariant
            i <= ks@.len(),
            char_vecs(r@) == key_components(char_vecs(ks@).take(i as int)),
        decreases ks@.len() - i,
    {
        let ghost before = char_vecs(r@);
        r.push(component_of_key(&ks[i]));
        assert(char_vecs(ks@).take(i + 1) =~= char_vecs(ks@).take(i as int).push(ks@[i as int]@));
        assert(char_vecs(r@) =~= before.push(key_component(ks@[i as int]@)));
        i = i + 1;
    }
    assert(char_vecs(ks@).take(ks@.len() as int) =~= char_vecs(ks@));
    r
}

/// Lays out artifacts as a tree of folder rows and leaf rows, ordered by path.
pub fn build_tree<T: Artifact>(items: Vec<T>) -> (rows: Vec<TreeRow<T>>)
    ensures
        rows_view(rows@) == tree_of(items@),
        forall|i: int| 0 <= i < rows@.len() ==> !(#[trigger] rows@[i]).selected && !rows@[i].partial,
{
    let ghost keyed_spec = path_keyed(items@);
    let n = items.len();
    let mut rest = items;
    let mut keyed: Vec<(Vec<Vec<char>>, T)> = Vec::new();
    let mut done: usize = 0;
    assert(keyed_view(keyed@) =~= keyed_spec.take(0));
    while rest.len() > 0
        invariant
            done + rest@.len() == keyed_spec.len(),
            keyed_spec.len() == n,
            keyed_spec.skip(done as int) == path_keyed(rest@),
            keyed_view(keyed@) == keyed_spec.take(done as int),
        decreases rest@.len(),
    {
        let ghost before = rest@;
        let t = rest.remove(0);
        assert(path_keyed(rest@) =~= path_keyed(before).drop_first());
        let s = chars_of(t.rel_path());
        let key = keys_of_components(&tree_components_of(&s));
        assert(keyed_spec[done as int] == keyed_spec.skip(done as int)[0]);
        assert(path_keyed(before)[0] == (path_key(t.spec_rel_path()), t));
        let ghost old_kv = keyed_view(keyed@);
        keyed.push((key, t));
        assert(keyed_view(keyed@) =~= old_kv.push((char_vecs(key@), t)));
        assert(keyed_spec.take(done + 1) =~= keyed_spec.take(done as int).push(keyed_spec[done as int]));
        assert(keyed_view(keyed@) =~= keyed_spec.take(done + 1));
        assert(keyed_spec.skip(done + 1) =~= keyed_spec.skip(done as int).drop_first());
        done = done + 1;
    }
    assert(keyed_spec.take(done as int) =~= keyed_spec);
    let sorted = sort_keyed(keyed);
    let ghost all = keyed_view(sorted@);
    let mut rest = sorted;
    let mut rows: Vec<TreeRow<T>> = Vec::new();
    let mut stack: Vec<Vec<char>> = Vec::new();
    assert(rows_view(rows@) =~= Seq::<(int, bool, Seq<char>, Option<T>)>::empty());
    assert(char_vecs(stack@) =~= Seq::<Seq<char>>::empty());
    assert(keyed_view(rest@) == all);
    assert(rows_view(rows@) + tree_rows(keyed_view(rest@), char_vecs(stack@)) =~= tree_rows(all, seq![]));
    while rest.len() > 0
        invariant
            rows_view(rows@) + tree_rows(keyed_view(rest@), char_vecs(stack@)) == tree_rows(all, seq![]),
            forall|i: int| 0 <= i < rows@.len() ==> !(#[trigger] rows@[i]).selected && !rows@[i].partial,
        decreases rest@.len(),
    {
        let ghost rv = keyed_view(rest@);
        let (key, item) = rest.remove(0);
        assert(keyed_view(rest@) =~= rv.drop_first());
        assert(rv[0] == (char_vecs(key@), item));
        let cs = components_of_keys(&key);
        let ghost csv = char_vecs(cs@);
        if cs.len() == 0 {
            assert(csv.len() == 0);
        } else {
            let ghost folders = csv.drop_last();
            let ghost sv = char_vecs(stack@);
            let ghost before_rows = rows_view(rows@);
            let nf = cs.len() - 1;
            let mut common: usize = 0;
            assert(sv.skip(0) =~= sv);
            assert(folders.skip(0) =~= folders);
            while common < stack.len() && common < nf && chars_eq(&stack[common], &cs[common])
                invariant
                    common <= stack@.len(),
                    common <= nf,
                    nf == cs@.len() - 1,
                    sv == char_vecs(stack@),
                    csv == char_vecs(cs@),
                    folders == csv.drop_last(),
                    lcp(sv, folders) == common + lcp(sv.skip(common as int), folders.skip(common as int)),
                decreases nf - common,
            {
                proof {
                    lemma_lcp_step(sv, folders, common as int);
                }
                common = common + 1;
            }
            assert(lcp(sv.skip(common as int), folders.skip(common as int)) == 0);
            assert(lcp(sv, folders) == common);
            proof {
                lemma_lcp::<T>(sv, folders);
            }
            stack.truncate(common);
            assert(char_vecs(stack@) =~= folders.take(common as int));
            let mut i = common;
            while i < nf
                invariant
                    common <= i <= nf,
                    nf == cs@.len() - 1,
                    csv == char_vecs(cs@),
                    folders == csv.drop_last(),
                    char_vecs(stack@) == folders.take(i as int),
                    rows_view(rows@) == before_rows + folder_rows::<T>(folders, common as int).take(
                        i - common,
                    ),
                    forall|k: int| 0 <= k < rows@.len() ==> !(#[trigger] rows@[k]).selected && !rows@[k].partial,
                decreases nf - i,
            {
                let name = string_from_chars(&cs[i]);
                let ghost old_rows = rows@;
                rows.push(
                    TreeRow {
                        depth: i,
                        is_folder: true,
                        name,
                        selected: false,
                        partial: false,
                        leaf: None,
                    },
                );
                assert(folders[i as int] == cs@[i as int]@);
                assert(rows_view(rows@) =~= rows_view(old_rows).push((i as int, true, folders[i as int], None::<T>)));
                assert(folder_rows::<T>(folders, common as int).take(i + 1 - common) =~= folder_rows::<T>(
                    folders,
                    common as int,
                ).take(i - common).push((i as int, true, folders[i as int], None::<T>)));
                assert(rows_view(rows@) =~= before_rows + folder_rows::<T>(folders, common as int).take(
                    i + 1 - common,
                ));
                let ghost old_stack = char_vecs(stack@);
                let copied = copy_chars(&cs[i]);
                stack.push(copied);
                assert(char_vecs(stack@) =~= old_stack.push(folders[i as int]));
                assert(folders.take(i + 1) =~= folders.take(i as int).push(folders[i as int]));
                assert(char_vecs(stack@) =~= folders.take(i + 1));
                i = i + 1;
            }
            assert(folder_rows::<T>(folders, common as int).take(nf - common) =~= folder_rows::<T>(
                folders,
                common as int,
            ));
            let leaf_name = String::from_str(item.name());
            let ghost mid_rows = rows@;
            rows.push(
                TreeRow {
                    depth: nf,
                    is_folder: false,
                    name: leaf_name,
                    selected: false,
                    partial: false,
                    leaf: Some(item),
                },
            );
            assert(rows_view(rows@) =~= rows_view(mid_rows).push(
                (nf as int, false, item.spec_name(), Some(item)),
            ));
            assert(rows_view(rows@) =~= before_rows + item_rows(sv, csv, item.spec_name(), item));
            assert(folders.take(nf as int) =~= folders);
        }
    }
    rows
}

} // verus!

verus! {

/// The end of the run of rows after `j - 1` that lie deeper than `d`.
pub open spec fn scan_end<T>(rows: Seq<TreeRow<T>>, d: usize, j: int) -> int
    decreases rows.len() - j,
{
    if j >= rows.len() {
        rows.len() as int
    } else if rows[j].depth <= d {
        j
    } else {
        scan_end(rows, d, j + 1)
    }
}

/// The index just past the rows that lie under row `i`.
pub open spec fn subtree_end<T>(rows: Seq<TreeRow<T>>, i: int) -> int {
    scan_end(rows, rows[i].depth, i + 1)
}

/// Row `j` lies under row `i`.
pub open spec fn in_subtree<T>(rows: Seq<TreeRow<T>>, i: int, j: int) -> bool {
    i < j < subtree_end(rows, i)
}

/// Row `j` is a leaf under row `i`.
pub open spec fn leaf_under<T>(rows: Seq<TreeRow<T>>, i: int, j: int) -> bool {
    in_subtree(rows, i, j) && !rows[j].is_folder
}

/// Some leaf lies under row `i`.
pub open spec fn has_leaf<T>(rows: Seq<TreeRow<T>>, i: int) -> bool {
    exists|j: int| #[trigger] leaf_under(rows, i, j)
}

/// Every leaf under row `i` is selected.
pub open spec fn all_leaves_selected<T>(rows: Seq<TreeRow<T>>, i: int) -> bool {
    forall|j: int| #[trigger] leaf_under(rows, i, j) ==> rows[j].selected
}

/// Some leaf under row `i` is selected.
pub open spec fn some_leaf_selected<T>(rows: Seq<TreeRow<T>>, i: int) -> bool {
    exists|j: int| #[trigger] leaf_under(rows, i, j) && rows[j].selected
}

/// A folder row shows `[x]` exactly when it has leaves and all are selected,
/// and `[-]` exactly when some but not all of them are.
pub open spec fn folder_consistent<T>(rows: Seq<TreeRow<T>>, i: int) -> bool {
    rows[i].is_folder ==> {
        &&& rows[i].selected == (has_leaf(rows, i) && all_leaves_selected(rows, i))
        &&& rows[i].partial == (some_leaf_selected(rows, i) && !all_leaves_selected(rows, i))
    }
}

/// Every folder row agrees with the leaves under it.
pub open spec fn tree_consistent<T>(rows: Seq<TreeRow<T>>) -> bool {
    forall|i: int| 0 <= i < rows.len() ==> #[trigger] folder_consistent(rows, i)
}

/// Two row sequences with the same layout and the same leaf selections.
pub open spec fn same_leaves<T>(a: Seq<TreeRow<T>>, b: Seq<TreeRow<T>>) -> bool {
    &&& a.len() == b.len()
    &&& forall|k: int|
        0 <= k < a.len() ==> {
            &&& (#[trigger] a[k]).depth == b[k].depth
            &&& a[k].is_folder == b[k].is_folder
            &&& a[k].name == b[k].name
            &&& a[k].leaf == b[k].leaf
            &&& (!a[k].is_folder ==> a[k].selected == b[k].selected && a[k].partial == b[k].partial)
        }
}

proof fn lemma_scan_end_same<T>(a: Seq<TreeRow<T>>, b: Seq<TreeRow<T>>, d: usize, j: int)
    requires
        same_leaves(a, b),
        0 <= j,
    ensures
        scan_end(a, d, j) == scan_end(b, d, j),
    decreases a.len() - j,
{
    if j < a.len() {
        assert(a[j].depth == b[j].depth);
        if a[j].depth > d {
            lemma_scan_end_same(a, b, d, j + 1);
        }
    }
}

/// The run of rows deeper than `d` from `j` on ends within the rows.
pub proof fn lemma_scan_end_bounds<T>(rows: Seq<TreeRow<T>>, d: usize, j: int)
    requires
        0 <= j <= rows.len(),
    ensures
        j <= scan_end(rows, d, j) <= rows.len(),
        forall|k: int| j <= k < scan_end(rows, d, j) ==> #[trigger] rows[k].depth > d,
        scan_end(rows, d, j) < rows.len() ==> rows[scan_end(rows, d, j)].depth <= d,
    decreases rows.len() - j,
{
    if j < rows.len() && rows[j].depth > d {
        lemma_scan_end_bounds(rows, d, j + 1);
    }
}

/// Folder state only depends on the layout and the leaves.
proof fn lemma_folder_state_same<T>(a: Seq<TreeRow<T>>, b: Seq<TreeRow<T>>, i: int)
    requires
        same_leaves(a, b),
        0 <= i < a.len(),
    ensures
        subtree_end(a, i) == subtree_end(b, i),
        has_leaf(a, i) == has_leaf(b, i),
        all_leaves_selected(a, i) == all_leaves_selected(b, i),
        some_leaf_selected(a, i) == some_leaf_selected(b, i),
{
    assert(a[i].depth == b[i].depth);
    lemma_scan_end_same(a, b, a[i].depth, i + 1);
    lemma_scan_end_bounds(a, a[i].depth, i + 1);
    lemma_scan_end_bounds(b, b[i].depth, i + 1);
    assert forall|j: int| #[trigger] leaf_under(a, i, j) == leaf_under(b, i, j) by {
        if 0 <= j < a.len() {
            assert(a[j].is_folder == b[j].is_folder);
        }
    }
    if has_leaf(a, i) {
        let j = choose|j: int| #[trigger] leaf_under(a, i, j);
        assert(leaf_under(b, i, j));
    }
    if has_leaf(b, i) {
        let j = choose|j: int| #[trigger] leaf_under(b, i, j);
        assert(leaf_under(a, i, j));
    }
    assert forall|j: int| leaf_under(a, i, j) implies a[j].selected == b[j].selected by {
        assert(0 <= j < a.len());
        assert(a[j].is_folder == b[j].is_folder);
    }
    if !all_leaves_selected(a, i) {
        let j = choose|j: int| !(#[trigger] leaf_under(a, i, j) ==> a[j].selected);
        assert(leaf_under(b, i, j) && !b[j].selected);
    }
    if !all_leaves_selected(b, i) {
        let j = choose|j: int| !(#[trigger] leaf_under(b, i, j) ==> b[j].selected);
        assert(leaf_under(a, i, j) && !a[j].selected);
    }
    if some_leaf_selected(a, i) {
        let j = choose|j: int| #[trigger] leaf_under(a, i, j) && a[j].selected;
        assert(leaf_under(b, i, j) && b[j].selected);
    }
    if some_leaf_selected(b, i) {
        let j = choose|j: int| #[trigger] leaf_under(b, i, j) && b[j].selected;
        assert(leaf_under(a, i, j) && a[j].selected);
    }
}

/// Sets each folder row's check state from the leaves under it.
pub fn recompute_tree_state<T>(rows: &mut Vec<TreeRow<T>>)
    ensures
        same_leaves(old(rows)@, final(rows)@),
        tree_consistent(final(rows)@),
{
    let ghost orig = rows@;
    let n = rows.len();
    let mut i: usize = 0;
    while i < n
        invariant
            n == rows@.len(),
            i <= n,
            same_leaves(orig, rows@),
            forall|k: int| 0 <= k < i ==> #[trigger] folder_consistent(rows@, k),
        decreases n - i,
    {
        if rows[i].is_folder {
            let d = rows[i].depth;
            let mut all_selected = true;
            let mut any_selected = false;
            let mut has_leaves = false;
            let mut j = i + 1;
            let ghost cur = rows@;
            proof {
                lemma_scan_end_bounds(cur, d, i + 1);
            }
            while j < n && rows[j].depth > d
                invariant
                    n == rows@.len(),
                    cur == rows@,
                    i < j <= n,
                    d == cur[i as int].depth,
                    scan_end(cur, d, i + 1) == scan_end(cur, d, j as int),
                    has_leaves == (exists|k: int| i < k < j && #[trigger] cur[k].is_folder == false),
                    all_selected == (forall|k: int| i < k < j && !cur[k].is_folder ==> #[trigger] cur[k].selected),
                    any_selected == (exists|k: int| i < k < j && !cur[k].is_folder && #[trigger] cur[k].selected),
                decreases n - j,
            {
                if !rows[j].is_folder {
                    has_leaves = true;
                    if rows[j].selected {
                        any_selected = true;
                    } else {
                        all_selected = false;
                    }
                }
                j = j + 1;
            }
            proof {
                let e = subtree_end(cur, i as int);
                assert(e == j);
                assert forall|k: int| #[trigger] leaf_under(cur, i as int, k) <==> (i < k < j && !cur[k].is_folder) by {}
                if has_leaves {
                    let k = choose|k: int| i < k < j && #[trigger] cur[k].is_folder == false;
                    assert(leaf_under(cur, i as int, k));
                }
                if has_leaf(cur, i as int) {
                    let k = choose|k: int| #[trigger] leaf_under(cur, i as int, k);
                    assert(cur[k].is_folder == false);
                    if all_selected {
                        assert(cur[k].selected);
                    }
                }
                if any_selected {
                    let k = choose|k: int| i < k < j && !cur[k].is_folder && #[trigger] cur[k].selected;
                    assert(leaf_under(cur, i as int, k));
                }
                if some_leaf_selected(cur, i as int) {
                    let k = choose|k: int| #[trigger] leaf_under(cur, i as int, k) && cur[k].selected;
                    assert(cur[k].selected);
                }
                if !all_selected {
                    let k = choose|k: int| !(i < k < j && !cur[k].is_folder ==> #[trigger] cur[k].selected);
                    assert(leaf_under(cur, i as int, k));
                }
                if !all_leaves_selected(cur, i as int) {
                    let k = choose|k: int| !(#[trigger] leaf_under(cur, i as int, k) ==> cur[k].selected);
                    assert(!cur[k].selected);
                }
                assert(has_leaves == has_leaf(cur, i as int));
                assert(all_selected == all_leaves_selected(cur, i as int));
                assert(any_selected == some_leaf_selected(cur, i as int));
            }
            let sel = has_leaves && all_selected && any_selected;
            let part = has_leaves && any_selected && !all_selected;
            rows[i].selected = sel;
            rows[i].partial = part;
            proof {
                assert(same_leaves(cur, rows@));
                lemma_folder_state_same(cur, rows@, i as int);
                assert(folder_consistent(rows@, i as int));
                assert forall|k: int| 0 <= k < i implies #[trigger] folder_consistent(rows@, k) by {
                    lemma_folder_state_same(cur, rows@, k);
                    assert(folder_consistent(cur, k));
                    assert(rows@[k] == cur[k]);
                }
            }
        }
        i = i + 1;
    }
}

} // verus!

verus! {

/// Whether leaf `k` is selected after toggling row `index` of `rows`: a
/// folder sets every leaf under it to the opposite of the folder's own
/// state; a leaf flips itself.
pub open spec fn selected_after_toggle<T>(rows: Seq<TreeRow<T>>, index: int, k: int) -> bool {
    if rows[index].is_folder {
        if in_subtree(rows, index, k) {
            !rows[index].selected
        } else {
            rows[k].selected
        }
    } else if k == index {
        !rows[k].selected
    } else {
        rows[k].selected
    }
}

/// Toggles the row at `index` and brings the folder states up to date.
pub fn toggle_tree_row<T>(rows: &mut Vec<TreeRow<T>>, index: usize)
    ensures
        index >= old(rows)@.len() ==> final(rows)@ == old(rows)@,
        index < old(rows)@.len() ==> {
            &&& final(rows)@.len() == old(rows)@.len()
            &&& tree_consistent(final(rows)@)
            &&& forall|k: int|
                0 <= k < old(rows)@.len() ==> {
                    &&& (#[trigger] final(rows)@[k]).depth == old(rows)@[k].depth
                    &&& final(rows)@[k].is_folder == old(rows)@[k].is_folder
                    &&& final(rows)@[k].name == old(rows)@[k].name
                    &&& final(rows)@[k].leaf == old(rows)@[k].leaf
                    &&& (!old(rows)@[k].is_folder ==> final(rows)@[k].selected
                        == selected_after_toggle(old(rows)@, index as int, k)
                        && final(rows)@[k].partial == old(rows)@[k].partial)
                }
        },
{
    if index >= rows.len() {
        return;
    }
    let ghost orig = rows@;
    let n = rows.len();
    let d = rows[index].depth;
    if rows[index].is_folder {
        let select_all = !rows[index].selected;
        let mut j = index + 1;
        proof {
            lemma_scan_end_bounds(orig, d, index + 1);
        }
        while j < n && rows[j].depth > d
            invariant
                n == rows@.len() == orig.len(),
                index < j <= n,
                d == orig[index as int].depth,
                select_all == !orig[index as int].selected,
                orig[index as int].is_folder,
                scan_end(orig, d, index + 1) == scan_end(orig, d, j as int),
                forall|k: int|
                    0 <= k < n ==> {
                        &&& (#[trigger] rows@[k]).depth == orig[k].depth
                        &&& rows@[k].is_folder == orig[k].is_folder
                        &&& rows@[k].name == orig[k].name
                        &&& rows@[k].leaf == orig[k].leaf
                        &&& rows@[k].partial == orig[k].partial
                        &&& rows@[k].selected == (if index < k < j && !orig[k].is_folder {
                            select_all
                        } else {
                            orig[k].selected
                        })
                    },
            decreases n - j,
        {
            if !rows[j].is_folder {
                rows[j].selected = select_all;
            }
            j = j + 1;
        }
        assert(subtree_end(orig, index as int) == j);
    } else {
        let flipped = !rows[index].selected;
        rows[index].selected = flipped;
    }
    let ghost mid = rows@;
    recompute_tree_state(rows);
    proof {
        assert forall|k: int| 0 <= k < orig.len() implies {
            &&& (#[trigger] rows@[k]).depth == orig[k].depth
            &&& rows@[k].is_folder == orig[k].is_folder
            &&& rows@[k].name == orig[k].name
            &&& rows@[k].leaf == orig[k].leaf
            &&& (!orig[k].is_folder ==> rows@[k].selected == selected_after_toggle(
                orig,
                index as int,
                k,
            ) && rows@[k].partial == orig[k].partial)
        } by {
            assert(mid[k].depth == rows@[k].depth);
        }
    }
}

} // verus!

verus! {

/// The artifacts of the leaf rows, in row order.
pub open spec fn leaf_items<T>(rows: Seq<(int, bool, Seq<char>, Option<T>)>) -> Seq<T>
    decreases rows.len(),
{
    if rows.len() == 0 {
        seq![]
    } else {
        let rest = leaf_items(rows.drop_last());
        let r = rows.last();
        if !r.1 && r.3.is_some() {
            rest.push(r.3.unwrap())
        } else {
            rest
        }
    }
}

/// The predicate of a keyed artifact whose path has a component.
pub open spec fn has_path<T>() -> spec_fn((Seq<Seq<char>>, T)) -> bool {
    |p: (Seq<Seq<char>>, T)| p.0.len() > 0
}

/// The artifacts of keyed pairs whose path has a component, in order.
pub open spec fn placed_items<T>(items: Seq<(Seq<Seq<char>>, T)>) -> Seq<T> {
    items.filter(has_path::<T>()).map_values(|p: (Seq<Seq<char>>, T)| p.1)
}

proof fn lemma_leaf_items_append<T>(a: Seq<(int, bool, Seq<char>, Option<T>)>, b: Seq<(int, bool, Seq<char>, Option<T>)>)
    ensures
        leaf_items(a + b) == leaf_items(a) + leaf_items(b),
    decreases b.len(),
{
    if b.len() == 0 {
        assert(a + b =~= a);
    } else {
        lemma_leaf_items_append(a, b.drop_last());
        assert((a + b).drop_last() =~= a + b.drop_last());
        assert((a + b).last() == b.last());
    }
}

proof fn lemma_folders_have_no_leaves<T>(rows: Seq<(int, bool, Seq<char>, Option<T>)>)
    requires
        forall|i: int| 0 <= i < rows.len() ==> #[trigger] rows[i].1,
    ensures
        leaf_items(rows) == Seq::<T>::empty(),
    decreases rows.len(),
{
    if rows.len() > 0 {
        assert(rows.last() == rows[rows.len() - 1]);
        lemma_folders_have_no_leaves(rows.drop_last());
    }
}

proof fn lemma_item_rows_leaf<T>(prev: Seq<Seq<char>>, cs: Seq<Seq<char>>, name: Seq<char>, item: T)
    requires
        cs.len() > 0,
    ensures
        leaf_items(item_rows(prev, cs, name, item)) == seq![item],
{
    let folders = cs.drop_last();
    let f = folder_rows::<T>(folders, lcp(prev, folders) as int);
    lemma_folders_have_no_leaves(f);
    assert(item_rows(prev, cs, name, item).drop_last() =~= f);
    assert(Seq::<T>::empty().push(item) =~= seq![item]);
}

/// Each artifact with a path is the leaf of exactly one row, in the order
/// given; an artifact with an empty path has no row.
pub proof fn lemma_tree_rows_leaves<T: Artifact>(items: Seq<(Seq<Seq<char>>, T)>, prev: Seq<Seq<char>>)
    ensures
        leaf_items(tree_rows(items, prev)) == placed_items(items),
    decreases items.len(),
{
    if items.len() == 0 {
        assert(placed_items(items) =~= Seq::<T>::empty());
    } else {
        let cs = key_components(items[0].0);
        let rest = items.drop_first();
        assert(items =~= seq![items[0]] + rest);
        rest.lemma_filter_prepend(items[0], has_path::<T>());
        if cs.len() == 0 {
            lemma_tree_rows_leaves(rest, prev);
            assert(items.filter(has_path::<T>()) =~= rest.filter(has_path::<T>()));
        } else {
            lemma_tree_rows_leaves(rest, cs.drop_last());
            lemma_item_rows_leaf(prev, cs, items[0].1.spec_name(), items[0].1);
            lemma_leaf_items_append(
                item_rows(prev, cs, items[0].1.spec_name(), items[0].1),
                tree_rows(rest, cs.drop_last()),
            );
            assert(items.filter(has_path::<T>()) =~= seq![items[0]] + rest.filter(has_path::<T>()));
            assert(placed_items(items) =~= seq![items[0].1] + placed_items(rest));
        }
    }
}

/// The leaves of the tree are the artifacts with a path, sorted by path:
/// every one of them appears, as often as it was given.
pub proof fn lemma_tree_leaves<T: Artifact>(items: Seq<T>)
    ensures
        leaf_items(tree_of(items)) == placed_items(stable_sort(path_keyed(items))),
        keys_sorted(stable_sort(path_keyed(items))),
        leaf_items(tree_of(items)).len() == path_keyed(items).filter(has_path::<T>()).len(),
{
    lemma_tree_rows_leaves(stable_sort(path_keyed(items)), seq![]);
    lemma_stable_sort_counts(path_keyed(items), has_path::<T>());
    lemma_stable_sort_sorted(path_keyed(items));
}

} // verus!
