//! Relative paths inside source libraries and workspaces, and which of their
//! files Hermes leaves out when it copies or hashes an artifact.
//!
//! Paths are strings whose components are separated by `'/'`; empty and `.`
//! components are not components, as `Path::components` has it for relative paths.
use vstd::prelude::*;

use crate::text::{chars_of, decimal, decimal_u128, extend_from_range, slice_equals, string_from_chars};

verus! {

/// The index of the first `'/'` in `s`, or `s.len()` when there is none.
pub open spec fn first_slash(s: Seq<char>) -> nat
    decreases s.len(),
{
    if s.len() == 0 {
        0
    } else if s[0] == '/' {
        0
    } else {
        1 + first_slash(s.drop_first())
    }
}

/// Whether a piece between slashes counts as a component.
pub open spec fn is_component(seg: Seq<char>) -> bool {
    seg.len() > 0 && seg != "."@
}

/// The components of a path.
pub open spec fn path_components(s: Seq<char>) -> Seq<Seq<char>>
    decreases s.len(),
{
    if s.len() == 0 {
        seq![]
    } else {
        let i = first_slash(s);
        let seg = s.take(i as int);
        let rest = if i >= s.len() {
            seq![]
        } else {
            path_components(s.skip(i as int + 1))
        };
        if is_component(seg) {
            seq![seg] + rest
        } else {
            rest
        }
    }
}

/// The views of a vector of character vectors.
pub open spec fn char_vecs(v: Seq<Vec<char>>) -> Seq<Seq<char>> {
    v.map_values(|x: Vec<char>| x@)
}

proof fn lemma_first_slash(s: Seq<char>, j: int)
    requires
        0 <= j <= s.len(),
        j < s.len() ==> s[j] == '/',
        forall|k: int| 0 <= k < j ==> s[k] != '/',
    ensures
        first_slash(s) == j,
    decreases j,
{
    if j > 0 {
        lemma_first_slash(s.drop_first(), j - 1);
    }
}

fn dot_vec() -> (v: Vec<char>)
    ensures
        v@ == "."@,
{
    let v = chars_of(".");
    v
}

/// The components of `s[lo..]`, for a vector of characters.
pub fn components_from(s: &Vec<char>) -> (r: Vec<Vec<char>>)
    ensures
        char_vecs(r@) == path_components(s@),
{
    let n = s.len();
    let dot = dot_vec();
    let mut out: Vec<Vec<char>> = Vec::new();
    let mut pos: usize = 0;
    assert(s@.skip(0) =~= s@);
    assert(char_vecs(out@) =~= Seq::<Seq<char>>::empty());
    while pos < n
        invariant
            n == s@.len(),
            pos <= n,
            dot@ == "."@,
            char_vecs(out@) + path_components(s@.skip(pos as int)) == path_components(s@),
        decreases n - pos,
    {
        let ghost rest = s@.skip(pos as int);
        let mut i = pos;
        while i < n && s[i] != '/'
            invariant
                pos <= i <= n == s@.len(),
                forall|k: int| pos <= k < i ==> s@[k] != '/',
            decreases n - i,
        {
            i = i + 1;
        }
        proof {
            lemma_first_slash(rest, i - pos);
            assert(rest.take(i - pos) =~= s@.subrange(pos as int, i as int));
            if i < n {
                assert(rest.skip(i - pos + 1) =~= s@.skip(i + 1));
            }
        }
        let keep = i > pos && !slice_equals(s, pos, i, &dot);
        if keep {
            let mut seg: Vec<char> = Vec::new();
            extend_from_range(&mut seg, s, pos, i);
            assert(seg@ =~= s@.subrange(pos as int, i as int));
            let ghost before = out@;
            out.push(seg);
            assert(char_vecs(out@) =~= char_vecs(before) + seq![s@.subrange(pos as int, i as int)]);
        }
        if i < n {
            pos = i + 1;
        } else {
            assert(s@.skip(n as int) =~= Seq::<char>::empty());
            pos = n;
        }
    }
    assert(s@.skip(pos as int) =~= Seq::<char>::empty());
    assert(char_vecs(out@) =~= char_vecs(out@) + Seq::<Seq<char>>::empty());
    out
}

} // verus!

verus! {

/// The index of the last `'.'` in `name`, or -1 when there is none.
pub open spec fn last_dot(name: Seq<char>) -> int
    decreases name.len(),
{
    if name.len() == 0 {
        -1
    } else if name.last() == '.' {
        name.len() - 1
    } else {
        last_dot(name.drop_last())
    }
}

/// The extension of a file name (`Path::extension`): what follows the last
/// `'.'`, unless that dot starts the name or there is none.
pub open spec fn name_extension(name: Seq<char>) -> Option<Seq<char>> {
    if name == ".."@ {
        None
    } else {
        let d = last_dot(name);
        if d <= 0 {
            None
        } else {
            Some(name.skip(d + 1))
        }
    }
}

/// The stem of a file name (`Path::file_stem`): the name without its extension.
pub open spec fn name_stem(name: Seq<char>) -> Seq<char> {
    if name == ".."@ {
        name
    } else {
        let d = last_dot(name);
        if d <= 0 {
            name
        } else {
            name.take(d)
        }
    }
}

/// Directory names whose whole subtree Hermes leaves out.
pub open spec fn is_ignored_dir_name(c: Seq<char>) -> bool {
    c == "__pycache__"@ || c == ".git"@ || c == "node_modules"@
}

/// Whether a path, given by its components, is one that copies and hashes
/// leave out: a `.DS_Store` file, compiled Python, or anything under
/// `__pycache__`, `.git` or `node_modules`.
pub open spec fn ignored_components(cs: Seq<Seq<char>>) -> bool {
    &&& cs.len() > 0
    &&& {
        ||| cs.last() == ".DS_Store"@
        ||| name_extension(cs.last()) == Some("pyc"@)
        ||| name_extension(cs.last()) == Some("pyo"@)
        ||| name_extension(cs.last()) == Some("pyd"@)
        ||| exists|i: int| 0 <= i < cs.len() && #[trigger] is_ignored_dir_name(cs[i])
    }
}

/// Whether a file or directory at `cs` is left out of a recursive walk:
/// it, or a directory above it, is ignored.
pub open spec fn excluded_components(cs: Seq<Seq<char>>) -> bool {
    exists|k: int| 1 <= k <= cs.len() && #[trigger] ignored_components(cs.take(k))
}

proof fn lemma_last_dot_bounds(name: Seq<char>)
    ensures
        -1 <= last_dot(name) < name.len(),
        last_dot(name) >= 0 ==> name[last_dot(name)] == '.',
    decreases name.len(),
{
    if name.len() > 0 && name.last() != '.' {
        lemma_last_dot_bounds(name.drop_last());
    }
}

/// The position of the last `'.'` in `name`, as `last_dot` gives it.
fn find_last_dot(name: &Vec<char>) -> (r: Option<usize>)
    ensures
        match r {
            Some(d) => last_dot(name@) == d,
            None => last_dot(name@) == -1,
        },
{
    let mut i = name.len();
    assert(name@.take(name@.len() as int) =~= name@);
    while i > 0 && name[i - 1] != '.'
        invariant
            i <= name@.len(),
            last_dot(name@) == last_dot(name@.take(i as int)),
        decreases i,
    {
        assert(name@.take(i as int).drop_last() =~= name@.take(i - 1));
        i = i - 1;
    }
    assert(name@.take(name@.len() as int) =~= name@);
    if i == 0 {
        assert(name@.take(0) =~= Seq::<char>::empty());
        None
    } else {
        assert(name@.take(i as int).last() == '.');
        Some(i - 1)
    }
}

fn vec_of(s: &str) -> (v: Vec<char>)
    ensures
        v@ == s@,
{
    chars_of(s)
}

/// The extension of a file name, if it has one.
pub fn extension_of(name: &Vec<char>) -> (r: Option<Vec<char>>)
    ensures
        match r {
            Some(e) => name_extension(name@) == Some(e@),
            None => name_extension(name@).is_none(),
        },
{
    let dd = vec_of("..");
    if slice_equals(name, 0, name.len(), &dd) {
        assert(name@.subrange(0, name@.len() as int) =~= name@);
        return None;
    }
    assert(name@.subrange(0, name@.len() as int) =~= name@);
    match find_last_dot(name) {
        None => None,
        Some(d) => {
            if d == 0 {
                None
            } else {
                proof { lemma_last_dot_bounds(name@); }
                let mut e: Vec<char> = Vec::new();
                extend_from_range(&mut e, name, d + 1, name.len());
                assert(e@ =~= name@.skip(d + 1));
                Some(e)
            }
        },
    }
}

/// The stem of a file name.
pub fn stem_of(name: &Vec<char>) -> (r: Vec<char>)
    ensures
        r@ == name_stem(name@),
{
    let dd = vec_of("..");
    assert(name@.subrange(0, name@.len() as int) =~= name@);
    if slice_equals(name, 0, name.len(), &dd) {
        return name.clone();
    }
    match find_last_dot(name) {
        None => name.clone(),
        Some(d) => {
            if d == 0 {
                name.clone()
            } else {
                proof { lemma_last_dot_bounds(name@); }
                let mut e: Vec<char> = Vec::new();
                extend_from_range(&mut e, name, 0, d);
                assert(e@ =~= name@.take(d as int));
                e
            }
        },
    }
}

fn equals_text(v: &Vec<char>, t: &str) -> (b: bool)
    ensures
        b == (v@ == t@),
{
    let tv = vec_of(t);
    assert(v@.subrange(0, v@.len() as int) =~= v@);
    slice_equals(v, 0, v.len(), &tv)
}

/// Whether a path given by its components is ignored.
pub fn components_ignored(cs: &Vec<Vec<char>>) -> (b: bool)
    ensures
        b == ignored_components(char_vecs(cs@)),
{
    let ghost v = char_vecs(cs@);
    if cs.len() == 0 {
        return false;
    }
    let last = &cs[cs.len() - 1];
    assert(v.last() == last@);
    if equals_text(last, ".DS_Store") {
        return true;
    }
    match extension_of(last) {
        Some(e) => {
            if equals_text(&e, "pyc") || equals_text(&e, "pyo") || equals_text(&e, "pyd") {
                return true;
            }
        },
        None => {},
    }
    let mut i: usize = 0;
    while i < cs.len()
        invariant
            i <= cs@.len(),
            v == char_vecs(cs@),
            forall|k: int| 0 <= k < i ==> !is_ignored_dir_name(#[trigger] v[k]),
        decreases cs@.len() - i,
    {
        let c = &cs[i];
        assert(v[i as int] == c@);
        if equals_text(c, "__pycache__") || equals_text(c, ".git") || equals_text(c, "node_modules") {
            assert(is_ignored_dir_name(v[i as int]));
            return true;
        }
        i = i + 1;
    }
    false
}

/// Whether copying or hashing leaves out the entry at `rel_path`.
pub fn is_ignored_relative(rel_path: &str) -> (b: bool)
    ensures
        b == ignored_components(path_components(rel_path@)),
{
    let s = chars_of(rel_path);
    let cs = components_from(&s);
    components_ignored(&cs)
}

} // verus!

verus! {

/// Sequences of characters joined by `'/'`.
pub open spec fn join_slash(ls: Seq<Seq<char>>) -> Seq<char>
    decreases ls.len(),
{
    if ls.len() == 0 {
        seq![]
    } else if ls.len() == 1 {
        ls[0]
    } else {
        join_slash(ls.drop_last()) + seq!['/'] + ls.last()
    }
}

/// Whether a component is a plain name (not `..`).
pub open spec fn is_normal(c: Seq<char>) -> bool {
    c != ".."@
}

/// The plain-name components of a path.
pub open spec fn normal_components(cs: Seq<Seq<char>>) -> Seq<Seq<char>> {
    cs.filter(|c: Seq<char>| is_normal(c))
}

/// The plain-name components of `path` joined by `'/'`: the form in which
/// relative paths are compared and hashed.
pub open spec fn normalized(path: Seq<char>) -> Seq<char> {
    join_slash(normal_components(path_components(path)))
}

/// Writes a relative path with `'/'` between its plain-name components.
pub fn normalize_relative_path(path: &str) -> (r: String)
    ensures
        r@ == normalized(path@),
{
    let s = chars_of(path);
    let cs = components_from(&s);
    let ghost v = char_vecs(cs@);
    let dd = vec_of("..");
    let mut out: Vec<char> = Vec::new();
    let mut count: usize = 0;
    let mut i: usize = 0;
    assert(v.take(0) =~= Seq::<Seq<char>>::empty());
    assert(normal_components(v.take(0)) =~= Seq::<Seq<char>>::empty());
    while i < cs.len()
        invariant
            i <= cs@.len(),
            v == char_vecs(cs@),
            dd@ == ".."@,
            count == normal_components(v.take(i as int)).len(),
            out@ == join_slash(normal_components(v.take(i as int))),
        decreases cs@.len() - i,
    {
        let c = &cs[i];
        assert(v[i as int] == c@);
        proof {
            assert(v.take(i + 1) =~= v.take(i as int).push(v[i as int]));
            v.take(i as int).lemma_filter_push(v[i as int], |c: Seq<char>| is_normal(c));
        }
        assert(c@.subrange(0, c@.len() as int) =~= c@);
        if !slice_equals(c, 0, c.len(), &dd) {
            let ghost before = out@;
            if count > 0 {
                out.push('/');
            }
            extend_from_range(&mut out, c, 0, c.len());
            proof {
                let nc = normal_components(v.take(i + 1));
                assert(nc.drop_last() =~= normal_components(v.take(i as int)));
                assert(nc.last() == c@);
                if count == 0 {
                    assert(out@ =~= c@);
                } else {
                    assert(out@ =~= before + seq!['/'] + c@);
                }
            }
            count = count + 1;
        }
        i = i + 1;
    }
    assert(v.take(cs@.len() as int) =~= v);
    string_from_chars(&out)
}

/// `rel` appended to `base` as `Path::join` does: an absolute `rel` replaces
/// `base`, and a `'/'` separates them unless `base` is empty or ends in one.
pub open spec fn joined(base: Seq<char>, rel: Seq<char>) -> Seq<char> {
    if rel.len() > 0 && rel[0] == '/' {
        rel
    } else if base.len() == 0 || base.last() == '/' {
        base + rel
    } else {
        base + seq!['/'] + rel
    }
}

/// Joins a relative path onto a base path.
pub fn join_path(base: &str, rel: &str) -> (r: String)
    ensures
        r@ == joined(base@, rel@),
{
    let b = chars_of(base);
    let r = chars_of(rel);
    if r.len() > 0 && r[0] == '/' {
        return String::from_str(rel);
    }
    if b.len() == 0 || b[b.len() - 1] == '/' {
        concat_two(base, rel)
    } else {
        proof {
            reveal_strlit("/");
        }
        assert("/"@ =~= seq!['/']);
        crate::text::concat3(base, "/", rel)
    }
}

fn concat_two(a: &str, b: &str) -> (r: String)
    ensures
        r@ == a@ + b@,
{
    crate::text::concat2(a, b)
}


/// Whatever copies leave out, hashes leave out too.
pub proof fn lemma_ignored_is_excluded(cs: Seq<Seq<char>>)
    requires
        ignored_components(cs),
    ensures
        excluded_components(cs),
{
    assert(cs.take(cs.len() as int) =~= cs);
}

/// Everything under a path that walks leave out is left out too.
pub proof fn lemma_excluded_below(cs: Seq<Seq<char>>, more: Seq<Seq<char>>)
    requires
        excluded_components(cs),
    ensures
        excluded_components(cs + more),
{
    let k = choose|k: int| 1 <= k <= cs.len() && #[trigger] ignored_components(cs.take(k));
    assert((cs + more).take(k) =~= cs.take(k));
}

/// A component as `path_components` gives it: a plain piece without `'/'`.
pub open spec fn clean_component(c: Seq<char>) -> bool {
    is_component(c) && !c.contains('/')
}

proof fn lemma_first_slash_bounds(s: Seq<char>)
    ensures
        first_slash(s) <= s.len(),
        first_slash(s) < s.len() ==> s[first_slash(s) as int] == '/',
        forall|k: int| 0 <= k < first_slash(s) ==> s[k] != '/',
    decreases s.len(),
{
    if s.len() > 0 && s[0] != '/' {
        lemma_first_slash_bounds(s.drop_first());
        assert forall|k: int| 0 <= k < first_slash(s) implies s[k] != '/' by {
            if k > 0 {
                assert(s[k] == s.drop_first()[k - 1]);
            }
        }
    }
}

proof fn lemma_components_clean(s: Seq<char>)
    ensures
        forall|i: int| 0 <= i < path_components(s).len() ==> clean_component(#[trigger] path_components(s)[i]),
    decreases s.len(),
{
    if s.len() > 0 {
        let i = first_slash(s);
        lemma_first_slash_bounds(s);
        let seg = s.take(i as int);
        if i < s.len() {
            lemma_components_clean(s.skip(i as int + 1));
        }
        assert(!seg.contains('/')) by {
            if seg.contains('/') {
                let k = choose|k: int| 0 <= k < seg.len() && seg[k] == '/';
                assert(s[k] == '/');
            }
        }
        let rest = if i >= s.len() {
            Seq::<Seq<char>>::empty()
        } else {
            path_components(s.skip(i as int + 1))
        };
        if is_component(seg) {
            assert(path_components(s) == seq![seg] + rest);
            assert forall|j: int| 0 <= j < path_components(s).len() implies clean_component(
                #[trigger] path_components(s)[j],
            ) by {
                if j > 0 {
                    assert(path_components(s)[j] == rest[j - 1]);
                }
            }
        }
    }
}

proof fn lemma_components_split(a: Seq<char>, b: Seq<char>)
    ensures
        path_components(a + seq!['/'] + b) == path_components(a) + path_components(b),
    decreases a.len(),
{
    let s = a + seq!['/'] + b;
    let i = first_slash(a);
    lemma_first_slash_bounds(a);
    if i < a.len() {
        lemma_first_slash(s, i as int);
        assert(s.take(i as int) =~= a.take(i as int));
        assert(s.skip(i as int + 1) =~= a.skip(i as int + 1) + seq!['/'] + b);
        lemma_components_split(a.skip(i as int + 1), b);
        assert(path_components(s) == if is_component(a.take(i as int)) {
            seq![a.take(i as int)] + path_components(s.skip(i as int + 1))
        } else {
            path_components(s.skip(i as int + 1))
        });
        if a.len() > 0 {
            assert(path_components(a) == if is_component(a.take(i as int)) {
                seq![a.take(i as int)] + path_components(a.skip(i as int + 1))
            } else {
                path_components(a.skip(i as int + 1))
            });
        }
        assert(path_components(s) =~= path_components(a) + path_components(b));
    } else {
        lemma_first_slash(s, a.len() as int);
        assert(s.take(a.len() as int) =~= a);
        assert(s.skip(a.len() as int + 1) =~= b);
        assert(a.take(a.len() as int) =~= a);
        let head = if is_component(a) {
            seq![a]
        } else {
            Seq::<Seq<char>>::empty()
        };
        assert(path_components(s) == head + path_components(b));
        if a.len() > 0 {
            assert(path_components(a) == head + Seq::<Seq<char>>::empty());
        }
        assert(path_components(a) =~= head);
        assert(path_components(s) =~= path_components(a) + path_components(b));
    }
}

proof fn lemma_components_of_clean(c: Seq<char>)
    requires
        clean_component(c),
    ensures
        path_components(c) == seq![c],
{
    lemma_first_slash_bounds(c);
    if first_slash(c) < c.len() {
        assert(c.contains('/')) by {
            assert(c[first_slash(c) as int] == '/');
        }
    }
    assert(c.take(c.len() as int) =~= c);
}

proof fn lemma_components_of_join(cs: Seq<Seq<char>>)
    requires
        forall|i: int| 0 <= i < cs.len() ==> clean_component(#[trigger] cs[i]),
    ensures
        path_components(join_slash(cs)) == cs,
    decreases cs.len(),
{
    if cs.len() == 1 {
        lemma_components_of_clean(cs[0]);
        assert(seq![cs[0]] =~= cs);
    } else if cs.len() > 1 {
        lemma_components_of_join(cs.drop_last());
        lemma_components_split(join_slash(cs.drop_last()), cs.last());
        lemma_components_of_clean(cs.last());
        assert(cs.drop_last() + seq![cs.last()] =~= cs);
    }
}

/// Normalizing a normalized path changes nothing.
pub proof fn lemma_normalized_idempotent(path: Seq<char>)
    ensures
        normalized(normalized(path)) == normalized(path),
{
    let cs = path_components(path);
    let p = |c: Seq<char>| is_normal(c);
    let ns = cs.filter(p);
    lemma_components_clean(path);
    assert forall|i: int| 0 <= i < ns.len() implies clean_component(#[trigger] ns[i]) by {
        cs.lemma_filter_pred(p, i);
        assert(ns.contains(ns[i]));
        cs.lemma_filter_contains_rev(p, ns[i]);
        let k = choose|k: int| 0 <= k < cs.len() && cs[k] == ns[i];
        assert(clean_component(cs[k]));
    }
    lemma_components_of_join(ns);
    assert forall|i: int| 0 <= i < ns.len() implies p(#[trigger] ns[i]) by {
        cs.lemma_filter_pred(p, i);
    }
    lemma_filter_all(ns, p);
}

proof fn lemma_filter_all<A>(s: Seq<A>, p: spec_fn(A) -> bool)
    requires
        forall|i: int| 0 <= i < s.len() ==> p(#[trigger] s[i]),
    ensures
        s.filter(p) == s,
    decreases s.len(),
{
    if s.len() > 0 {
        lemma_filter_all(s.drop_last(), p);
        s.drop_last().lemma_filter_push(s.last(), p);
        assert(s.drop_last().push(s.last()) =~= s);
    }
}

/// The name of a staging file or directory under the workspace's `.tmp`:
/// a prefix, the process id, the time in nanoseconds and a counter joined
/// by `-`, with the extension after a `.` when there is one.
pub open spec fn temp_name_text(prefix: Seq<char>, pid: nat, nanos: nat, counter: nat, extension: Option<Seq<char>>) -> Seq<
    char,
> {
    prefix + "-"@ + decimal(pid) + "-"@ + decimal(nanos) + "-"@ + decimal(counter) + match extension {
        Some(e) => "."@ + e,
        None => seq![],
    }
}

/// Writes the name of a staging file or directory.
pub fn temp_name(prefix: &str, pid: u32, nanos: u128, counter: u64, extension: Option<&str>) -> (r: String)
    ensures
        r@ == temp_name_text(
            prefix@,
            pid as nat,
            nanos as nat,
            counter as nat,
            match extension {
                Some(e) => Some(e@),
                None => None,
            },
        ),
{
    let p = decimal_u128(pid as u128);
    let t = decimal_u128(nanos);
    let c = decimal_u128(counter as u128);
    let mut r = crate::text::concat4(prefix, "-", p.as_str(), "-");
    r.append(t.as_str());
    r.append("-");
    r.append(c.as_str());
    match extension {
        Some(e) => {
            r.append(".");
            r.append(e);
        },
        None => {
            assert(r@ + Seq::<char>::empty() =~= r@);
        },
    }
    r
}
} // verus!
