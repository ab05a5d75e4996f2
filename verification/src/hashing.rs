//! Content hashes that record what was installed: `sha256:` and the SHA-256
//! digest in lower-case hex, of a file, or of a skill directory's files in
//! path order.
use vstd::prelude::*;

use crate::fs_ops::{char_vecs, components_from, components_ignored, excluded_components, normalize_relative_path, normalized, path_components};
use crate::sorting::{
    key_is, keyed_view, keys_distinct, keys_sorted, same_items, lemma_filter_filter, lemma_map_filter_len, lemma_sorted_unique, lemma_stable_sort_counts,
    lemma_stable_sort_sorted, lemma_swap_counts, sort_keyed, stable_sort, swap_adjacent,
};
use crate::text::{chars_of, push_char};
use sha2::Digest;
use vstd::utf8::encode_utf8;

verus! {

/// The SHA-256 digest of `data`, as the `sha2` crate computes it.
pub uninterp spec fn sha256_of(data: Seq<u8>) -> Seq<u8>;

/// Computes the SHA-256 digest of `data` with `sha2::Sha256::digest`, whose
/// output is 32 bytes (`OutputSize = U32`). Believed, not proved: that the
/// result is `sha256_of(data)` and has 32 bytes.
#[verifier::external_body]
fn sha256_digest(data: &[u8]) -> (r: Vec<u8>)
    ensures
        r@ == sha256_of(data@),
        r@.len() == 32,
{
    sha2::Sha256::digest(data).to_vec()
}

/// The lower-case hex digit for `n < 16`.
pub open spec fn hex_digit(n: int) -> char {
    if n < 10 {
        ((n + 48) as u8) as char
    } else {
        ((n + 87) as u8) as char
    }
}

/// Bytes in lower-case hex, two digits per byte (`{:x}` on a digest).
pub open spec fn hex_lower(bytes: Seq<u8>) -> Seq<char>
    decreases bytes.len(),
{
    if bytes.len() == 0 {
        seq![]
    } else {
        seq![hex_digit(bytes[0] as int / 16), hex_digit(bytes[0] as int % 16)] + hex_lower(bytes.drop_first())
    }
}

fn hex_char(n: u8) -> (c: char)
    requires
        n < 16,
    ensures
        c == hex_digit(n as int),
{
    if n < 10 {
        ((n + 48) as u8) as char
    } else {
        ((n + 87) as u8) as char
    }
}

proof fn lemma_hex_lower_len(bytes: Seq<u8>)
    ensures
        hex_lower(bytes).len() == 2 * bytes.len(),
    decreases bytes.len(),
{
    if bytes.len() > 0 {
        lemma_hex_lower_len(bytes.drop_first());
    }
}

/// A lower-case hex digit: `0`-`9` or `a`-`f`.
pub open spec fn is_lower_hex(c: char) -> bool {
    ('0' <= c && c <= '9') || ('a' <= c && c <= 'f')
}

proof fn lemma_hex_lower_digits(bytes: Seq<u8>)
    ensures
        forall|i: int| 0 <= i < hex_lower(bytes).len() ==> is_lower_hex(#[trigger] hex_lower(bytes)[i]),
    decreases bytes.len(),
{
    if bytes.len() > 0 {
        lemma_hex_lower_digits(bytes.drop_first());
        let hi = bytes[0] as int / 16;
        let lo = bytes[0] as int % 16;
        assert(is_lower_hex(hex_digit(hi)));
        assert(is_lower_hex(hex_digit(lo)));
        assert forall|i: int| 0 <= i < hex_lower(bytes).len() implies is_lower_hex(#[trigger] hex_lower(bytes)[i]) by {
            if i >= 2 {
                assert(hex_lower(bytes)[i] == hex_lower(bytes.drop_first())[i - 2]);
            }
        }
    }
}

/// The content hash recorded for bytes: `sha256:` and the hex digest.
pub open spec fn content_hash(data: Seq<u8>) -> Seq<char> {
    "sha256:"@ + hex_lower(sha256_of(data))
}

/// The recorded form of a digest: `sha256:` and the digest in lower-case
/// hex, two digits per byte.
pub fn digest_text(digest: &Vec<u8>) -> (r: String)
    ensures
        r@ == "sha256:"@ + hex_lower(digest@),
        r@.len() == 7 + 2 * digest@.len(),
        forall|i: int| 7 <= i < r@.len() ==> is_lower_hex(#[trigger] r@[i]),
{
    proof {
        lemma_hex_lower_len(digest@);
        lemma_hex_lower_digits(digest@);
        reveal_strlit("sha256:");
    }
    let mut r = String::from_str("sha256:");
    let ghost prefix = r@;
    let mut i: usize = 0;
    assert(digest@.skip(0) =~= digest@);
    while i < digest.len()
        invariant
            i <= digest@.len(),
            prefix == "sha256:"@,
            r@ + hex_lower(digest@.skip(i as int)) == prefix + hex_lower(digest@),
        decreases digest@.len() - i,
    {
        let b = digest[i];
        assert(digest@.skip(i as int).drop_first() =~= digest@.skip(i + 1));
        push_char(&mut r, hex_char(b / 16));
        push_char(&mut r, hex_char(b % 16));
        i = i + 1;
    }
    assert(digest@.skip(i as int) =~= Seq::<u8>::empty());
    assert(r@ + hex_lower(digest@.skip(i as int)) =~= r@);
    assert forall|k: int| 7 <= k < r@.len() implies is_lower_hex(#[trigger] r@[k]) by {
        assert(r@[k] == hex_lower(digest@)[k - 7]);
    }
    r
}

/// Hashes the bytes of one file.
pub fn hash_file_bytes(data: &[u8]) -> (r: String)
    ensures
        r@ == content_hash(data@),
        r@.len() == 71,
        forall|i: int| 7 <= i < 71 ==> is_lower_hex(#[trigger] r@[i]),
{
    let digest = sha256_digest(data);
    digest_text(&digest)
}

/// One file of a skill directory: its path relative to the directory, and
/// its bytes.
#[derive(Debug)]
pub struct SkillFile {
    pub rel_path: String,
    pub contents: Vec<u8>,
}

/// Whether a file of the directory takes part in the hash.
pub open spec fn hashed(f: SkillFile) -> bool {
    !excluded_components(path_components(f.rel_path@))
}

/// The files of a directory in the order they are hashed: those that are
/// not excluded, stably sorted by normalized path.
pub open spec fn hash_order(files: Seq<SkillFile>) -> Seq<SkillFile> {
    stable_sort(files.filter(|f: SkillFile| hashed(f)).map_values(
        |f: SkillFile| (seq![normalized(f.rel_path@)], f),
    )).map_values(|p: (Seq<Seq<char>>, SkillFile)| p.1)
}

/// The bytes hashed for files in order: each file's normalized path in
/// UTF-8, a zero byte, its contents and another zero byte.
pub open spec fn hash_stream(files: Seq<SkillFile>) -> Seq<u8>
    decreases files.len(),
{
    if files.len() == 0 {
        seq![]
    } else {
        let f = files.last();
        hash_stream(files.drop_last()) + encode_utf8(normalized(f.rel_path@)) + seq![0u8]
            + f.contents@ + seq![0u8]
    }
}

/// Whether the file at `rel_path` is left out of a recursive walk.
pub fn is_excluded(rel_path: &str) -> (b: bool)
    ensures
        b == excluded_components(path_components(rel_path@)),
{
    let s = chars_of(rel_path);
    let cs = components_from(&s);
    let ghost v = char_vecs(cs@);
    let mut prefix: Vec<Vec<char>> = Vec::new();
    let mut k: usize = 0;
    while k < cs.len()
        invariant
            k <= cs@.len(),
            v == char_vecs(cs@),
            v == path_components(rel_path@),
            char_vecs(prefix@) == v.take(k as int),
            forall|j: int| 1 <= j <= k ==> !#[trigger] crate::fs_ops::ignored_components(v.take(j)),
        decreases cs@.len() - k,
    {
        let mut c: Vec<char> = Vec::new();
        crate::text::extend_from_range(&mut c, &cs[k], 0, cs[k].len());
        assert(c@ =~= v[k as int]);
        let ghost before = char_vecs(prefix@);
        prefix.push(c);
        assert(char_vecs(prefix@) =~= before.push(v[k as int]));
        assert(v.take(k + 1) =~= v.take(k as int).push(v[k as int]));
        if components_ignored(&prefix) {
            assert(crate::fs_ops::ignored_components(v.take(k + 1)));
            return true;
        }
        k = k + 1;
    }
    assert forall|j: int| 1 <= j <= v.len() implies !#[trigger] crate::fs_ops::ignored_components(v.take(j)) by {}
    false
}

} // verus!

verus! {

fn append_bytes(dst: &mut Vec<u8>, src: &[u8])
    ensures
        final(dst)@ == old(dst)@ + src@,
{
    let mut i: usize = 0;
    while i < src.len()
        invariant
            i <= src@.len(),
            dst@ == old(dst)@ + src@.take(i as int),
        decreases src@.len() - i,
    {
        dst.push(src[i]);
        assert(src@.take(i + 1) =~= src@.take(i as int).push(src@[i as int]));
        i = i + 1;
    }
    assert(src@.take(src@.len() as int) =~= src@);
}

/// The bytes a skill directory's hash is computed from: the files that a
/// copy would keep, in order of their normalized paths, each as path, zero
/// byte, contents, zero byte.
pub fn skill_hash_input(files: Vec<SkillFile>) -> (r: Vec<u8>)
    ensures
        r@ == hash_stream(hash_order(files@)),
{
    let ghost all = files@;
    let ghost kf = |f: SkillFile| (seq![normalized(f.rel_path@)], f);
    let ghost hp = |f: SkillFile| hashed(f);
    let n = files.len();
    let mut rest = files;
    let mut keyed: Vec<(Vec<Vec<char>>, SkillFile)> = Vec::new();
    let mut done: usize = 0;
    assert(all.take(0).filter(hp) =~= Seq::<SkillFile>::empty()) by {
        reveal(Seq::filter);
    }
    assert(keyed_view(keyed@) =~= all.take(0).filter(hp).map_values(kf));
    while rest.len() > 0
        invariant
            done + rest@.len() == all.len(),
            all.len() == n,
            rest@ == all.skip(done as int),
            hp == (|f: SkillFile| hashed(f)),
            kf == (|f: SkillFile| (seq![normalized(f.rel_path@)], f)),
            keyed_view(keyed@) == all.take(done as int).filter(hp).map_values(kf),
        decreases rest@.len(),
    {
        let f = rest.remove(0);
        assert(f == all[done as int]);
        assert(rest@ =~= all.skip(done + 1));
        proof {
            assert(all.take(done + 1) =~= all.take(done as int).push(f));
            all.take(done as int).lemma_filter_push(f, hp);
        }
        if !is_excluded(f.rel_path.as_str()) {
            let norm = normalize_relative_path(f.rel_path.as_str());
            let mut key: Vec<Vec<char>> = Vec::new();
            key.push(chars_of(norm.as_str()));
            assert(char_vecs(key@) =~= seq![normalized(f.rel_path@)]);
            let ghost before = keyed_view(keyed@);
            keyed.push((key, f));
            assert(keyed_view(keyed@) =~= before.push(kf(f)));
            assert(all.take(done + 1).filter(hp).map_values(kf) =~= all.take(done as int).filter(
                hp,
            ).map_values(kf).push(kf(f)));
        } else {
            assert(all.take(done + 1).filter(hp) == all.take(done as int).filter(hp));
        }
        done = done + 1;
    }
    assert(all.take(done as int) =~= all);
    let sorted = sort_keyed(keyed);
    let ghost sv = keyed_view(sorted@);
    let ghost ordered = sv.map_values(|p: (Seq<Seq<char>>, SkillFile)| p.1);
    assert(ordered == hash_order(all));
    let mut stream: Vec<u8> = Vec::new();
    let mut i: usize = 0;
    assert(ordered.take(0) =~= Seq::<SkillFile>::empty());
    while i < sorted.len()
        invariant
            i <= sorted@.len(),
            sv == keyed_view(sorted@),
            ordered == sv.map_values(|p: (Seq<Seq<char>>, SkillFile)| p.1),
            stream@ == hash_stream(ordered.take(i as int)),
        decreases sorted@.len() - i,
    {
        let f = &sorted[i].1;
        assert(ordered[i as int] == *f);
        let norm = normalize_relative_path(f.rel_path.as_str());
        append_bytes(&mut stream, norm.as_str().as_bytes());
        stream.push(0u8);
        append_bytes(&mut stream, f.contents.as_slice());
        stream.push(0u8);
        assert(ordered.take(i + 1).drop_last() =~= ordered.take(i as int));
        assert(ordered.take(i + 1).last() == *f);
        assert(stream@ =~= hash_stream(ordered.take(i + 1)));
        i = i + 1;
    }
    assert(ordered.take(sorted@.len() as int) =~= ordered);
    stream
}

/// Hashes the files of a skill directory.
pub fn hash_skill_files(files: Vec<SkillFile>) -> (r: String)
    ensures
        r@ == content_hash(hash_stream(hash_order(files@))),
        r@.len() == 71,
        forall|i: int| 7 <= i < 71 ==> is_lower_hex(#[trigger] r@[i]),
{
    let stream = skill_hash_input(files);
    hash_file_bytes(stream.as_slice())
}


/// A file that copies leave out does not change the hash of a skill
/// directory, wherever it is listed.
pub proof fn lemma_excluded_file_ignored(files: Seq<SkillFile>, i: int, f: SkillFile)
    requires
        0 <= i <= files.len(),
        !hashed(f),
    ensures
        hash_order(files.insert(i, f)) == hash_order(files),
{
    let hp = |g: SkillFile| hashed(g);
    let l = files.take(i);
    let r = files.skip(i);
    assert(files =~= l + r);
    assert(files.insert(i, f) =~= l.push(f) + r);
    Seq::filter_distributes_over_add(l, r, hp);
    Seq::filter_distributes_over_add(l.push(f), r, hp);
    l.lemma_filter_push(f, hp);
    assert(files.insert(i, f).filter(hp) =~= files.filter(hp));
}

/// The predicate of a hashed file whose normalized path is `n`.
pub open spec fn hashed_at(n: Seq<char>) -> spec_fn(SkillFile) -> bool {
    |f: SkillFile| hashed(f) && normalized(f.rel_path@) == n
}

/// When no two hashed files share a normalized path, no two keyed files
/// share a key.
proof fn lemma_hashed_keys_distinct(files: Seq<SkillFile>)
    requires
        forall|n: Seq<char>| #[trigger] files.filter(hashed_at(n)).len() <= 1,
    ensures
        keys_distinct(files.filter(|f: SkillFile| hashed(f)).map_values(
            |f: SkillFile| (seq![normalized(f.rel_path@)], f),
        )),
{
    let hp = |f: SkillFile| hashed(f);
    let kf = |f: SkillFile| (seq![normalized(f.rel_path@)], f);
    let k1 = files.filter(hp).map_values(kf);
    assert forall|k: Seq<Seq<char>>| #[trigger] k1.filter(key_is::<SkillFile>(k)).len() <= 1 by {
        let q = |f: SkillFile| key_is::<SkillFile>(k)(kf(f));
        let both = |x: SkillFile| hp(x) && q(x);
        lemma_map_filter_len(files.filter(hp), kf, key_is::<SkillFile>(k));
        lemma_filter_filter(files, hp, q);
        if k.len() == 1 {
            assert(both =~= hashed_at(k[0])) by {
                assert forall|f: SkillFile| #[trigger] both(f) == hashed_at(k[0])(f) by {
                    if normalized(f.rel_path@) == k[0] {
                        assert(seq![normalized(f.rel_path@)] =~= k);
                    }
                }
            }
            assert(files.filter(hashed_at(k[0])).len() <= 1);
        } else {
            assert forall|m: int| 0 <= m < files.len() implies !both(files[m]) by {
                assert(seq![normalized(files[m].rel_path@)].len() == 1);
            }
            files.lemma_all_neg_filter_empty(both);
        }
    }
}

/// The hash of a skill directory does not depend on the order in which a
/// walk lists its files: swapping two neighbours in the listing leaves the
/// hashed order unchanged, as long as no two hashed files share a
/// normalized path.
pub proof fn lemma_hash_order_swap(files: Seq<SkillFile>, i: int)
    requires
        0 <= i,
        i + 1 < files.len(),
        forall|n: Seq<char>| #[trigger] files.filter(hashed_at(n)).len() <= 1,
    ensures
        hash_order(swap_adjacent(files, i)) == hash_order(files),
{
    let hp = |f: SkillFile| hashed(f);
    let kf = |f: SkillFile| (seq![normalized(f.rel_path@)], f);
    let sw = swap_adjacent(files, i);
    let k1 = files.filter(hp).map_values(kf);
    let k2 = sw.filter(hp).map_values(kf);
    assert forall|p: spec_fn((Seq<Seq<char>>, SkillFile)) -> bool| #[trigger] k1.filter(p).len() == k2.filter(p).len() by {
        let q = |f: SkillFile| p(kf(f));
        lemma_map_filter_len(files.filter(hp), kf, p);
        lemma_map_filter_len(sw.filter(hp), kf, p);
        lemma_filter_filter(files, hp, q);
        lemma_filter_filter(sw, hp, q);
        lemma_swap_counts(files, i, |x: SkillFile| hp(x) && q(x));
    }
    lemma_hashed_keys_distinct(files);
    let s1 = stable_sort(k1);
    let s2 = stable_sort(k2);
    lemma_stable_sort_sorted(k1);
    lemma_stable_sort_sorted(k2);
    assert forall|p: spec_fn((Seq<Seq<char>>, SkillFile)) -> bool| #[trigger] s1.filter(p).len() == s2.filter(p).len() by {
        lemma_stable_sort_counts(k1, p);
        lemma_stable_sort_counts(k2, p);
        assert(k1.filter(p).len() == k2.filter(p).len());
    }
    assert forall|k: Seq<Seq<char>>| #[trigger] s1.filter(key_is::<SkillFile>(k)).len() <= 1 by {
        lemma_stable_sort_counts(k1, key_is::<SkillFile>(k));
        assert(k1.filter(key_is::<SkillFile>(k)).len() <= 1);
    }
    lemma_sorted_unique(s1, s2);
}

/// What the hash reads of a file: its normalized path and its bytes.
pub open spec fn hashed_entry(f: SkillFile) -> (Seq<char>, Seq<u8>) {
    (normalized(f.rel_path@), f.contents@)
}

/// The path and bytes of each hashed file of a listing, in listing order.
pub open spec fn hashed_entries(files: Seq<SkillFile>) -> Seq<(Seq<char>, Seq<u8>)> {
    files.filter(|f: SkillFile| hashed(f)).map_values(|f: SkillFile| hashed_entry(f))
}

/// Listings that agree on path and bytes, file by file, give one stream.
proof fn lemma_stream_of_entries(s: Seq<SkillFile>, t: Seq<SkillFile>)
    requires
        s.map_values(|f: SkillFile| hashed_entry(f)) == t.map_values(|f: SkillFile| hashed_entry(f)),
    ensures
        hash_stream(s) == hash_stream(t),
    decreases s.len(),
{
    let e = |f: SkillFile| hashed_entry(f);
    assert(s.len() == s.map_values(e).len());
    assert(t.len() == t.map_values(e).len());
    if s.len() > 0 {
        assert(s.drop_last().map_values(e) =~= s.map_values(e).drop_last());
        assert(t.drop_last().map_values(e) =~= t.map_values(e).drop_last());
        lemma_stream_of_entries(s.drop_last(), t.drop_last());
        assert(s.map_values(e)[s.len() - 1] == t.map_values(e)[t.len() - 1]);
        assert(s.last().contents@ == t.last().contents@);
        assert(normalized(s.last().rel_path@) == normalized(t.last().rel_path@));
    }
}

/// A skill directory's hash depends on nothing but the paths and bytes of
/// the files it hashes: two listings whose hashed files are the same pairs
/// of normalized path and bytes hash alike, whatever order the walk gave
/// them in and whatever files copies leave out that either holds. It holds
/// when no two hashed files share a normalized path.
pub proof fn lemma_same_files_same_hash(a: Seq<SkillFile>, b: Seq<SkillFile>)
    requires
        same_items(hashed_entries(a), hashed_entries(b)),
        forall|n: Seq<char>| #[trigger] a.filter(hashed_at(n)).len() <= 1,
    ensures
        hash_order(a).map_values(|f: SkillFile| hashed_entry(f)) == hash_order(b).map_values(
            |f: SkillFile| hashed_entry(f),
        ),
        hash_stream(hash_order(a)) == hash_stream(hash_order(b)),
        content_hash(hash_stream(hash_order(a))) == content_hash(hash_stream(hash_order(b))),
{
    let hp = |f: SkillFile| hashed(f);
    let kf = |f: SkillFile| (seq![normalized(f.rel_path@)], f);
    let e = |f: SkillFile| hashed_entry(f);
    let g = |kv: (Seq<Seq<char>>, SkillFile)| (kv.0, hashed_entry(kv.1));
    let h = |x: (Seq<char>, Seq<u8>)| (seq![x.0], x);
    let ka = a.filter(hp).map_values(kf);
    let kb = b.filter(hp).map_values(kf);
    let sa = stable_sort(ka);
    let sb = stable_sort(kb);
    let ma = sa.map_values(g);
    let mb = sb.map_values(g);
    // Each predicate on keyed entries counts as many in both sorted listings.
    assert forall|p: spec_fn((Seq<Seq<char>>, (Seq<char>, Seq<u8>))) -> bool| #[trigger] ma.filter(p).len()
        == mb.filter(p).len() by {
        let pg = |kv: (Seq<Seq<char>>, SkillFile)| p(g(kv));
        let ph = |x: (Seq<char>, Seq<u8>)| p(h(x));
        let q = |f: SkillFile| pg(kf(f));
        let r = |f: SkillFile| ph(e(f));
        assert(q =~= r);
        lemma_map_filter_len(sa, g, p);
        lemma_map_filter_len(sb, g, p);
        lemma_stable_sort_counts(ka, pg);
        lemma_stable_sort_counts(kb, pg);
        lemma_map_filter_len(a.filter(hp), kf, pg);
        lemma_map_filter_len(b.filter(hp), kf, pg);
        lemma_map_filter_len(a.filter(hp), e, ph);
        lemma_map_filter_len(b.filter(hp), e, ph);
        assert(hashed_entries(a).filter(ph).len() == hashed_entries(b).filter(ph).len());
    }
    // No two entries of the sorted listing share a key.
    lemma_hashed_keys_distinct(a);
    assert forall|k: Seq<Seq<char>>| #[trigger] ma.filter(key_is::<(Seq<char>, Seq<u8>)>(k)).len() <= 1 by {
        let pk = key_is::<(Seq<char>, Seq<u8>)>(k);
        let pg = |kv: (Seq<Seq<char>>, SkillFile)| pk(g(kv));
        assert(pg =~= key_is::<SkillFile>(k));
        lemma_map_filter_len(sa, g, pk);
        lemma_stable_sort_counts(ka, key_is::<SkillFile>(k));
        assert(ka.filter(key_is::<SkillFile>(k)).len() <= 1);
    }
    // Both sorted listings are ordered by key.
    lemma_stable_sort_sorted(ka);
    lemma_stable_sort_sorted(kb);
    lemma_stable_sort_counts(ka, |kv: (Seq<Seq<char>>, SkillFile)| true);
    lemma_stable_sort_counts(kb, |kv: (Seq<Seq<char>>, SkillFile)| true);
    assert(keys_sorted(ma)) by {
        assert forall|i: int, j: int| 0 <= i < j < ma.len() implies !crate::sorting::comps_lt(
            #[trigger] ma[j].0,
            #[trigger] ma[i].0,
        ) by {
            assert(ma[j].0 == sa[j].0);
            assert(ma[i].0 == sa[i].0);
        }
    }
    assert(keys_sorted(mb)) by {
        assert forall|i: int, j: int| 0 <= i < j < mb.len() implies !crate::sorting::comps_lt(
            #[trigger] mb[j].0,
            #[trigger] mb[i].0,
        ) by {
            assert(mb[j].0 == sb[j].0);
            assert(mb[i].0 == sb[i].0);
        }
    }
    lemma_sorted_unique(ma, mb);
    let sn = |p: (Seq<Seq<char>>, (Seq<char>, Seq<u8>))| p.1;
    assert(hash_order(a).map_values(e) =~= ma.map_values(sn));
    assert(hash_order(b).map_values(e) =~= mb.map_values(sn));
    lemma_stream_of_entries(hash_order(a), hash_order(b));
}
} // verus!
