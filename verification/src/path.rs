//! Paths as sequences of bytes, with the separator `/`.
//!
//! The trash keeps every location it works with (the trash directories, the
//! files it moves, the metadata it writes) as the bytes of the path, which
//! need not be valid Unicode. This module states, and implements, how such a
//! path is extended by a component, how its final file name is found, and
//! how that name's stem and extension are split and replaced, the way a Unix
//! path behaves.

use vstd::prelude::*;
use vstd::slice::{slice_subrange, slice_to_vec};

verus! {

/// The byte of the path separator, `/`.
pub const SEPARATOR: u8 = 47;

/// The byte of a dot, `.`.
pub const DOT: u8 = 46;

// ---------------------------------------------------------------------------
// Model
// ---------------------------------------------------------------------------

/// Position just past the last `/` in `p`, or 0 when `p` has none: where the
/// final segment of `p` begins.
pub open spec fn seg_start(p: Seq<u8>) -> nat
    decreases p.len(),
{
    if p.len() == 0 {
        0
    } else if p.last() == SEPARATOR {
        p.len()
    } else {
        seg_start(p.drop_last())
    }
}

/// Where the final file name of `p` lies in `p`, as a span `[start, end)`.
/// Empty segments and `.` segments at the end are passed over; a path that
/// ends in `..`, that is empty, or that is only a root or `.` has no file name.
pub open spec fn name_span(p: Seq<u8>) -> Option<(nat, nat)>
    decreases p.len(),
{
    if p.len() == 0 {
        None
    } else {
        proof {
            lemma_seg_start(p);
        }
        let k = seg_start(p);
        let seg = p.subrange(k as int, p.len() as int);
        if seg.len() == 0 || seg == seq![DOT] {
            if k == 0 {
                None
            } else {
                name_span(p.take(k - 1))
            }
        } else if seg == seq![DOT, DOT] {
            None
        } else {
            Some((k, p.len()))
        }
    }
}

/// The final file name of `p`, if it has one.
pub open spec fn spec_file_name(p: Seq<u8>) -> Option<Seq<u8>> {
    match name_span(p) {
        Some((s, e)) => Some(p.subrange(s as int, e as int)),
        None => None,
    }
}

/// Index of the last `.` in `n`, or -1 when `n` has none.
pub open spec fn last_dot(n: Seq<u8>) -> int
    decreases n.len(),
{
    if n.len() == 0 {
        -1
    } else if n.last() == DOT {
        n.len() - 1
    } else {
        last_dot(n.drop_last())
    }
}

/// The stem of the file name `n`: what comes before its last `.`, or all of
/// `n` when it has no `.` other than a leading one.
pub open spec fn name_stem(n: Seq<u8>) -> Seq<u8> {
    if n == seq![DOT, DOT] || last_dot(n) <= 0 {
        n
    } else {
        n.take(last_dot(n))
    }
}

/// The extension of the file name `n`: what follows its last `.`, if that
/// `.` is not the first character.
pub open spec fn name_extension(n: Seq<u8>) -> Option<Seq<u8>> {
    if n == seq![DOT, DOT] || last_dot(n) <= 0 {
        None
    } else {
        Some(n.skip(last_dot(n) + 1))
    }
}

/// The stem of the file name of `p`.
pub open spec fn spec_file_stem(p: Seq<u8>) -> Option<Seq<u8>> {
    match spec_file_name(p) {
        Some(n) => Some(name_stem(n)),
        None => None,
    }
}

/// The extension of the file name of `p`.
pub open spec fn spec_extension(p: Seq<u8>) -> Option<Seq<u8>> {
    match spec_file_name(p) {
        Some(n) => name_extension(n),
        None => None,
    }
}

/// Whether `p` starts at the root.
pub open spec fn spec_is_absolute(p: Seq<u8>) -> bool {
    p.len() > 0 && p[0] == SEPARATOR
}

/// `base` extended by `comp`: an absolute `comp` replaces `base`; otherwise a
/// separator is put between them unless `base` is empty or already ends in one.
pub open spec fn spec_push(base: Seq<u8>, comp: Seq<u8>) -> Seq<u8> {
    if spec_is_absolute(comp) {
        comp
    } else if base.len() > 0 && base.last() != SEPARATOR {
        base + seq![SEPARATOR] + comp
    } else {
        base + comp
    }
}

/// How much of `q` is left once trailing separators and trailing `.`
/// segments are dropped; a lone root, and a leading `.`, stay.
pub open spec fn trim_len(q: Seq<u8>) -> nat
    decreases q.len(),
{
    if q.len() == 0 {
        0
    } else if q.len() == 1 && q[0] == SEPARATOR {
        1
    } else if q.last() == SEPARATOR {
        trim_len(q.drop_last())
    } else {
        proof {
            lemma_seg_start(q);
        }
        let k = seg_start(q);
        if k > 0 && q.subrange(k as int, q.len() as int) == seq![DOT] {
            trim_len(q.take(k as int))
        } else {
            q.len()
        }
    }
}

/// `p` with its file name replaced by `name`: the file name, and what
/// follows it, is removed together with the separators and `.` segments
/// before it, and `name` is pushed onto what is left. A path without a file
/// name is extended by `name`.
pub open spec fn spec_set_file_name(p: Seq<u8>, name: Seq<u8>) -> Seq<u8> {
    match name_span(p) {
        Some((s, e)) => {
            let dir = p.take(s as int);
            spec_push(dir.take(trim_len(dir) as int), name)
        },
        None => spec_push(p, name),
    }
}

/// `p` with the extension of its file name replaced by `ext`: `p` is cut
/// right after the stem of its file name, and `.` and `ext` are added unless
/// `ext` is empty. A path without a file name stays as it is.
pub open spec fn spec_set_extension(p: Seq<u8>, ext: Seq<u8>) -> Seq<u8> {
    match name_span(p) {
        Some((s, e)) => {
            let stem = name_stem(p.subrange(s as int, e as int));
            let kept = p.take((s + stem.len()) as int);
            if ext.len() == 0 {
                kept
            } else {
                kept + seq![DOT] + ext
            }
        },
        None => p,
    }
}

/// A single path component that names a file: not empty, free of `/`, and
/// neither `.` nor `..`.
pub open spec fn is_plain_name(n: Seq<u8>) -> bool {
    &&& n.len() > 0
    &&& !n.contains(SEPARATOR)
    &&& n != seq![DOT]
    &&& n != seq![DOT, DOT]
}

// ---------------------------------------------------------------------------
// Facts about the model
// ---------------------------------------------------------------------------

/// The final segment starts within `p`, after its last `/`.
pub proof fn lemma_seg_start(p: Seq<u8>)
    ensures
        seg_start(p) <= p.len(),
        seg_start(p) > 0 ==> p[seg_start(p) - 1] == SEPARATOR,
        forall|i: int| seg_start(p) <= i < p.len() ==> p[i] != SEPARATOR,
    decreases p.len(),
{
    if p.len() > 0 && p.last() != SEPARATOR {
        lemma_seg_start(p.drop_last());
        assert forall|i: int| seg_start(p) <= i < p.len() implies p[i] != SEPARATOR by {
            if i < p.len() - 1 {
                assert(p.drop_last()[i] == p[i]);
            }
        }
    }
}

/// A segment free of `/` after a separator starts at that separator.
pub proof fn lemma_seg_start_after(a: Seq<u8>, b: Seq<u8>)
    requires
        a.len() > 0,
        a.last() == SEPARATOR,
        !b.contains(SEPARATOR),
    ensures
        seg_start(a + b) == a.len(),
    decreases b.len(),
{
    if b.len() == 0 {
        assert(a + b =~= a);
    } else {
        assert((a + b).last() == b.last());
        assert((a + b).drop_last() =~= a + b.drop_last());
        assert(b.last() != SEPARATOR) by {
            assert(b.contains(b.last()));
        }
        assert(!b.drop_last().contains(SEPARATOR)) by {
            if b.drop_last().contains(SEPARATOR) {
                let i = choose|i: int| 0 <= i < b.drop_last().len() && b.drop_last()[i] == SEPARATOR;
                assert(b[i] == SEPARATOR);
            }
        }
        lemma_seg_start_after(a, b.drop_last());
    }
}

/// A segment free of `/` that makes up the whole path starts at 0.
pub proof fn lemma_seg_start_whole(b: Seq<u8>)
    requires
        !b.contains(SEPARATOR),
    ensures
        seg_start(b) == 0,
    decreases b.len(),
{
    if b.len() > 0 {
        assert(b.last() != SEPARATOR) by {
            assert(b.contains(b.last()));
        }
        assert(!b.drop_last().contains(SEPARATOR)) by {
            if b.drop_last().contains(SEPARATOR) {
                let i = choose|i: int| 0 <= i < b.drop_last().len() && b.drop_last()[i] == SEPARATOR;
                assert(b[i] == SEPARATOR);
            }
        }
        lemma_seg_start_whole(b.drop_last());
    }
}

/// The span of a file name lies within the path, is not empty, and holds a
/// plain name.
pub proof fn lemma_name_span(p: Seq<u8>)
    ensures
        name_span(p) matches Some((s, e)) ==> {
            &&& s < e <= p.len()
            &&& is_plain_name(p.subrange(s as int, e as int))
        },
    decreases p.len(),
{
    if p.len() > 0 {
        let k = seg_start(p);
        lemma_seg_start(p);
        let seg = p.subrange(k as int, p.len() as int);
        if seg.len() == 0 || seg == seq![DOT] {
            if k > 0 {
                lemma_name_span(p.take(k - 1));
                if let Some((s, e)) = name_span(p.take(k - 1)) {
                    assert(p.take(k - 1).subrange(s as int, e as int) =~= p.subrange(s as int, e as int));
                }
            }
        } else if seg != seq![DOT, DOT] {
            assert(!seg.contains(SEPARATOR)) by {
                if seg.contains(SEPARATOR) {
                    let i = choose|i: int| 0 <= i < seg.len() && seg[i] == SEPARATOR;
                    assert(p[k + i] == SEPARATOR);
                }
            }
        }
    }
}

/// A plain name pushed onto any path is that path's file name, found right
/// after the path it was pushed onto (and its separator).
pub proof fn lemma_push_name_span(base: Seq<u8>, name: Seq<u8>)
    requires
        is_plain_name(name),
    ensures
        ({
            let p = spec_push(base, name);
            let s = (p.len() - name.len()) as nat;
            &&& name_span(p) == Some((s, p.len()))
            &&& p.take(s as int) == (if base.len() > 0 && base.last() != SEPARATOR { base + seq![SEPARATOR] } else { base })
        }),
{
    let p = spec_push(base, name);
    assert(!spec_is_absolute(name)) by {
        if spec_is_absolute(name) {
            assert(name.contains(name[0]));
        }
    }
    let pre = if base.len() > 0 && base.last() != SEPARATOR { base + seq![SEPARATOR] } else { base };
    assert(p =~= pre + name);
    if pre.len() == 0 {
        assert(pre + name =~= name);
        lemma_seg_start_whole(name);
    } else {
        assert(pre.last() == SEPARATOR);
        lemma_seg_start_after(pre, name);
    }
    assert(p.subrange(pre.len() as int, p.len() as int) =~= name);
    assert(p.take(pre.len() as int) =~= pre);
}

/// Pushing a plain name makes it the file name.
pub proof fn lemma_push_file_name(base: Seq<u8>, name: Seq<u8>)
    requires
        is_plain_name(name),
    ensures
        spec_file_name(spec_push(base, name)) == Some(name),
{
    lemma_push_name_span(base, name);
    let p = spec_push(base, name);
    assert(p.subrange((p.len() - name.len()) as int, p.len() as int) =~= name) by {
        let pre = if base.len() > 0 && base.last() != SEPARATOR { base + seq![SEPARATOR] } else { base };
        assert(p =~= pre + name);
    }
}

/// What `trim_len` keeps is a prefix of `q`.
pub proof fn lemma_trim_len(q: Seq<u8>)
    ensures
        trim_len(q) <= q.len(),
    decreases q.len(),
{
    if q.len() == 0 {
    } else if q.len() == 1 && q[0] == SEPARATOR {
    } else if q.last() == SEPARATOR {
        lemma_trim_len(q.drop_last());
    } else {
        let k = seg_start(q);
        lemma_seg_start(q);
        if k > 0 && q.subrange(k as int, q.len() as int) == seq![DOT] {
            lemma_trim_len(q.take(k as int));
        }
    }
}

/// The last `.` of a name lies within it.
pub proof fn lemma_last_dot(n: Seq<u8>)
    ensures
        -1 <= last_dot(n) < n.len(),
        last_dot(n) >= 0 ==> n[last_dot(n)] == DOT,
        forall|i: int| last_dot(n) < i < n.len() ==> n[i] != DOT,
    decreases n.len(),
{
    if n.len() > 0 && n.last() != DOT {
        lemma_last_dot(n.drop_last());
        assert forall|i: int| last_dot(n) < i < n.len() implies n[i] != DOT by {
            if i < n.len() - 1 {
                assert(n.drop_last()[i] == n[i]);
            }
        }
    }
}

// ---------------------------------------------------------------------------
// Laws
// ---------------------------------------------------------------------------

/// Setting a non-empty extension free of `.` and `/` on a path with a file
/// name makes that the path's extension.
pub proof fn lemma_set_extension_extension(p: Seq<u8>, ext: Seq<u8>)
    requires
        spec_file_name(p) is Some,
        ext.len() > 0,
        !ext.contains(DOT),
        !ext.contains(SEPARATOR),
    ensures
        spec_extension(spec_set_extension(p, ext)) == Some(ext),
{
    lemma_name_span(p);
    let (s, e) = name_span(p).unwrap();
    let n = p.subrange(s as int, e as int);
    let stem = name_stem(n);
    lemma_last_dot(n);
    assert(stem.len() >= 1 && stem.len() <= n.len());
    let kept = p.take((s + stem.len()) as int);
    let r = kept + seq![DOT] + ext;
    assert(spec_set_extension(p, ext) == r);
    // the new file name is the stem, a dot and the extension
    let dir = p.take(s as int);
    let newname = stem + seq![DOT] + ext;
    assert(stem =~= n.take(stem.len() as int));
    assert(kept =~= dir + stem);
    assert(r =~= dir + newname);
    assert(!stem.contains(SEPARATOR)) by {
        if stem.contains(SEPARATOR) {
            let i = choose|i: int| 0 <= i < stem.len() && stem[i] == SEPARATOR;
            assert(n[i] == SEPARATOR);
            assert(n.contains(SEPARATOR));
        }
    }
    assert(!newname.contains(SEPARATOR)) by {
        if newname.contains(SEPARATOR) {
            let i = choose|i: int| 0 <= i < newname.len() && newname[i] == SEPARATOR;
            if i < stem.len() {
                assert(stem[i] == SEPARATOR);
                assert(stem.contains(SEPARATOR));
            } else if i > stem.len() {
                assert(ext[i - stem.len() - 1] == SEPARATOR);
                assert(ext.contains(SEPARATOR));
            }
        }
    }
    lemma_seg_start(p);
    if s == 0 {
        assert(r =~= newname);
        lemma_seg_start_whole(newname);
    } else {
        // the name begins right after a separator
        assert(p[s - 1] == SEPARATOR) by {
            lemma_name_span_after_sep(p);
        }
        assert(dir.last() == SEPARATOR);
        lemma_seg_start_after(dir, newname);
    }
    assert(r.subrange(s as int, r.len() as int) =~= newname);
    assert(newname != seq![DOT]);
    assert(newname != seq![DOT, DOT]) by {
        if newname == seq![DOT, DOT] {
            assert(newname.len() == 2);
            assert(ext.len() == 1 && stem.len() == 0);
        }
    }
    assert(name_span(r) == Some((s, r.len())));
    assert(spec_file_name(r) == Some(newname));
    // the extension of the new name is `ext`
    assert(newname[stem.len() as int] == DOT);
    assert forall|i: int| stem.len() < i < newname.len() implies newname[i] != DOT by {
        assert(newname[i] == ext[i - stem.len() - 1]);
        if ext[i - stem.len() - 1] == DOT {
            assert(ext.contains(DOT));
        }
    }
    lemma_last_dot_is(newname, stem.len() as int);
    assert(newname.skip(stem.len() as int + 1) =~= ext);
}

/// The name found by `name_span` begins at the start of the path or right
/// after a separator.
pub proof fn lemma_name_span_after_sep(p: Seq<u8>)
    ensures
        name_span(p) matches Some((s, e)) ==> (s == 0 || p[s - 1] == SEPARATOR),
    decreases p.len(),
{
    if p.len() > 0 {
        let k = seg_start(p);
        lemma_seg_start(p);
        let seg = p.subrange(k as int, p.len() as int);
        if seg.len() == 0 || seg == seq![DOT] {
            if k > 0 {
                lemma_name_span_after_sep(p.take(k - 1));
                lemma_name_span(p.take(k - 1));
            }
        }
    }
}

/// A `.` at position `d`, with none after it, is the last `.`.
pub proof fn lemma_last_dot_is(n: Seq<u8>, d: int)
    requires
        0 <= d < n.len(),
        n[d] == DOT,
        forall|i: int| d < i < n.len() ==> n[i] != DOT,
    ensures
        last_dot(n) == d,
    decreases n.len(),
{
    if n.len() - 1 != d {
        assert(n.last() != DOT);
        lemma_last_dot_is(n.drop_last(), d);
    }
}


/// What is left of `p` once its file name, and what follows it, is removed
/// together with the separators and `.` segments before it (all of `p` when
/// it has no file name).
pub open spec fn parent_dir(p: Seq<u8>) -> Seq<u8> {
    match name_span(p) {
        Some((s, e)) => {
            let dir = p.take(s as int);
            dir.take(trim_len(dir) as int)
        },
        None => p,
    }
}

/// Dropping trailing separators and `.` segments a second time drops nothing.
pub proof fn lemma_trim_idempotent(q: Seq<u8>)
    ensures
        trim_len(q.take(trim_len(q) as int)) == trim_len(q),
    decreases q.len(),
{
    lemma_trim_len(q);
    if q.len() == 0 {
    } else if q.len() == 1 && q[0] == SEPARATOR {
        assert(q.take(1) =~= q);
    } else if q.last() == SEPARATOR {
        let d = q.drop_last();
        lemma_trim_len(d);
        lemma_trim_idempotent(d);
        assert(q.take(trim_len(q) as int) =~= d.take(trim_len(d) as int));
    } else {
        let k = seg_start(q);
        lemma_seg_start(q);
        if k > 0 && q.subrange(k as int, q.len() as int) == seq![DOT] {
            let d = q.take(k as int);
            lemma_trim_len(d);
            lemma_trim_idempotent(d);
            assert(q.take(trim_len(q) as int) =~= d.take(trim_len(d) as int));
        } else {
            assert(q.take(q.len() as int) =~= q);
        }
    }
}

/// The directory left of a path with a file name is already trimmed.
pub proof fn lemma_parent_dir_trimmed(p: Seq<u8>)
    requires
        name_span(p) is Some,
    ensures
        trim_len(parent_dir(p)) == parent_dir(p).len(),
{
    let (s, e) = name_span(p).unwrap();
    lemma_name_span(p);
    let dir = p.take(s as int);
    lemma_trim_len(dir);
    lemma_trim_idempotent(dir);
}

/// Replacing the file name of a path is pushing the new name onto its
/// directory.
pub proof fn lemma_set_file_name_is_push(p: Seq<u8>, name: Seq<u8>)
    requires
        name_span(p) is Some,
    ensures
        spec_set_file_name(p, name) == spec_push(parent_dir(p), name),
{
}

/// The directory of a plain name pushed onto a trimmed directory is that
/// directory.
pub proof fn lemma_parent_of_push(d: Seq<u8>, name: Seq<u8>)
    requires
        is_plain_name(name),
        trim_len(d) == d.len(),
    ensures
        parent_dir(spec_push(d, name)) == d,
{
    lemma_push_name_span(d, name);
    let p = spec_push(d, name);
    let s = (p.len() - name.len()) as nat;
    let pre = p.take(s as int);
    if d.len() > 0 && d.last() != SEPARATOR {
        assert(pre == d + seq![SEPARATOR]);
        assert(pre.len() >= 2);
        assert(pre.last() == SEPARATOR);
        assert(pre.drop_last() =~= d);
        assert(trim_len(pre) == trim_len(d));
        assert(pre.take(d.len() as int) =~= d);
    } else {
        assert(pre == d);
        assert(pre.take(d.len() as int) =~= d);
    }
}

/// A name with a dot and an extension after it, or the name alone when the
/// extension is empty.
pub open spec fn with_extension(name: Seq<u8>, ext: Seq<u8>) -> Seq<u8> {
    if ext.len() == 0 {
        name
    } else {
        name + seq![DOT] + ext
    }
}

/// Setting the extension of a name without dots pushed onto a directory is
/// pushing the name with that extension.
pub proof fn lemma_set_extension_of_push(d: Seq<u8>, name: Seq<u8>, ext: Seq<u8>)
    requires
        is_plain_name(name),
        !name.contains(DOT),
    ensures
        spec_set_extension(spec_push(d, name), ext) == spec_push(d, with_extension(name, ext)),
{
    lemma_push_name_span(d, name);
    let p = spec_push(d, name);
    let s = (p.len() - name.len()) as nat;
    let pre = if d.len() > 0 && d.last() != SEPARATOR { d + seq![SEPARATOR] } else { d };
    assert(p =~= pre + name);
    assert(p.subrange(s as int, p.len() as int) =~= name);
    lemma_last_dot(name);
    assert(last_dot(name) == -1) by {
        if last_dot(name) >= 0 {
            assert(name.contains(name[last_dot(name)]));
        }
    }
    assert(name_stem(name) == name);
    assert(p.take((s + name.len()) as int) =~= p);
    let full = with_extension(name, ext);
    assert(!spec_is_absolute(full)) by {
        assert(full[0] == name[0]);
        assert(name.contains(name[0]));
    }
    assert(spec_push(d, full) =~= pre + full);
}

/// The stem of a plain name is not empty and holds no separator.
pub proof fn lemma_name_stem_plain(name: Seq<u8>)
    requires
        is_plain_name(name),
    ensures
        0 < name_stem(name).len() <= name.len(),
        !name_stem(name).contains(SEPARATOR),
        name_stem(name) == name.take(name_stem(name).len() as int),
{
    lemma_last_dot(name);
    let st = name_stem(name);
    if name == seq![DOT, DOT] || last_dot(name) <= 0 {
        assert(name.take(name.len() as int) =~= name);
    } else {
        assert(!st.contains(SEPARATOR)) by {
            if st.contains(SEPARATOR) {
                let i = choose|i: int| 0 <= i < st.len() && st[i] == SEPARATOR;
                assert(name[i] == SEPARATOR);
                assert(name.contains(SEPARATOR));
            }
        }
    }
}

/// Setting a non-empty extension on a plain name pushed onto a directory is
/// pushing the name's stem with a dot and that extension.
pub proof fn lemma_set_extension_of_push_stem(d: Seq<u8>, name: Seq<u8>, ext: Seq<u8>)
    requires
        is_plain_name(name),
        ext.len() > 0,
    ensures
        spec_set_extension(spec_push(d, name), ext) == spec_push(d, name_stem(name) + seq![DOT] + ext),
{
    lemma_push_name_span(d, name);
    lemma_name_stem_plain(name);
    let p = spec_push(d, name);
    let s = (p.len() - name.len()) as nat;
    let pre = if d.len() > 0 && d.last() != SEPARATOR { d + seq![SEPARATOR] } else { d };
    let st = name_stem(name);
    assert(p =~= pre + name);
    assert(p.subrange(s as int, p.len() as int) =~= name);
    assert(s == pre.len());
    assert forall|i: int| 0 <= i < s + st.len() implies #[trigger] p.take((s + st.len()) as int)[i] == (pre
        + st)[i] by {
        if i >= s {
            assert(st[i - s] == name.take(st.len() as int)[i - s]);
        }
    }
    assert(p.take((s + st.len()) as int) =~= pre + st);
    let full = st + seq![DOT] + ext;
    assert(!spec_is_absolute(full)) by {
        assert(full[0] == st[0]);
        assert(st.contains(st[0]));
    }
    assert(spec_push(d, full) =~= pre + full);
}

/// The stem of a plain name with a dot and a non-empty extension free of
/// separators after it is a plain name.
pub proof fn lemma_stem_with_extension_plain(name: Seq<u8>, ext: Seq<u8>)
    requires
        is_plain_name(name),
        ext.len() > 0,
        !ext.contains(SEPARATOR),
    ensures
        is_plain_name(name_stem(name) + seq![DOT] + ext),
{
    lemma_name_stem_plain(name);
    let st = name_stem(name);
    let f = st + seq![DOT] + ext;
    assert forall|i: int| 0 <= i < f.len() implies f[i] != SEPARATOR by {
        if i < st.len() {
            assert(f[i] == st[i]);
            if st[i] == SEPARATOR {
                assert(st.contains(st[i]));
            }
        } else if i > st.len() {
            assert(f[i] == ext[i - st.len() - 1]);
            if ext[i - st.len() - 1] == SEPARATOR {
                assert(ext.contains(ext[i - st.len() - 1]));
            }
        }
    }
    assert(f.len() >= 3);
}

// ---------------------------------------------------------------------------
// Executable operations
// ---------------------------------------------------------------------------

/// The spans of `find_name_span`, seen as spans of the model.
pub open spec fn span_view(r: Option<(usize, usize)>) -> Option<(nat, nat)> {
    match r {
        Some((s, e)) => Some((s as nat, e as nat)),
        None => None,
    }
}

/// An optional byte vector, seen as an optional sequence of bytes.
pub open spec fn opt_view(r: Option<Vec<u8>>) -> Option<Seq<u8>> {
    match r {
        Some(s) => Some(s@),
        None => None,
    }
}

/// The bytes of `s` in positions `from..to`.
pub fn bytes_between(s: &[u8], from: usize, to: usize) -> (r: Vec<u8>)
    requires
        from <= to <= s@.len(),
    ensures
        r@ == s@.subrange(from as int, to as int),
{
    slice_to_vec(slice_subrange(s, from, to))
}

/// Appends the bytes of `s` to `v`.
pub fn append_bytes(v: &mut Vec<u8>, s: &[u8])
    ensures
        final(v)@ == old(v)@ + s@,
{
    let ghost start = v@;
    let n = s.len();
    let mut i: usize = 0;
    while i < n
        invariant
            n == s@.len(),
            i <= n,
            v@ =~= start + s@.take(i as int),
        decreases n - i,
    {
        v.push(s[i]);
        i = i + 1;
        assert(v@ =~= start + s@.take(i as int));
    }
    assert(s@.take(n as int) =~= s@);
}

/// Position just past the last `/` among the first `upto` bytes of `p`.
fn seg_start_in(p: &[u8], upto: usize) -> (k: usize)
    requires
        upto <= p@.len(),
    ensures
        k == seg_start(p@.take(upto as int)),
{
    let mut i = upto;
    while i > 0 && p[i - 1] != SEPARATOR
        invariant
            i <= upto,
            upto <= p@.len(),
            seg_start(p@.take(upto as int)) == seg_start(p@.take(i as int)),
        decreases i,
    {
        assert(p@.take(i as int).drop_last() =~= p@.take(i - 1));
        i = i - 1;
    }
    i
}

/// Finds where the file name of `p` lies in `p`.
pub fn find_name_span(p: &[u8]) -> (r: Option<(usize, usize)>)
    ensures
        span_view(r) == name_span(p@),
{
    let n = p.len();
    let mut end = n;
    assert(p@.take(n as int) =~= p@);
    loop
        invariant
            end <= n,
            n == p@.len(),
            name_span(p@.take(end as int)) == name_span(p@),
        decreases end,
    {
        if end == 0 {
            return None;
        }
        let k = seg_start_in(p, end);
        let ghost q = p@.take(end as int);
        proof {
            lemma_seg_start(q);
        }
        let ghost seg = q.subrange(k as int, end as int);
        assert(seg =~= p@.subrange(k as int, end as int));
        if k == end || (end - k == 1 && p[k] == DOT) {
            assert(seg.len() == 0 || seg =~= seq![DOT]);
            if k == 0 {
                return None;
            }
            assert(q.take(k - 1) =~= p@.take(k - 1));
            end = k - 1;
        } else if end - k == 2 && p[k] == DOT && p[k + 1] == DOT {
            assert(seg =~= seq![DOT, DOT]);
            return None;
        } else {
            assert(seg.len() != 0);
            assert(seg != seq![DOT]) by {
                if seg == seq![DOT] {
                    assert(seg[0] == DOT);
                }
            }
            assert(seg != seq![DOT, DOT]) by {
                if seg == seq![DOT, DOT] {
                    assert(seg[0] == DOT && seg[1] == DOT);
                }
            }
            return Some((k, end));
        }
    }
}

/// The final file name of `p`, as `Path::file_name` finds it.
pub fn file_name(p: &[u8]) -> (r: Option<Vec<u8>>)
    ensures
        opt_view(r) == spec_file_name(p@),
{
    proof {
        lemma_name_span(p@);
    }
    match find_name_span(p) {
        Some((s, e)) => Some(bytes_between(p, s, e)),
        None => None,
    }
}

/// Position of the last `.` in `n`, if any.
fn find_last_dot(n: &[u8]) -> (r: Option<usize>)
    ensures
        match r {
            Some(d) => last_dot(n@) == d as int,
            None => last_dot(n@) == -1,
        },
{
    let len = n.len();
    let mut i = len;
    assert(n@.take(len as int) =~= n@);
    while i > 0 && n[i - 1] != DOT
        invariant
            i <= len,
            len == n@.len(),
            last_dot(n@) == last_dot(n@.take(i as int)),
        decreases i,
    {
        assert(n@.take(i as int).drop_last() =~= n@.take(i - 1));
        i = i - 1;
    }
    if i == 0 {
        None
    } else {
        Some(i - 1)
    }
}

/// Whether `n` is `..`.
fn is_dot_dot(n: &[u8]) -> (r: bool)
    ensures
        r == (n@ == seq![DOT, DOT]),
{
    let r = n.len() == 2 && n[0] == DOT && n[1] == DOT;
    if r {
        assert(n@ =~= seq![DOT, DOT]);
    } else {
        assert(n@ != seq![DOT, DOT]) by {
            if n@ == seq![DOT, DOT] {
                assert(n@.len() == 2 && n@[0] == DOT && n@[1] == DOT);
            }
        }
    }
    r
}

/// Length of the stem of the file name `n`; the stem is that many leading
/// bytes of `n`.
fn stem_len(n: &[u8]) -> (r: usize)
    ensures
        r <= n@.len(),
        name_stem(n@) == n@.take(r as int),
{
    proof {
        lemma_last_dot(n@);
    }
    let len = n.len();
    assert(n@.take(len as int) =~= n@);
    if is_dot_dot(n) {
        return len;
    }
    match find_last_dot(n) {
        Some(d) => if d == 0 {
            len
        } else {
            d
        },
        None => len,
    }
}

/// The extension of the file name `n`, if it has one.
fn name_extension_of(n: &[u8]) -> (r: Option<Vec<u8>>)
    ensures
        opt_view(r) == name_extension(n@),
{
    proof {
        lemma_last_dot(n@);
    }
    let len = n.len();
    if is_dot_dot(n) {
        return None;
    }
    match find_last_dot(n) {
        Some(d) => {
            if d == 0 {
                None
            } else {
                let r = bytes_between(n, d + 1, len);
                assert(r@ =~= n@.skip(d + 1));
                Some(r)
            }
        },
        None => None,
    }
}

/// The stem of the file name of `p`, as `Path::file_stem` splits it.
pub fn file_stem(p: &[u8]) -> (r: Option<Vec<u8>>)
    ensures
        opt_view(r) == spec_file_stem(p@),
{
    match file_name(p) {
        Some(n) => {
            let k = stem_len(n.as_slice());
            Some(bytes_between(n.as_slice(), 0, k))
        },
        None => None,
    }
}

/// The extension of the file name of `p`, as `Path::extension` splits it.
pub fn extension(p: &[u8]) -> (r: Option<Vec<u8>>)
    ensures
        opt_view(r) == spec_extension(p@),
{
    match file_name(p) {
        Some(n) => name_extension_of(n.as_slice()),
        None => None,
    }
}

/// Whether `p` starts at the root.
pub fn is_absolute(p: &[u8]) -> (r: bool)
    ensures
        r == spec_is_absolute(p@),
{
    p.len() > 0 && p[0] == SEPARATOR
}

/// `base` extended by `comp`, as `PathBuf::push` extends a path.
pub fn push(base: &[u8], comp: &[u8]) -> (r: Vec<u8>)
    ensures
        r@ == spec_push(base@, comp@),
{
    if is_absolute(comp) {
        return slice_to_vec(comp);
    }
    let n = base.len();
    let mut r = slice_to_vec(base);
    if n > 0 && base[n - 1] != SEPARATOR {
        r.push(SEPARATOR);
    }
    append_bytes(&mut r, comp);
    r
}

/// How many leading bytes of the first `upto` bytes of `q` stay once
/// trailing separators and `.` segments are dropped.
fn trimmed_len(q: &[u8], upto: usize) -> (r: usize)
    requires
        upto <= q@.len(),
    ensures
        r == trim_len(q@.take(upto as int)),
{
    let mut end = upto;
    loop
        invariant
            end <= upto,
            upto <= q@.len(),
            trim_len(q@.take(end as int)) == trim_len(q@.take(upto as int)),
        decreases end,
    {
        let ghost t = q@.take(end as int);
        if end == 0 {
            return 0;
        }
        if end == 1 && q[0] == SEPARATOR {
            return 1;
        }
        if q[end - 1] == SEPARATOR {
            assert(t.drop_last() =~= q@.take(end - 1));
            end = end - 1;
        } else {
            let k = seg_start_in(q, end);
            proof {
                lemma_seg_start(t);
            }
            if k > 0 && end - k == 1 && q[k] == DOT {
                assert(t.subrange(k as int, end as int) =~= seq![DOT]);
                assert(t.take(k as int) =~= q@.take(k as int));
                end = k;
            } else {
                assert(!(k > 0 && t.subrange(k as int, end as int) == seq![DOT])) by {
                    if k > 0 && t.subrange(k as int, end as int) == seq![DOT] {
                        assert(t.subrange(k as int, end as int).len() == 1);
                        assert(t.subrange(k as int, end as int)[0] == q@[k as int]);
                    }
                }
                return end;
            }
        }
    }
}

/// `p` with its file name replaced by `name`, as `PathBuf::set_file_name`
/// replaces it.
pub fn set_file_name(p: &[u8], name: &[u8]) -> (r: Vec<u8>)
    ensures
        r@ == spec_set_file_name(p@, name@),
{
    proof {
        lemma_name_span(p@);
    }
    match find_name_span(p) {
        Some((s, _e)) => {
            let t = trimmed_len(p, s);
            proof {
                lemma_trim_len(p@.take(s as int));
            }
            let dir = bytes_between(p, 0, t);
            assert(dir@ =~= p@.take(s as int).take(t as int));
            push(dir.as_slice(), name)
        },
        None => push(p, name),
    }
}

/// `p` with the extension of its file name replaced by `ext`, as
/// `PathBuf::set_extension` replaces it; an extension holding a separator is
/// refused.
pub fn set_extension(p: &[u8], ext: &[u8]) -> (r: Vec<u8>)
    requires
        !ext@.contains(SEPARATOR),
    ensures
        r@ == spec_set_extension(p@, ext@),
{
    proof {
        lemma_name_span(p@);
    }
    match find_name_span(p) {
        Some((s, e)) => {
            let n = bytes_between(p, s, e);
            let k = stem_len(n.as_slice());
            let mut r = bytes_between(p, 0, s + k);
            if ext.len() > 0 {
                r.push(DOT);
                append_bytes(&mut r, ext);
            }
            r
        },
        None => slice_to_vec(p),
    }
}

} // verus!
