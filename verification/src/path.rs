//! Unix path text: joining, final component, parent and extension, with the
//! meaning that `std::path::Path` gives them.
//!
//! A path is read as an optional root `/` or leading `.` component, then body
//! segments separated by `/`. Empty segments and `.` segments in the body carry
//! no meaning; `..` is a component of its own.

use vstd::prelude::*;
use crate::text::{chars_of, push_chars, string_of};

verus! {

// ---------------------------------------------------------------------------
// Specifications
// ---------------------------------------------------------------------------

/// Whether the path starts at the root.
pub open spec fn is_absolute(p: Seq<char>) -> bool {
    p.len() > 0 && p[0] == '/'
}

/// Length of the part before the body: the root, or a leading `.` component.
pub open spec fn head_len(p: Seq<char>) -> int {
    if is_absolute(p) {
        1
    } else if p.len() > 0 && p[0] == '.' && (p.len() == 1 || p[1] == '/') {
        1
    } else {
        0
    }
}

/// Start of the last segment of `p[..k]`: just after its last `/` at or beyond `lo`, else `lo`.
pub open spec fn seg_start(p: Seq<char>, lo: int, k: int) -> int
    decreases k - lo,
{
    if k <= lo {
        lo
    } else if p[k - 1] == '/' {
        k
    } else {
        seg_start(p, lo, k - 1)
    }
}

/// Length left when the last segment starting at `s`, and the `/` before it, are cut off.
pub open spec fn cut_at(s: int, lo: int) -> int {
    if s > lo {
        s - 1
    } else {
        s
    }
}

/// A segment without meaning: empty, or a single `.`.
pub open spec fn is_blank_segment(seg: Seq<char>) -> bool {
    seg.len() == 0 || seg == seq!['.']
}

/// Length of `p[..n]` once trailing blank segments are dropped.
pub open spec fn strip_len(p: Seq<char>, lo: int, n: int) -> int
    decreases n - lo,
{
    if n > lo {
        let s = seg_start(p, lo, n);
        if lo <= s <= n && is_blank_segment(p.subrange(s, n)) {
            if lo <= cut_at(s, lo) < n {
                strip_len(p, lo, cut_at(s, lo))
            } else {
                n
            }
        } else {
            n
        }
    } else {
        n
    }
}

/// `base` with `part` pushed on, as `PathBuf::push` does on Unix: an absolute
/// part replaces the base, and a `/` is put between them unless the base is
/// empty or already ends with one.
pub open spec fn join_path(base: Seq<char>, part: Seq<char>) -> Seq<char> {
    if is_absolute(part) {
        part
    } else if base.len() == 0 {
        part
    } else if base.last() == '/' {
        base + part
    } else {
        base + seq!['/'] + part
    }
}

/// The final component of a path, unless the path ends in a root, a leading `.`, or `..`.
pub open spec fn file_name_of(p: Seq<char>) -> Option<Seq<char>> {
    let lo = head_len(p);
    let n = strip_len(p, lo, p.len() as int);
    if n > lo {
        let seg = p.subrange(seg_start(p, lo, n), n);
        if seg == seq!['.', '.'] {
            None
        } else {
            Some(seg)
        }
    } else {
        None
    }
}

/// The path without its final component; none for the root and for the empty path.
pub open spec fn parent_of(p: Seq<char>) -> Option<Seq<char>> {
    let lo = head_len(p);
    let n = strip_len(p, lo, p.len() as int);
    if n > lo {
        let s = seg_start(p, lo, n);
        Some(p.subrange(0, strip_len(p, lo, cut_at(s, lo))))
    } else if is_absolute(p) {
        None
    } else if lo == 1 {
        Some(Seq::empty())
    } else {
        None
    }
}

/// The text after the last `.` of a file name; none when there is no `.`,
/// when the only `.` is the first character, and for `..`.
pub open spec fn name_extension(name: Seq<char>) -> Option<Seq<char>> {
    let s = seg_dot_start(name, name.len() as int);
    if name == seq!['.', '.'] || s <= 1 {
        None
    } else {
        Some(name.subrange(s, name.len() as int))
    }
}

/// Just after the last `.` of `name[..k]`, or zero when there is none.
pub open spec fn seg_dot_start(name: Seq<char>, k: int) -> int
    decreases k,
{
    if k <= 0 {
        0
    } else if name[k - 1] == '.' {
        k
    } else {
        seg_dot_start(name, k - 1)
    }
}

/// The extension of a path's final component.
pub open spec fn extension_of(p: Seq<char>) -> Option<Seq<char>> {
    match file_name_of(p) {
        Some(name) => name_extension(name),
        None => None,
    }
}

/// A name that is one plain path segment: not empty, no `/`, and not `.` or `..`.
pub open spec fn is_plain_segment(name: Seq<char>) -> bool {
    &&& name.len() > 0
    &&& !name.contains('/')
    &&& name != seq!['.']
    &&& name != seq!['.', '.']
}

// ---------------------------------------------------------------------------
// Executable functions
// ---------------------------------------------------------------------------

fn head_length(v: &Vec<char>) -> (r: usize)
    ensures
        r == head_len(v@),
{
    if v.len() > 0 && v[0] == '/' {
        1
    } else if v.len() > 0 && v[0] == '.' && (v.len() == 1 || v[1] == '/') {
        1
    } else {
        0
    }
}

fn segment_start(v: &Vec<char>, lo: usize, n: usize) -> (r: usize)
    requires
        lo <= n <= v.len(),
    ensures
        r == seg_start(v@, lo as int, n as int),
        lo <= r <= n,
{
    let mut k = n;
    while k > lo && v[k - 1] != '/'
        invariant
            lo <= k <= n <= v.len(),
            seg_start(v@, lo as int, k as int) == seg_start(v@, lo as int, n as int),
        decreases k,
    {
        k = k - 1;
    }
    k
}

fn is_blank(v: &Vec<char>, s: usize, n: usize) -> (r: bool)
    requires
        s <= n <= v.len(),
    ensures
        r == is_blank_segment(v@.subrange(s as int, n as int)),
{
    if s == n {
        true
    } else if n - s == 1 && v[s] == '.' {
        assert(v@.subrange(s as int, n as int) =~= seq!['.']);
        true
    } else {
        assert(n - s != 1 ==> v@.subrange(s as int, n as int).len() != 1);
        assert(n - s == 1 ==> v@.subrange(s as int, n as int)[0] != '.');
        false
    }
}

fn stripped_length(v: &Vec<char>, lo: usize, n: usize) -> (r: usize)
    requires
        lo <= n <= v.len(),
    ensures
        r == strip_len(v@, lo as int, n as int),
        lo <= r <= n,
{
    let mut m = n;
    loop
        invariant
            lo <= m <= n <= v.len(),
            strip_len(v@, lo as int, m as int) == strip_len(v@, lo as int, n as int),
        decreases m,
    {
        if m <= lo {
            return m;
        }
        let s = segment_start(v, lo, m);
        if !is_blank(v, s, m) {
            return m;
        }
        let c = if s > lo { s - 1 } else { s };
        if c >= m {
            return m;
        }
        m = c;
    }
}

/// `base` joined with `part` (`PathBuf::join` on Unix).
pub fn join(base: &str, part: &str) -> (r: String)
    ensures
        r@ == join_path(base@, part@),
{
    let b = chars_of(base);
    let p = chars_of(part);
    if p.len() > 0 && p[0] == '/' {
        string_of(&p)
    } else if b.len() == 0 {
        string_of(&p)
    } else {
        let mut v = b;
        if v[v.len() - 1] != '/' {
            v.push('/');
        }
        push_chars(&mut v, &p);
        string_of(&v)
    }
}

/// Slice of a character vector, as a new vector.
fn slice_chars(v: &Vec<char>, from: usize, to: usize) -> (r: Vec<char>)
    requires
        from <= to <= v.len(),
    ensures
        r@ == v@.subrange(from as int, to as int),
{
    let mut r: Vec<char> = Vec::new();
    for i in from..to
        invariant
            from <= to <= v.len(),
            r@ == v@.subrange(from as int, i as int),
    {
        r.push(v[i]);
        assert(v@.subrange(from as int, i + 1) =~= v@.subrange(from as int, i as int).push(v@[i as int]));
    }
    r
}

/// The final component of the path (`Path::file_name`).
pub fn file_name(path: &str) -> (r: Option<String>)
    ensures
        r matches Some(s) ==> file_name_of(path@) == Some(s@),
        r is None ==> file_name_of(path@) is None,
{
    let v = chars_of(path);
    let lo = head_length(&v);
    let n = stripped_length(&v, lo, v.len());
    if n > lo {
        let s = segment_start(&v, lo, n);
        let seg = slice_chars(&v, s, n);
        if seg.len() == 2 && seg[0] == '.' && seg[1] == '.' {
            assert(seg@ =~= seq!['.', '.']);
            None
        } else {
            assert(seg@ != seq!['.', '.']) by {
                if seg@ == seq!['.', '.'] {
                    assert(seg@.len() == 2 && seg@[0] == '.' && seg@[1] == '.');
                }
            }
            Some(string_of(&seg))
        }
    } else {
        None
    }
}

/// The path without its final component (`Path::parent`).
pub fn parent(path: &str) -> (r: Option<String>)
    ensures
        r matches Some(s) ==> parent_of(path@) == Some(s@),
        r is None ==> parent_of(path@) is None,
{
    let v = chars_of(path);
    let lo = head_length(&v);
    let n = stripped_length(&v, lo, v.len());
    if n > lo {
        let s = segment_start(&v, lo, n);
        let c = if s > lo { s - 1 } else { s };
        let m = stripped_length(&v, lo, c);
        Some(string_of(&slice_chars(&v, 0, m)))
    } else if v.len() > 0 && v[0] == '/' {
        None
    } else if lo == 1 {
        let e: Vec<char> = Vec::new();
        assert(e@ =~= Seq::<char>::empty());
        Some(string_of(&e))
    } else {
        None
    }
}

fn dot_start(v: &Vec<char>) -> (r: usize)
    ensures
        r == seg_dot_start(v@, v@.len() as int),
        r <= v.len(),
{
    let mut k = v.len();
    while k > 0 && v[k - 1] != '.'
        invariant
            k <= v.len(),
            seg_dot_start(v@, k as int) == seg_dot_start(v@, v@.len() as int),
        decreases k,
    {
        k = k - 1;
    }
    k
}

/// The extension of a file name (the second half of `Path::extension`).
pub fn name_ext(name: &Vec<char>) -> (r: Option<Vec<char>>)
    ensures
        r matches Some(e) ==> name_extension(name@) == Some(e@),
        r is None ==> name_extension(name@) is None,
{
    let s = dot_start(name);
    let dotdot = name.len() == 2 && name[0] == '.' && name[1] == '.';
    assert(dotdot == (name@ == seq!['.', '.'])) by {
        if name@ == seq!['.', '.'] {
            assert(name@.len() == 2 && name@[0] == '.' && name@[1] == '.');
        }
        if dotdot {
            assert(name@ =~= seq!['.', '.']);
        }
    }
    if dotdot || s <= 1 {
        None
    } else {
        Some(slice_chars(name, s, name.len()))
    }
}

/// The extension of the path's final component (`Path::extension`).
pub fn extension(path: &str) -> (r: Option<String>)
    ensures
        r matches Some(s) ==> extension_of(path@) == Some(s@),
        r is None ==> extension_of(path@) is None,
{
    match file_name(path) {
        Some(name) => {
            let nv = chars_of(name.as_str());
            match name_ext(&nv) {
                Some(e) => Some(string_of(&e)),
                None => None,
            }
        },
        None => None,
    }
}

} // verus!

verus! {

// ---------------------------------------------------------------------------
// Laws
// ---------------------------------------------------------------------------

proof fn lemma_seg_start_at_boundary(p: Seq<char>, lo: int, b: int, k: int)
    requires
        lo <= b <= k <= p.len(),
        forall|i: int| b <= i < k ==> p[i] != '/',
        b == lo || (b > 0 && p[b - 1] == '/'),
    ensures
        seg_start(p, lo, k) == b,
    decreases k - lo,
{
    if k > lo && k > b {
        lemma_seg_start_at_boundary(p, lo, b, k - 1);
    }
}

proof fn lemma_seg_start_prefix(p: Seq<char>, q: Seq<char>, lo: int, k: int)
    requires
        0 <= lo,
        0 <= k <= p.len(),
        k <= q.len(),
        p.subrange(0, k) == q.subrange(0, k),
    ensures
        seg_start(p, lo, k) == seg_start(q, lo, k),
    decreases k - lo,
{
    if k > lo {
        assert(p[k - 1] == p.subrange(0, k)[k - 1]);
        assert(q[k - 1] == q.subrange(0, k)[k - 1]);
        assert(p.subrange(0, k - 1) =~= p.subrange(0, k).subrange(0, k - 1));
        assert(q.subrange(0, k - 1) =~= q.subrange(0, k).subrange(0, k - 1));
        lemma_seg_start_prefix(p, q, lo, k - 1);
    }
}

pub(crate) proof fn lemma_seg_start_range(p: Seq<char>, lo: int, k: int)
    requires
        lo <= k,
    ensures
        lo <= seg_start(p, lo, k) <= k,
    decreases k - lo,
{
    if k > lo && p[k - 1] != '/' {
        lemma_seg_start_range(p, lo, k - 1);
    }
}

proof fn lemma_strip_len_prefix(p: Seq<char>, q: Seq<char>, lo: int, n: int)
    requires
        0 <= lo,
        0 <= n <= p.len(),
        n <= q.len(),
        p.subrange(0, n) == q.subrange(0, n),
    ensures
        strip_len(p, lo, n) == strip_len(q, lo, n),
    decreases n - lo,
{
    if n > lo {
        lemma_seg_start_prefix(p, q, lo, n);
        lemma_seg_start_range(p, lo, n);
        let s = seg_start(p, lo, n);
        assert(p.subrange(s, n) =~= q.subrange(s, n)) by {
            assert forall|i: int| 0 <= i < n - s implies p.subrange(s, n)[i] == q.subrange(s, n)[i] by {
                assert(p[s + i] == p.subrange(0, n)[s + i]);
                assert(q[s + i] == q.subrange(0, n)[s + i]);
            }
        }
        let c = cut_at(s, lo);
        if lo <= c < n {
            assert(p.subrange(0, c) =~= p.subrange(0, n).subrange(0, c));
            assert(q.subrange(0, c) =~= q.subrange(0, n).subrange(0, c));
            lemma_strip_len_prefix(p, q, lo, c);
        }
    }
}

pub(crate) proof fn lemma_plain_segment_chars(name: Seq<char>)
    requires
        is_plain_segment(name),
    ensures
        forall|i: int| 0 <= i < name.len() ==> name[i] != '/',
        head_len(name) == 0,
        !is_blank_segment(name),
{
    assert forall|i: int| 0 <= i < name.len() implies name[i] != '/' by {
        assert(name.contains(name[i]));
    }
    if name[0] == '.' && name.len() == 1 {
        assert(name =~= seq!['.']);
    }
}

pub(crate) proof fn lemma_join_layout(base: Seq<char>, name: Seq<char>)
    requires
        is_plain_segment(name),
    ensures
        ({
            let j = join_path(base, name);
            let b = j.len() - name.len();
            &&& 0 <= b
            &&& j.subrange(b, j.len() as int) == name
            &&& forall|i: int| b <= i < j.len() ==> j[i] != '/'
            &&& head_len(j) <= b
            &&& (b == head_len(j) || (b > 0 && j[b - 1] == '/'))
            &&& (base.len() > 0 ==> b > 0 && j[b - 1] == '/' && head_len(j) == head_len(base))
            &&& (base.len() > 0 ==> j.subrange(0, base.len() as int) == base)
            &&& (base.len() > 0 && base.last() != '/' ==> b == base.len() + 1)
            &&& (base.len() > 0 && base.last() == '/' ==> b == base.len())
        }),
{
    lemma_plain_segment_chars(name);
    let j = join_path(base, name);
    let b = j.len() - name.len();
    assert(!is_absolute(name));
    assert(j.subrange(b, j.len() as int) =~= name);
    assert forall|i: int| b <= i < j.len() implies j[i] != '/' by {
        assert(j[i] == name[i - b]);
    }
    if base.len() > 0 {
        assert(j.subrange(0, base.len() as int) =~= base);
        assert(j[0] == base[0]);
        if base.len() >= 2 {
            assert(j[1] == base[1]);
        }
    }
}

pub(crate) proof fn lemma_plain_tail(p: Seq<char>, b: int)
    requires
        head_len(p) <= b < p.len(),
        forall|i: int| b <= i < p.len() ==> p[i] != '/',
        b == head_len(p) || (b > 0 && p[b - 1] == '/'),
        !is_blank_segment(p.subrange(b, p.len() as int)),
    ensures
        seg_start(p, head_len(p), p.len() as int) == b,
        strip_len(p, head_len(p), p.len() as int) == p.len(),
{
    lemma_seg_start_at_boundary(p, head_len(p), b, p.len() as int);
}

/// The final component of `base` joined with a plain segment `name` is `name`.
pub proof fn law_file_name_of_join(base: Seq<char>, name: Seq<char>)
    requires
        is_plain_segment(name),
    ensures
        file_name_of(join_path(base, name)) == Some(name),
{
    lemma_plain_segment_chars(name);
    lemma_join_layout(base, name);
    let j = join_path(base, name);
    lemma_plain_tail(j, j.len() - name.len());
}

/// Joining a plain segment onto a base without trailing `/` or `.`
/// segments, then taking the parent, gives the base back.
pub proof fn law_parent_of_join(base: Seq<char>, name: Seq<char>)
    requires
        is_plain_segment(name),
        base.len() > 0,
        strip_len(base, head_len(base), base.len() as int) == base.len(),
    ensures
        parent_of(join_path(base, name)) == Some(base),
{
    lemma_plain_segment_chars(name);
    lemma_join_layout(base, name);
    let j = join_path(base, name);
    let b: int = j.len() - name.len();
    let lo = head_len(j);
    lemma_plain_tail(j, b);
    if base.last() == '/' {
        // A clean base that ends with `/` is the root itself.
        if base.len() > 1 || base[0] != '/' {
            let n0 = base.len() as int;
            assert(lo <= 1);
            let s0 = seg_start(base, lo, n0);
            assert(s0 == n0);
            assert(base.subrange(s0, n0) =~= Seq::<char>::empty());
            if base.len() == 1 {
                assert(lo == 0);
            }
            assert(lo <= cut_at(s0, lo) < n0);
            lemma_strip_len_range(base, lo, cut_at(s0, lo));
            assert(false);
        }
        assert(base =~= seq!['/']);
        assert(j.subrange(0, 1) =~= base);
    } else {
        assert(cut_at(b, lo) == base.len());
        assert(base.subrange(0, base.len() as int) =~= base);
        lemma_strip_len_prefix(j, base, lo, base.len() as int);
    }
}

pub(crate) proof fn lemma_strip_len_range(p: Seq<char>, lo: int, n: int)
    requires
        lo <= n,
    ensures
        lo <= strip_len(p, lo, n) <= n,
    decreases n - lo,
{
    if n > lo {
        let s = seg_start(p, lo, n);
        let c = cut_at(s, lo);
        if lo <= s <= n && is_blank_segment(p.subrange(s, n)) && lo <= c < n {
            lemma_strip_len_range(p, lo, c);
        }
    }
}

} // verus!

verus! {

proof fn lemma_seg_start_no_slash(p: Seq<char>, lo: int, k: int)
    requires
        lo <= k <= p.len(),
        0 <= lo,
    ensures
        forall|i: int| seg_start(p, lo, k) <= i < k ==> p[i] != '/',
    decreases k - lo,
{
    if k > lo && p[k - 1] != '/' {
        lemma_seg_start_no_slash(p, lo, k - 1);
    }
}

/// A final component never holds a `/`.
pub proof fn lemma_file_name_has_no_slash(p: Seq<char>)
    requires
        file_name_of(p) is Some,
    ensures
        !file_name_of(p).unwrap().contains('/'),
{
    let lo = head_len(p);
    lemma_strip_len_range(p, lo, p.len() as int);
    let n = strip_len(p, lo, p.len() as int);
    lemma_seg_start_no_slash(p, lo, n);
    lemma_seg_start_range(p, lo, n);
    let s = seg_start(p, lo, n);
    let seg = p.subrange(s, n);
    if seg.contains('/') {
        let i = choose|i: int| 0 <= i < seg.len() && seg[i] == '/';
        assert(p[s + i] == '/');
    }
}

/// A path joined from a base and a plain segment has no trailing `/` or `.`
/// segment, so joining onto it again and taking the parent gives it back.
pub proof fn lemma_join_plain_is_clean(base: Seq<char>, name: Seq<char>)
    requires
        is_plain_segment(name),
    ensures
        join_path(base, name).len() > 0,
        strip_len(join_path(base, name), head_len(join_path(base, name)), join_path(base, name).len() as int)
            == join_path(base, name).len(),
{
    lemma_plain_segment_chars(name);
    lemma_join_layout(base, name);
    let j = join_path(base, name);
    lemma_plain_tail(j, j.len() - name.len());
}

proof fn lemma_seg_dot_start_skips(name: Seq<char>, d: int, k: int)
    requires
        0 <= d < k <= name.len(),
        name[d] == '.',
        forall|i: int| d < i < name.len() ==> name[i] != '.',
    ensures
        seg_dot_start(name, k) == d + 1,
    decreases k,
{
    if k > d + 1 {
        lemma_seg_dot_start_skips(name, d, k - 1);
    }
}

proof fn lemma_seg_dot_start_range(name: Seq<char>, k: int)
    requires
        0 <= k <= name.len(),
    ensures
        0 <= seg_dot_start(name, k) <= k,
        seg_dot_start(name, k) > 0 ==> name[seg_dot_start(name, k) - 1] == '.',
        forall|i: int| seg_dot_start(name, k) <= i < k ==> name[i] != '.',
    decreases k,
{
    if k > 0 && name[k - 1] != '.' {
        lemma_seg_dot_start_range(name, k - 1);
    }
}

/// The extension of a file name is the text after its last `.`, when something
/// comes before that `.`: a name `stem.e` whose `e` holds no `.` has extension
/// `e` (`..` aside), and an extension always has that form.
pub proof fn law_extension_after_last_dot(stem: Seq<char>, e: Seq<char>)
    requires
        stem.len() >= 1,
        !e.contains('.'),
        stem + seq!['.'] + e != seq!['.', '.'],
    ensures
        name_extension(stem + seq!['.'] + e) == Some(e),
{
    let name = stem + seq!['.'] + e;
    let d = stem.len() as int;
    assert(name[d] == '.');
    assert forall|i: int| d < i < name.len() implies name[i] != '.' by {
        assert(name[i] == e[i - d - 1]);
    }
    lemma_seg_dot_start_skips(name, d, name.len() as int);
    assert(name.subrange(d + 1, name.len() as int) =~= e);
}

/// What an extension looks like: the name is some non-empty text, a `.`, and
/// the extension, which holds no `.`.
pub proof fn law_extension_shape(name: Seq<char>)
    requires
        name_extension(name) is Some,
    ensures
        !name_extension(name).unwrap().contains('.'),
        exists|stem: Seq<char>| stem.len() >= 1 && name == stem + seq!['.'] + name_extension(name).unwrap(),
{
    let k = seg_dot_start(name, name.len() as int);
    lemma_seg_dot_start_range(name, name.len() as int);
    let e = name.subrange(k, name.len() as int);
    let stem = name.subrange(0, k - 1);
    if e.contains('.') {
        let i = choose|i: int| 0 <= i < e.len() && e[i] == '.';
        assert(name[k + i] == '.');
    }
    assert(name =~= stem + seq!['.'] + e);
}

} // verus!
