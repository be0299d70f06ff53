//! The on-disk store of album indexes, scaled images and the admin secret:
//! where each of them lives.

use vstd::prelude::*;
use crate::album_image::Size;
use crate::path::{
    file_name, file_name_of, is_plain_segment, join, join_path, law_file_name_of_join, law_parent_of_join,
    lemma_file_name_has_no_slash, lemma_join_plain_is_clean, parent_of,
};
use crate::text::{
    chars_of, decimal, decimal_chars, hex_lower, lemma_decimal_digits, lemma_decimal_injective, lemma_hex_digits,
    lemma_hex_injective, push_chars, push_str,
    string_of, to_hex_lower,
};

verus! {

/// The MD5 digest of the UTF-8 bytes of a text.
pub uninterp spec fn md5_of(text: Seq<char>) -> Seq<u8>;

/// Calls `md5::compute` on the UTF-8 bytes of `text`; claimed: the digest is the
/// named MD5 value of the text, and it is 16 bytes long (the crate's `Digest([u8; 16])`).
#[verifier::external_body]
fn md5_digest(text: &str) -> (d: Vec<u8>)
    ensures
        d@ == md5_of(text@),
        d@.len() == 16,
{
    md5::compute(text.as_bytes()).0.to_vec()
}

/// The identifier of an album path: its MD5 digest in lower-case hex, a `-`,
/// and the album's directory name.
pub open spec fn album_id(path: Seq<char>) -> Seq<char> {
    hex_lower(md5_of(path)) + seq!['-'] + file_name_of(path).unwrap()
}

/// The identifier of an album path, as `format!("{:x}-{}", md5, name)` writes it.
pub fn id(path: &str) -> (r: String)
    requires
        file_name_of(path@) is Some,
    ensures
        r@ == album_id(path@),
{
    let d = md5_digest(path);
    let mut v = to_hex_lower(d.as_slice());
    v.push('-');
    match file_name(path) {
        Some(name) => push_str(&mut v, name.as_str()),
        None => {},
    }
    string_of(&v)
}

/// Where the store keeps things: its base directory and the cache directory below it.
#[derive(Clone)]
pub struct Store {
    pub base_path: String,
    pub cache_path: String,
}

/// A scaled image looked up in the cache: found there, or not yet made; either way, where it belongs.
pub enum ImageFile {
    Found { path: String },
    NotFound { path: String },
}

/// `"{id}-{img}__{w}x{h}.jpg"`: the cache file name of a scaled image.
pub open spec fn cache_file_name(album_path: Seq<char>, img: Seq<char>, w: nat, h: nat) -> Seq<char> {
    album_id(album_path) + seq!['-'] + img + seq!['_', '_'] + decimal(w) + seq!['x'] + decimal(h)
        + ".jpg"@
}

impl Store {
    /// A store rooted at `base`, with its cache in `base/cache`. Creating the
    /// directories is left to the caller.
    pub fn new(base: &str) -> (s: Store)
        ensures
            s.base_path@ == base@,
            s.cache_path@ == join_path(base@, "cache"@),
    {
        let base_path = string_of(&chars_of(base));
        let cache_path = join(base, "cache");
        Store { base_path, cache_path }
    }

    /// Where the index of an album is kept: `{base}/{id}.json`.
    pub fn album_index_path(&self, album_path: &str) -> (r: String)
        requires
            file_name_of(album_path@) is Some,
        ensures
            r@ == join_path(self.base_path@, album_id(album_path@) + ".json"@),
    {
        let mut v = chars_of(id(album_path).as_str());
        push_str(&mut v, ".json");
        join(self.base_path.as_str(), string_of(&v).as_str())
    }

    /// Where a scaled image of an album is cached.
    pub fn get_image_cache_path(&self, album_path: &str, img: &str, size: Size) -> (r: String)
        requires
            file_name_of(album_path@) is Some,
        ensures
            r@ == join_path(
                self.cache_path@,
                cache_file_name(album_path@, img@, size.0 as nat, size.1 as nat),
            ),
    {
        let mut v = chars_of(id(album_path).as_str());
        v.push('-');
        push_str(&mut v, img);
        v.push('_');
        v.push('_');
        let w = decimal_chars(size.0 as u64);
        push_chars(&mut v, &w);
        v.push('x');
        let h = decimal_chars(size.1 as u64);
        push_chars(&mut v, &h);
        push_str(&mut v, ".jpg");
        assert(v@ =~= cache_file_name(album_path@, img@, size.0 as nat, size.1 as nat));
        join(self.cache_path.as_str(), string_of(&v).as_str())
    }

    /// Looks up a scaled image in the cache. `probe` answers whether a file is
    /// there; it is asked about the cache path of the image, and its answer decides.
    pub fn image_exists_in_cache<F: Fn(&String) -> bool>(
        &self,
        album_path: &str,
        img: &str,
        size: Size,
        probe: F,
    ) -> (r: ImageFile)
        requires
            file_name_of(album_path@) is Some,
            forall|p: &String| probe.requires((p,)),
        ensures
            match r {
                ImageFile::Found { path } => {
                    &&& path@ == join_path(
                        self.cache_path@,
                        cache_file_name(album_path@, img@, size.0 as nat, size.1 as nat),
                    )
                    &&& probe.ensures((&path,), true)
                },
                ImageFile::NotFound { path } => {
                    &&& path@ == join_path(
                        self.cache_path@,
                        cache_file_name(album_path@, img@, size.0 as nat, size.1 as nat),
                    )
                    &&& probe.ensures((&path,), false)
                },
            },
    {
        let path = self.get_image_cache_path(album_path, img, size);
        if probe(&path) {
            ImageFile::Found { path }
        } else {
            ImageFile::NotFound { path }
        }
    }

    /// Where the admin secret is kept: `{base}/.admin_secret`.
    pub fn admin_secret_path(&self) -> (r: String)
        ensures
            r@ == join_path(self.base_path@, ".admin_secret"@),
    {
        join(self.base_path.as_str(), ".admin_secret")
    }
}

} // verus!

verus! {

/// A cache file name is one plain path segment (for image names without `/`).
proof fn lemma_cache_name_plain(album_path: Seq<char>, img: Seq<char>, w: nat, h: nat)
    requires
        file_name_of(album_path) is Some,
        !img.contains('/'),
    ensures
        is_plain_segment(cache_file_name(album_path, img, w, h)),
{
    reveal_strlit(".jpg");
    let name = cache_file_name(album_path, img, w, h);
    let hex = hex_lower(md5_of(album_path));
    let fname = file_name_of(album_path).unwrap();
    lemma_hex_digits(md5_of(album_path));
    lemma_file_name_has_no_slash(album_path);
    lemma_decimal_digits(w);
    lemma_decimal_digits(h);
    assert(!name.contains('/')) by {
        if name.contains('/') {
            let i = choose|i: int| 0 <= i < name.len() && name[i] == '/';
            let a = hex.len() as int;
            let b = a + 1 + fname.len();
            let c = b + 1 + img.len();
            let d = c + 2 + decimal(w).len();
            let e = d + 1 + decimal(h).len();
            if i < a {
                assert(name[i] == hex[i]);
            } else if i == a {
            } else if i < b {
                assert(name[i] == fname[i - a - 1]);
                assert(fname.contains('/'));
            } else if i == b {
            } else if i < c {
                assert(name[i] == img[i - b - 1]);
                assert(img.contains('/'));
            } else if i < c + 2 {
            } else if i < d {
                assert(name[i] == decimal(w)[i - c - 2]);
            } else if i == d {
            } else if i < e {
                assert(name[i] == decimal(h)[i - d - 1]);
            } else {
                assert(name[i] == ".jpg"@[i - e]);
            }
        }
    }
    assert(name.len() > 2);
    assert(name != seq!['.']);
    assert(name != seq!['.', '.']);
}

/// Every scaled image of a store made at `base` is cached directly inside the
/// store's cache directory, under its cache file name (for image names without `/`).
pub proof fn law_cached_image_in_cache_dir(base: Seq<char>, album_path: Seq<char>, img: Seq<char>, w: nat, h: nat)
    requires
        file_name_of(album_path) is Some,
        !img.contains('/'),
    ensures
        ({
            let cache = join_path(base, "cache"@);
            let file = join_path(cache, cache_file_name(album_path, img, w, h));
            &&& parent_of(file) == Some(cache)
            &&& file_name_of(file) == Some(cache_file_name(album_path, img, w, h))
        }),
{
    reveal_strlit("cache");
    let cache_name: Seq<char> = "cache"@;
    assert(is_plain_segment(cache_name)) by {
        assert(cache_name =~= seq!['c', 'a', 'c', 'h', 'e']);
        assert(!cache_name.contains('/')) by {
            if cache_name.contains('/') {
                let i = choose|i: int| 0 <= i < cache_name.len() && cache_name[i] == '/';
            }
        }
    }
    lemma_join_plain_is_clean(base, cache_name);
    let cache = join_path(base, cache_name);
    let name = cache_file_name(album_path, img, w, h);
    lemma_cache_name_plain(album_path, img, w, h);
    law_file_name_of_join(cache, name);
    law_parent_of_join(cache, name);
}

} // verus!

verus! {

/// The position of the first `-` in `p + seq!['-'] + q`, when `p` holds only hex digits.
proof fn lemma_dash_after_hex(x: Seq<u8>, y: Seq<u8>, q1: Seq<char>, q2: Seq<char>)
    requires
        hex_lower(x) + seq!['-'] + q1 == hex_lower(y) + seq!['-'] + q2,
    ensures
        x == y,
        q1 == q2,
{
    let hx = hex_lower(x);
    let hy = hex_lower(y);
    let n = hx + seq!['-'] + q1;
    lemma_hex_digits(x);
    lemma_hex_digits(y);
    if hx.len() < hy.len() {
        assert(n[hx.len() as int] == '-');
        assert((hy + seq!['-'] + q2)[hx.len() as int] == hy[hx.len() as int]);
        assert(false);
    } else if hy.len() < hx.len() {
        assert((hy + seq!['-'] + q2)[hy.len() as int] == '-');
        assert(n[hy.len() as int] == hx[hy.len() as int]);
        assert(false);
    }
    assert(hx =~= n.subrange(0, hx.len() as int));
    assert(hy =~= (hy + seq!['-'] + q2).subrange(0, hx.len() as int));
    lemma_hex_injective(x, y);
    assert(q1 =~= n.subrange(hx.len() + 1int, n.len() as int));
    assert(q2 =~= (hy + seq!['-'] + q2).subrange(hx.len() + 1int, n.len() as int));
}

/// `decimal(w) + "x" + decimal(h)` determines `w` and `h`.
proof fn lemma_size_text_injective(w1: nat, h1: nat, w2: nat, h2: nat)
    requires
        decimal(w1) + seq!['x'] + decimal(h1) == decimal(w2) + seq!['x'] + decimal(h2),
    ensures
        w1 == w2 && h1 == h2,
{
    let d1 = decimal(w1);
    let d2 = decimal(w2);
    let t = d1 + seq!['x'] + decimal(h1);
    let u = d2 + seq!['x'] + decimal(h2);
    lemma_decimal_digits(w1);
    lemma_decimal_digits(w2);
    if d1.len() < d2.len() {
        assert(t[d1.len() as int] == 'x');
        assert(u[d1.len() as int] == d2[d1.len() as int]);
        assert(false);
    } else if d2.len() < d1.len() {
        assert(u[d2.len() as int] == 'x');
        assert(t[d2.len() as int] == d1[d2.len() as int]);
        assert(false);
    }
    assert(d1 =~= t.subrange(0, d1.len() as int));
    assert(d2 =~= u.subrange(0, d1.len() as int));
    lemma_decimal_injective(w1, w2);
    assert(decimal(h1) =~= t.subrange(d1.len() + 1int, t.len() as int));
    assert(decimal(h2) =~= u.subrange(d1.len() + 1int, t.len() as int));
    lemma_decimal_injective(h1, h2);
}

/// Different albums (with different MD5 digests, such as two albums that share a
/// folder name in different places), or one album at different sizes, never
/// share a cache file.
pub proof fn law_distinct_cache_files(
    base: Seq<char>,
    a: Seq<char>,
    b: Seq<char>,
    img: Seq<char>,
    w1: nat,
    h1: nat,
    w2: nat,
    h2: nat,
)
    requires
        file_name_of(a) is Some,
        file_name_of(b) is Some,
        !img.contains('/'),
        md5_of(a) != md5_of(b) || (a == b && (w1 != w2 || h1 != h2)),
    ensures
        ({
            let cache = join_path(base, "cache"@);
            join_path(cache, cache_file_name(a, img, w1, h1)) != join_path(cache, cache_file_name(b, img, w2, h2))
        }),
{
    let cache = join_path(base, "cache"@);
    let n1 = cache_file_name(a, img, w1, h1);
    let n2 = cache_file_name(b, img, w2, h2);
    lemma_cache_name_plain(a, img, w1, h1);
    lemma_cache_name_plain(b, img, w2, h2);
    law_file_name_of_join(cache, n1);
    law_file_name_of_join(cache, n2);
    if join_path(cache, n1) == join_path(cache, n2) {
        assert(n1 == n2);
        let r1 = file_name_of(a).unwrap() + seq!['-'] + img + seq!['_', '_'] + decimal(w1) + seq!['x'] + decimal(h1)
            + ".jpg"@;
        let r2 = file_name_of(b).unwrap() + seq!['-'] + img + seq!['_', '_'] + decimal(w2) + seq!['x'] + decimal(h2)
            + ".jpg"@;
        assert(n1 =~= hex_lower(md5_of(a)) + seq!['-'] + r1);
        assert(n2 =~= hex_lower(md5_of(b)) + seq!['-'] + r2);
        lemma_dash_after_hex(md5_of(a), md5_of(b), r1, r2);
        // The digests agree, so the album paths are the same and only the sizes can differ.
        let p = file_name_of(a).unwrap() + seq!['-'] + img + seq!['_', '_'];
        let s1 = decimal(w1) + seq!['x'] + decimal(h1);
        let s2 = decimal(w2) + seq!['x'] + decimal(h2);
        assert(r1 =~= p + s1 + ".jpg"@);
        assert(r2 =~= p + s2 + ".jpg"@);
        assert(s1.len() == s2.len());
        assert(s1 =~= r1.subrange(p.len() as int, (p.len() + s1.len()) as int));
        assert(s2 =~= r2.subrange(p.len() as int, (p.len() + s1.len()) as int));
        lemma_size_text_injective(w1, h1, w2, h2);
    }
}

} // verus!
