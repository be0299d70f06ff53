//! The decisions of the web server: its settings, the URLs it builds, the
//! answers it gives, and the statistics it reports.

use vstd::prelude::*;
use crate::album::{album_dir_text, album_path};
use crate::cli::Cli;
use crate::path::{extension, extension_of, join, join_path};
use crate::store::Store;
use crate::text::{
    chars_of, decimal, decimal_chars, join_with, lemma_trim_end_last, lemma_trim_end_prefix, push_chars, push_str, split_chars, split_on,
    string_of, str_eq, trim_end, trim_end_char,
};
use crate::youtil::texts;

verus! {

// ---------------------------------------------------------------------------
// Settings
// ---------------------------------------------------------------------------

/// The URL prefix with any trailing `/` replaced by exactly one.
pub open spec fn normalized_prefix(p: Seq<char>) -> Seq<char> {
    trim_end_char(p, '/').push('/')
}

/// The URL prefix the routes are mounted under: `format!("{}/", prefix.trim_end_matches('/'))`.
pub fn normalize_prefix(prefix: &str) -> (r: String)
    ensures
        r@ == normalized_prefix(prefix@),
{
    let v = chars_of(prefix);
    let mut t = trim_end(&v, '/');
    t.push('/');
    string_of(&t)
}

/// The extensions of a comma-separated list, every piece kept (`split(',')`).
pub fn split_extensions(list: &str) -> (r: Vec<String>)
    ensures
        texts(r@) == split_on(list@, ','),
{
    let parts = split_chars(&chars_of(list), ',');
    let mut out: Vec<String> = Vec::new();
    for i in 0..parts.len()
        invariant
            parts@.len() == split_on(list@, ',').len(),
            forall|j: int| 0 <= j < parts@.len() ==> #[trigger] parts@[j]@ == split_on(list@, ',')[j],
            texts(out@) == split_on(list@, ',').take(i as int),
    {
        let s = string_of(&parts[i]);
        let ghost before = texts(out@);
        out.push(s);
        assert(texts(out@) =~= before.push(s@));
        assert(split_on(list@, ',').take(i + 1) =~= split_on(list@, ',').take(i as int).push(
            split_on(list@, ',')[i as int],
        ));
    }
    assert(split_on(list@, ',').take(parts@.len() as int) =~= split_on(list@, ','));
    out
}

/// What every request handler can see: where the albums are, how they are
/// served, and the admin secret.
pub struct AppState {
    pub base_path: String,
    pub prefix: String,
    pub single_album: String,
    pub filtered_extensions: Vec<String>,
    pub store: Store,
    pub anon: bool,
    pub browser_mode: bool,
    pub admin_secret: String,
}

impl AppState {
    /// The server state for the given settings: the prefix normalised, and the
    /// extension list split at commas.
    pub fn new(
        args: &Cli,
        base: String,
        single_album: String,
        store: Store,
        admin_secret: String,
        anon: bool,
        browser_mode: bool,
    ) -> (s: AppState)
        ensures
            s.base_path == base,
            s.prefix@ == normalized_prefix(args.prefix@),
            s.single_album == single_album,
            texts(s.filtered_extensions@) == split_on(args.extensions@, ','),
            s.store == store,
            s.admin_secret == admin_secret,
            s.anon == anon,
            s.browser_mode == browser_mode,
    {
        AppState {
            base_path: base,
            prefix: normalize_prefix(args.prefix.as_str()),
            single_album,
            filtered_extensions: split_extensions(args.extensions.as_str()),
            store,
            anon,
            browser_mode,
            admin_secret,
        }
    }

    /// Whether the routes are mounted below a prefix rather than at the root:
    /// any prefix but `/` and the empty one.
    pub fn nested_under_prefix(&self) -> (r: bool)
        ensures
            r == (self.prefix@ != "/"@ && self.prefix@ != ""@),
    {
        !(str_eq(self.prefix.as_str(), "/") || str_eq(self.prefix.as_str(), ""))
    }

    /// The answer at the root URL: in single-album mode a permanent redirect
    /// to `{prefix}a/{album}`, otherwise a greeting page.
    pub fn home(&self) -> (r: Home)
        ensures
            self.single_album@.len() > 0 ==> (r matches Home::Redirect(to) && to@ == self.prefix@
                + "a/"@ + self.single_album@),
            self.single_album@.len() == 0 ==> r is Hello,
    {
        if self.single_album.as_str().is_empty() {
            Home::Hello
        } else {
            let mut v = chars_of(self.prefix.as_str());
            push_str(&mut v, "a/");
            push_str(&mut v, self.single_album.as_str());
            Home::Redirect(string_of(&v))
        }
    }
}

/// The answer at the root URL.
pub enum Home {
    Redirect(String),
    Hello,
}

// ---------------------------------------------------------------------------
// Addresses
// ---------------------------------------------------------------------------

/// `"{host}:{port}"`.
pub open spec fn host_port_text(host: Seq<char>, port: nat) -> Seq<char> {
    host + seq![':'] + decimal(port)
}

/// The address to listen on.
pub fn host_port(host: &str, port: u16) -> (r: String)
    ensures
        r@ == host_port_text(host@, port as nat),
{
    let mut v = chars_of(host);
    v.push(':');
    let p = decimal_chars(port as u64);
    push_chars(&mut v, &p);
    string_of(&v)
}

/// The page the browser is opened on: `"http://{hostport}/"`.
pub fn browser_url(hostport: &str) -> (r: String)
    ensures
        r@ == "http://"@ + hostport@ + "/"@,
{
    let mut v = chars_of("http://");
    push_str(&mut v, hostport);
    push_str(&mut v, "/");
    string_of(&v)
}

/// Where a running server reports its statistics: `"http://{host}:{port}/stats"`.
pub fn stats_url(host: &str, port: u16) -> (r: String)
    ensures
        r@ == "http://"@ + host_port_text(host@, port as nat) + "/stats"@,
{
    let mut v = chars_of("http://");
    push_str(&mut v, host_port(host, port).as_str());
    push_str(&mut v, "/stats");
    string_of(&v)
}

/// The `Content-Disposition` of an album archive: `attachment; filename="{album}.zip"`.
pub fn zip_disposition(album: &str) -> (r: String)
    ensures
        r@ == "attachment; filename=\""@ + album@ + ".zip\""@,
{
    let mut v = chars_of("attachment; filename=\"");
    push_str(&mut v, album);
    push_str(&mut v, ".zip\"");
    string_of(&v)
}

/// The name an upload is stored under: the `filename` query parameter, or `uploaded.jpg`.
pub fn upload_file_name(param: Option<&str>) -> (r: String)
    ensures
        param matches Some(p) ==> r@ == p@,
        param is None ==> r@ == "uploaded.jpg"@,
{
    match param {
        Some(p) => string_of(&chars_of(p)),
        None => string_of(&chars_of("uploaded.jpg")),
    }
}

/// Where an uploaded image is written: the file name joined onto the album directory.
pub fn upload_target(base: &str, album: &str, file: &str) -> (r: String)
    ensures
        r@ == join_path(album_dir_text(base@, album@), file@),
{
    join(album_path(base, album).as_str(), file)
}

// ---------------------------------------------------------------------------
// Statistics
// ---------------------------------------------------------------------------

/// The server statistics.
#[derive(Debug)]
pub struct Stats {
    pub albums_count: usize,
    pub total_images: usize,
    pub cache_size_bytes: u64,
    pub server_uptime_seconds: u64,
    pub scaled_images_count: u64,
    pub downloaded_zips_count: u64,
    pub physical_mem: usize,
    pub virtual_mem: usize,
}

/// The number of images of the albums whose index could be read.
pub open spec fn images_total(counts: Seq<Option<usize>>) -> nat
    decreases counts.len(),
{
    if counts.len() == 0 {
        0
    } else {
        images_total(counts.drop_last()) + match counts.last() {
            Some(n) => n as nat,
            None => 0,
        }
    }
}

/// The statistics from one look at the albums (the image count of each album
/// directory, none where its index could not be read), the cache size, the
/// uptime, the counters, and the memory use if known (zero otherwise).
pub fn collect_stats(
    image_counts: &Vec<Option<usize>>,
    cache_size_bytes: u64,
    server_uptime_seconds: u64,
    scaled_images_count: u64,
    downloaded_zips_count: u64,
    memory: Option<(usize, usize)>,
) -> (s: Stats)
    requires
        images_total(image_counts@) <= usize::MAX,
    ensures
        s.albums_count == image_counts@.len(),
        s.total_images == images_total(image_counts@),
        s.cache_size_bytes == cache_size_bytes,
        s.server_uptime_seconds == server_uptime_seconds,
        s.scaled_images_count == scaled_images_count,
        s.downloaded_zips_count == downloaded_zips_count,
        memory matches Some((p, v)) ==> s.physical_mem == p && s.virtual_mem == v,
        memory is None ==> s.physical_mem == 0 && s.virtual_mem == 0,
{
    let n = image_counts.len();
    let mut total: usize = 0;
    for i in 0..n
        invariant
            n == image_counts@.len(),
            images_total(image_counts@) <= usize::MAX,
            total == images_total(image_counts@.take(i as int)),
    {
        assert(image_counts@.take(i + 1).drop_last() =~= image_counts@.take(i as int));
        proof {
            lemma_images_total_prefix(image_counts@, i + 1);
        }
        match image_counts[i] {
            Some(c) => {
                total = total + c;
            },
            None => {},
        }
    }
    assert(image_counts@.take(n as int) =~= image_counts@);
    let (physical_mem, virtual_mem) = match memory {
        Some((p, v)) => (p, v),
        None => (0, 0),
    };
    Stats {
        albums_count: n,
        total_images: total,
        cache_size_bytes,
        server_uptime_seconds,
        scaled_images_count,
        downloaded_zips_count,
        physical_mem,
        virtual_mem,
    }
}

proof fn lemma_images_total_prefix(counts: Seq<Option<usize>>, k: int)
    requires
        0 <= k <= counts.len(),
    ensures
        images_total(counts.take(k)) <= images_total(counts),
    decreases counts.len(),
{
    if counts.len() > 0 {
        if k == counts.len() {
            assert(counts.take(k) =~= counts);
        } else {
            assert(counts.drop_last().take(k) =~= counts.take(k));
            lemma_images_total_prefix(counts.drop_last(), k);
        }
    }
}

// ---------------------------------------------------------------------------
// Embedded static files
// ---------------------------------------------------------------------------

/// The MIME type `mime_guess` gives a (non-empty) file extension, or `application/octet-stream`.
pub uninterp spec fn mime_for_extension(ext: Seq<char>) -> Seq<char>;

/// Calls `mime_guess::from_ext(ext)` and `MimeGuess::first_or_octet_stream` on
/// its guess; claimed: the text of the MIME type is the named one for the
/// extension, and `application/octet-stream` for an empty extension, for which
/// the crate makes no guess.
#[verifier::external_body]
fn guess_mime_of_extension(ext: &str) -> (r: String)
    ensures
        r@ == mime_for_extension(ext@),
        ext@.len() == 0 ==> r@ == "application/octet-stream"@,
{
    let mime = mime_guess::from_ext(ext).first_or_octet_stream();
    let text: &str = mime.as_ref();
    text.to_string()
}

/// The MIME type guessed from a path's extension, as `mime_guess::from_path` does.
pub open spec fn guessed_mime(path: Seq<char>) -> Seq<char> {
    match extension_of(path) {
        Some(e) => mime_for_extension(e),
        None => "application/octet-stream"@,
    }
}

/// The MIME type of a file guessed from its extension.
pub fn guess_mime(path: &str) -> (r: String)
    ensures
        r@ == guessed_mime(path@),
{
    match extension(path) {
        Some(e) => guess_mime_of_extension(e.as_str()),
        None => string_of(&chars_of("application/octet-stream")),
    }
}

/// A file of the embedded assets, by its path.
pub struct StaticFile<T>(pub T);

/// The answer for an embedded asset.
pub enum StaticReply {
    Found { mime: String, data: Vec<u8> },
    NotFound,
}

impl StaticFile<String> {
    /// The answer for the asset, given its content if it is embedded: the
    /// content with the MIME type guessed from the path, or not found.
    pub fn into_reply(self, content: Option<Vec<u8>>) -> (r: StaticReply)
        ensures
            content matches Some(d) ==> (r matches StaticReply::Found { mime, data } && mime@
                == guessed_mime(self.0@) && data == d),
            content is None ==> r is NotFound,
    {
        match content {
            Some(data) => StaticReply::Found { mime: guess_mime(self.0.as_str()), data },
            None => StaticReply::NotFound,
        }
    }
}

// ---------------------------------------------------------------------------
// Laws
// ---------------------------------------------------------------------------

/// Normalising a prefix twice changes nothing more, and a normalised prefix
/// ends with exactly one `/`.
pub proof fn law_normalized_prefix(p: Seq<char>)
    ensures
        normalized_prefix(normalized_prefix(p)) == normalized_prefix(p),
        normalized_prefix(p).last() == '/',
        normalized_prefix(p).len() >= 2 ==> normalized_prefix(p)[normalized_prefix(p).len() - 2]
            != '/',
{
    let t = trim_end_char(p, '/');
    lemma_trim_end_last(p, '/');
    assert(t.push('/').drop_last() =~= t);
    assert(trim_end_char(t.push('/'), '/') == trim_end_char(t, '/'));
    lemma_trim_end_fixed(t, '/');
}

proof fn lemma_trim_end_fixed(s: Seq<char>, c: char)
    requires
        s.len() > 0 ==> s.last() != c,
    ensures
        trim_end_char(s, c) == s,
{
}

proof fn lemma_split_nonempty(s: Seq<char>, c: char)
    ensures
        split_on(s, c).len() >= 1,
    decreases s.len(),
{
    if s.len() > 0 {
        lemma_split_nonempty(s.drop_last(), c);
    }
}

proof fn lemma_join_extend_last(parts: Seq<Seq<char>>, c: char, x: char)
    requires
        parts.len() >= 1,
    ensures
        join_with(parts.update(parts.len() - 1, parts.last().push(x)), c) == join_with(parts, c).push(x),
{
    let q = parts.update(parts.len() - 1, parts.last().push(x));
    if parts.len() >= 2 {
        assert(q.drop_last() =~= parts.drop_last());
    }
}

/// Splitting a list at `c` and joining the pieces with `c` gives the list back,
/// and no piece holds `c`.
pub proof fn law_split_join(s: Seq<char>, c: char)
    ensures
        join_with(split_on(s, c), c) == s,
        forall|i: int| 0 <= i < split_on(s, c).len() ==> !(#[trigger] split_on(s, c)[i]).contains(c),
    decreases s.len(),
{
    if s.len() == 0 {
        assert(split_on(s, c)[0] =~= Seq::<char>::empty());
    } else {
        let r = s.drop_last();
        law_split_join(r, c);
        lemma_split_nonempty(r, c);
        let rest = split_on(r, c);
        if s.last() == c {
            assert(rest.push(Seq::<char>::empty()).drop_last() =~= rest);
            assert(join_with(rest, c) + seq![c] + Seq::<char>::empty() =~= s);
            assert forall|i: int| 0 <= i < split_on(s, c).len() implies !(#[trigger] split_on(s, c)[i]).contains(c) by {
                if i < rest.len() {
                    assert(split_on(s, c)[i] == rest[i]);
                } else {
                    assert(split_on(s, c)[i] =~= Seq::<char>::empty());
                }
            }
        } else {
            lemma_join_extend_last(rest, c, s.last());
            assert(r.push(s.last()) =~= s);
            assert forall|i: int| 0 <= i < split_on(s, c).len() implies !(#[trigger] split_on(s, c)[i]).contains(c) by {
                if i < rest.len() - 1 {
                    assert(split_on(s, c)[i] == rest[i]);
                } else {
                    let piece = rest.last().push(s.last());
                    assert(split_on(s, c)[i] == piece);
                    assert(!rest[rest.len() - 1].contains(c));
                    if piece.contains(c) {
                        let k = choose|k: int| 0 <= k < piece.len() && piece[k] == c;
                        if k < piece.len() - 1 {
                            assert(rest.last()[k] == c);
                        }
                    }
                }
            }
        }
    }
}

/// The image total adds up album by album: the total of two lists of albums
/// put together is the sum of their totals, an album whose index was read
/// counts its images, and one whose index could not be read counts nothing.
pub proof fn law_images_total_adds_up(a: Seq<Option<usize>>, b: Seq<Option<usize>>, n: usize)
    ensures
        images_total(a + b) == images_total(a) + images_total(b),
        images_total(seq![Some(n)]) == n,
        images_total(seq![None::<usize>]) == 0,
        images_total(Seq::<Option<usize>>::empty()) == 0,
    decreases b.len(),
{
    let one = seq![Some(n)];
    let none = seq![None::<usize>];
    assert(images_total(Seq::<Option<usize>>::empty()) == 0);
    assert(one.drop_last() =~= Seq::<Option<usize>>::empty());
    assert(none.drop_last() =~= Seq::<Option<usize>>::empty());
    assert(one.len() == 1 && one.last() == Some(n));
    assert(none.len() == 1 && none.last() == None::<usize>);
    assert(images_total(one) == n);
    assert(images_total(none) == 0);
    if b.len() == 0 {
        assert(a + b =~= a);
    } else {
        law_images_total_adds_up(a, b.drop_last(), n);
        assert((a + b).drop_last() =~= a + b.drop_last());
        assert((a + b).last() == b.last());
    }
}

/// A normalised prefix is the prefix as given with its trailing run of `/`
/// (if any) replaced by exactly one `/`: everything before that run is kept.
pub proof fn law_normalized_prefix_keeps_the_rest(p: Seq<char>)
    ensures
        exists|k: int|
            0 <= k <= p.len() && normalized_prefix(p) == p.subrange(0, k).push('/') && (k == 0 || p[k - 1]
                != '/') && forall|i: int| k <= i < p.len() ==> p[i] == '/',
{
    lemma_trim_end_prefix(p, '/');
    lemma_trim_end_last(p, '/');
    let t = trim_end_char(p, '/');
    let k = t.len() as int;
    assert(k == 0 || p[k - 1] == t.last());
}

} // verus!
