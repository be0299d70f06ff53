//! Formatting helpers for uptime and byte sizes, and the classification of
//! directory entries and file contents.

use vstd::prelude::*;
use crate::path::{extension, extension_of, file_name, file_name_of};
use crate::text::{
    all_ascii, ascii_lowercase, chars_of, contains_text, decimal, decimal_chars, digit, digit_char, has_prefix, lowercase_of,
    starts_with, string_of, to_lowercase,
};

verus! {

// ---------------------------------------------------------------------------
// Uptime
// ---------------------------------------------------------------------------

/// Whole days, remaining hours and remaining minutes of a number of seconds.
pub open spec fn uptime_parts(seconds: nat) -> (nat, nat, nat) {
    (seconds / 86400, (seconds % 86400) / 3600, (seconds % 3600) / 60)
}

/// `"{days}d {hours}h {minutes}m"`.
pub open spec fn uptime_text(seconds: nat) -> Seq<char> {
    let (d, h, m) = uptime_parts(seconds);
    decimal(d) + seq!['d', ' '] + decimal(h) + seq!['h', ' '] + decimal(m) + seq!['m']
}

/// Renders an uptime in seconds as days, hours and minutes, e.g. `"1d 2h 3m"`.
pub fn format_uptime(seconds: u64) -> (s: String)
    ensures
        s@ == uptime_text(seconds as nat),
{
    let days = seconds / 86400;
    let hours = (seconds % 86400) / 3600;
    let minutes = (seconds % 3600) / 60;
    let mut v = decimal_chars(days);
    v.push('d');
    v.push(' ');
    let hv = decimal_chars(hours);
    crate::text::push_chars(&mut v, &hv);
    v.push('h');
    v.push(' ');
    let mv = decimal_chars(minutes);
    crate::text::push_chars(&mut v, &mv);
    v.push('m');
    let ghost d = decimal(days as nat);
    let ghost h = decimal(hours as nat);
    let ghost m = decimal(minutes as nat);
    assert(v@ =~= d + seq!['d', ' '] + h + seq!['h', ' '] + m + seq!['m']);
    string_of(&v)
}

/// The parts of an uptime account for every whole minute of it:
/// hours stay below a day, minutes below an hour, and less than a minute is left over.
pub proof fn law_uptime_parts(seconds: nat)
    ensures
        ({
            let (d, h, m) = uptime_parts(seconds);
            &&& h < 24
            &&& m < 60
            &&& d * 86400 + h * 3600 + m * 60 <= seconds
            &&& seconds < d * 86400 + h * 3600 + m * 60 + 60
        }),
{
    let s = seconds as int;
    let d = s / 86400;
    let a = s % 86400;
    let h = a / 3600;
    let b = a % 3600;
    let m = (s % 3600) / 60;
    assert(s == 86400 * d + a && 0 <= a < 86400) by {
        vstd::arithmetic::div_mod::lemma_fundamental_div_mod(s, 86400);
    }
    assert(a == 3600 * h + b && 0 <= b < 3600) by {
        vstd::arithmetic::div_mod::lemma_fundamental_div_mod(a, 3600);
    }
    assert(s % 3600 == b) by {
        vstd::arithmetic::div_mod::lemma_fundamental_div_mod_converse_mod(s, 3600, 24 * d + h, b);
    }
    assert(b == 60 * m + b % 60 && 0 <= b % 60 < 60) by {
        vstd::arithmetic::div_mod::lemma_fundamental_div_mod(b, 60);
    }
}

// ---------------------------------------------------------------------------
// Byte sizes
// ---------------------------------------------------------------------------

/// Repeated halving of `b` until it drops below 2^53: the quotient `q`, the
/// divisor `p` (a power of two) and the remainder `r`, with `b == q * p + r`.
pub open spec fn halving(b: nat) -> (nat, nat, nat)
    decreases b,
{
    if b < 0x20_0000_0000_0000 {
        (b, 1, 0)
    } else {
        let h = halving(b / 2);
        (h.0, 2 * h.1, 2 * h.2 + b % 2)
    }
}

/// The value of `b as f64`: `b` rounded to 53 significant bits, to nearest, ties to even.
pub open spec fn f64_of(b: nat) -> nat {
    let h = halving(b);
    if h.1 == 1 {
        b
    } else {
        let half = h.1 / 2;
        let q = if h.2 > half || (h.2 == half && h.0 % 2 == 1) {
            h.0 + 1
        } else {
            h.0
        };
        q * h.1
    }
}

/// The index into B, KB, MB, GB, TB: how often a size of `m` bytes may be divided by 1024
/// while it stays at least 1024, at most four times.
pub open spec fn unit_index(m: nat) -> nat {
    if m >= 1099511627776 {
        4
    } else if m >= 1073741824 {
        3
    } else if m >= 1048576 {
        2
    } else if m >= 1024 {
        1
    } else {
        0
    }
}

/// 1024 to the power `k`, for `k` up to four.
pub open spec fn unit_divisor(k: nat) -> nat {
    if k == 0 {
        1
    } else if k == 1 {
        1024
    } else if k == 2 {
        1048576
    } else if k == 3 {
        1073741824
    } else {
        1099511627776
    }
}

/// The unit names.
pub open spec fn unit_name(k: nat) -> Seq<char> {
    if k == 0 {
        seq!['B']
    } else if k == 1 {
        seq!['K', 'B']
    } else if k == 2 {
        seq!['M', 'B']
    } else if k == 3 {
        seq!['G', 'B']
    } else {
        seq!['T', 'B']
    }
}

/// `m / d` in tenths, rounded to nearest, ties to an even last digit.
pub open spec fn tenths(m: nat, d: nat) -> nat {
    let n = 10 * m;
    let t = n / d;
    let r = n % d;
    if 2 * r > d || (2 * r == d && t % 2 == 1) {
        t + 1
    } else {
        t
    }
}

/// `"{size:.1} {unit}"` for the size in bytes taken as a float and scaled down by 1024
/// until it is below 1024 or the unit is TB.
pub open spec fn size_text(bytes: nat) -> Seq<char> {
    let m = f64_of(bytes);
    let k = unit_index(m);
    let t = tenths(m, unit_divisor(k));
    decimal(t / 10) + seq!['.', digit_char(t % 10), ' '] + unit_name(k)
}

proof fn lemma_halving(b: nat)
    ensures
        halving(b).0 < 0x20_0000_0000_0000,
        halving(b).1 >= 1,
        halving(b).2 < halving(b).1,
        halving(b).0 * halving(b).1 + halving(b).2 == b,
        b >= 0x20_0000_0000_0000 ==> halving(b).0 >= 0x10_0000_0000_0000 && halving(b).1 >= 2,
        b < 0x20_0000_0000_0000 ==> halving(b).1 == 1,
    decreases b,
{
    if b >= 0x20_0000_0000_0000 {
        lemma_halving(b / 2);
        let h = halving(b / 2);
        assert(h.0 * (2 * h.1) == 2 * (h.0 * h.1)) by (nonlinear_arith);
    }
}

proof fn lemma_halving_divisor_bound(b: nat)
    requires
        b < 0x1_0000_0000_0000_0000,
    ensures
        halving(b).1 <= 4096,
{
    lemma_halving(b);
    let h = halving(b);
    if h.1 > 1 {
        assert(h.0 * h.1 >= 0x10_0000_0000_0000 * h.1) by (nonlinear_arith)
            requires
                h.0 >= 0x10_0000_0000_0000,
                h.1 >= 0,
        ;
        assert(h.1 <= 4096) by (nonlinear_arith)
            requires
                0x10_0000_0000_0000 * h.1 <= b,
                b < 0x1_0000_0000_0000_0000,
        ;
    }
}

fn halve(b: u64) -> (h: (u64, u64, u64))
    ensures
        (h.0 as nat, h.1 as nat, h.2 as nat) == halving(b as nat),
    decreases b,
{
    if b < 0x20_0000_0000_0000 {
        (b, 1, 0)
    } else {
        proof {
            lemma_halving(b as nat);
            lemma_halving_divisor_bound(b as nat);
            lemma_halving((b / 2) as nat);
        }
        let (q, p, r) = halve(b / 2);
        (q, 2 * p, 2 * r + b % 2)
    }
}

/// The value of `b as f64`, as an integer.
fn f64_value(b: u64) -> (m: u128)
    ensures
        m as nat == f64_of(b as nat),
        m <= 0x1_0000_0000_0000_0000 + 4096,
{
    proof {
        lemma_halving(b as nat);
        lemma_halving_divisor_bound(b as nat);
    }
    let (q, p, r) = halve(b);
    if p == 1 {
        b as u128
    } else {
        let half = p / 2;
        let q2: u128 = if r > half || (r == half && q % 2 == 1) {
            q as u128 + 1
        } else {
            q as u128
        };
        assert(q2 * (p as u128) <= (q as int) * (p as int) + p) by (nonlinear_arith)
            requires
                q2 <= q + 1,
                p >= 0,
        ;
        q2 * (p as u128)
    }
}

fn unit_chars(k: u64) -> (v: Vec<char>)
    requires
        k <= 4,
    ensures
        v@ == unit_name(k as nat),
{
    let mut v: Vec<char> = Vec::new();
    if k == 1 {
        v.push('K');
    } else if k == 2 {
        v.push('M');
    } else if k == 3 {
        v.push('G');
    } else if k == 4 {
        v.push('T');
    }
    v.push('B');
    assert(v@ =~= unit_name(k as nat));
    v
}

/// Renders a byte count with one decimal in the largest fitting unit up to TB,
/// e.g. `"1.5 KB"`, rounding as `{:.1}` does for the size taken as an `f64`.
pub fn format_size(bytes: u64) -> (s: String)
    ensures
        s@ == size_text(bytes as nat),
{
    let m = f64_value(bytes);
    let (k, d): (u64, u128) = if m >= 1099511627776 {
        (4, 1099511627776)
    } else if m >= 1073741824 {
        (3, 1073741824)
    } else if m >= 1048576 {
        (2, 1048576)
    } else if m >= 1024 {
        (1, 1024)
    } else {
        (0, 1)
    };
    assert(k as nat == unit_index(m as nat) && d as nat == unit_divisor(k as nat));
    let n: u128 = 10 * m;
    let t0 = n / d;
    let r = n % d;
    let t: u128 = if 2 * r > d || (2 * r == d && t0 % 2 == 1) {
        t0 + 1
    } else {
        t0
    };
    assert(t as nat == tenths(m as nat, d as nat));
    assert(t / 10 < 0x1_0000_0000_0000_0000) by {
        if k == 0 {
            assert(d == 1);
            assert(n / 1 == n && n % 1 == 0);
            assert(t0 == n);
        } else {
            vstd::arithmetic::div_mod::lemma_div_is_ordered_by_denominator(n as int, 1024, d as int);
        }
    }
    let whole: u64 = (t / 10) as u64;
    let tenth: u64 = (t % 10) as u64;
    let mut v = decimal_chars(whole);
    v.push('.');
    v.push(digit(tenth));
    v.push(' ');
    let u = unit_chars(k);
    crate::text::push_chars(&mut v, &u);
    assert(v@ =~= decimal(whole as nat) + seq!['.', digit_char(tenth as nat), ' '] + unit_name(k as nat));
    string_of(&v)
}

} // verus!

verus! {

// ---------------------------------------------------------------------------
// Image sizes and content types
// ---------------------------------------------------------------------------

/// The width and height `imagesize` reads from the header of an image, if it knows the format.
pub uninterp spec fn header_dimensions(buf: Seq<u8>) -> Option<(usize, usize)>;

/// Calls `imagesize::blob_size`; claimed: the result is the named header
/// dimensions of the bytes, and there are none for fewer than 12 bytes (the crate
/// reads a 12-byte header first). A decoding error becomes `None`.
#[verifier::external_body]
fn blob_dimensions(buf: &[u8]) -> (r: Option<(usize, usize)>)
    ensures
        r == header_dimensions(buf@),
        buf@.len() < 12 ==> r is None,
{
    match imagesize::blob_size(buf) {
        Ok(size) => Some((size.width, size.height)),
        Err(_) => None,
    }
}

/// The width and height of the image in `buf`, or `(0, 0)` when they cannot be read.
pub fn get_image_size(buf: &[u8]) -> (r: (usize, usize))
    ensures
        r == (match header_dimensions(buf@) {
            Some(d) => d,
            None => (0usize, 0usize),
        }),
{
    match blob_dimensions(buf) {
        Some(d) => d,
        None => (0, 0),
    }
}

/// The MIME type and usual extension `infer` recognises from the first bytes of a file.
pub uninterp spec fn sniffed_kind(buf: Seq<u8>) -> Option<(Seq<char>, Seq<char>)>;

/// Calls `infer::get` and takes the matched type's MIME type and extension;
/// claimed: they are the named sniffed kind of the bytes, and none is matched exactly when it names none.
#[verifier::external_body]
fn sniff(buf: &[u8]) -> (r: Option<(String, String)>)
    ensures
        match r {
            Some((m, e)) => sniffed_kind(buf@) == Some((m@, e@)),
            None => sniffed_kind(buf@) is None,
        },
{
    match infer::get(buf) {
        Some(kind) => Some((kind.mime_type().to_string(), kind.extension().to_string())),
        None => None,
    }
}

/// The MIME type used when the content is not recognised.
pub open spec fn unknown_mime() -> Seq<char> {
    "application/octetstream"@
}

/// The MIME type and extension of the content in `buf`; unrecognised content
/// is `application/octetstream` with no extension.
pub fn get_mime_type(buf: &[u8]) -> (r: (String, String))
    ensures
        match sniffed_kind(buf@) {
            Some((m, e)) => r.0@ == m && r.1@ == e,
            None => r.0@ == unknown_mime() && r.1@ == Seq::<char>::empty(),
        },
{
    match sniff(buf) {
        Some((m, e)) => (m, e),
        None => (string_of(&chars_of("application/octetstream")), string_of(&Vec::new())),
    }
}

/// Whether a MIME type names an image: it starts with `image/`.
pub open spec fn is_image_mime(mime: Seq<char>) -> bool {
    has_prefix(mime, "image/"@)
}

/// The MIME type, the extension, and whether it is an image, for the first
/// bytes of a file (`infer` looks at up to 8192 of them).
pub fn get_mime_type_and_is_image(head: &[u8]) -> (r: (String, String, bool))
    ensures
        match sniffed_kind(head@) {
            Some((m, e)) => r.0@ == m && r.1@ == e && r.2 == is_image_mime(m),
            None => r.0@ == unknown_mime() && r.1@ == Seq::<char>::empty() && !r.2,
        },
{
    match sniff(head) {
        Some((m, e)) => {
            let is_image = starts_with(&chars_of(m.as_str()), &chars_of("image/"));
            (m, e, is_image)
        },
        None => (string_of(&chars_of("application/octetstream")), string_of(&Vec::new()), false),
    }
}

// ---------------------------------------------------------------------------
// Directory entries
// ---------------------------------------------------------------------------

/// Whether a path's extension, lower-cased, is one of `allowed`.
pub open spec fn extension_allowed(path: Seq<char>, allowed: Seq<Seq<char>>) -> bool {
    match extension_of(path) {
        Some(e) => allowed.contains(lowercase_of(e)),
        None => false,
    }
}

/// The texts of a list of strings.
pub open spec fn texts(list: Seq<String>) -> Seq<Seq<char>> {
    list.map_values(|s: String| s@)
}

/// Whether the extension of `path`, lower-cased, is one of `allowed`.
pub fn has_allowed_extension(path: &str, allowed: &Vec<String>) -> (r: bool)
    ensures
        r == extension_allowed(path@, texts(allowed@)),
        extension_of(path@) matches Some(e) ==> (all_ascii(e) ==> r == texts(allowed@).contains(
            ascii_lowercase(e),
        )),
{
    match extension(path) {
        Some(e) => {
            let lower = to_lowercase(e.as_str());
            let found = contains_text(allowed, lower.as_str());
            assert(found == texts(allowed@).contains(lowercase_of(e@))) by {
                if found {
                    let i = choose|i: int| 0 <= i < allowed@.len() && (#[trigger] allowed@[i])@ == lower@;
                    assert(texts(allowed@)[i] == lower@);
                }
                if texts(allowed@).contains(lowercase_of(e@)) {
                    let i = choose|i: int| 0 <= i < texts(allowed@).len() && texts(allowed@)[i] == lowercase_of(e@);
                    assert(allowed@[i]@ == lower@);
                }
            }
            found
        },
        None => false,
    }
}

/// Whether a text holds an upper-case ASCII letter.
pub open spec fn has_ascii_upper(s: Seq<char>) -> bool {
    exists|j: int| 0 <= j < s.len() && 'A' <= #[trigger] s[j] <= 'Z'
}

/// The extension is lower-cased before it is compared, the filter is not: an
/// entry of the filter that holds an upper-case ASCII letter equals no lower-cased
/// extension (so a filter `JPG` lets no `.jpg` or `.JPG` file through).
pub proof fn law_upper_case_filter_matches_nothing(e: Seq<char>, entry: Seq<char>)
    requires
        has_ascii_upper(entry),
    ensures
        ascii_lowercase(e) != entry,
{
    let j = choose|j: int| 0 <= j < entry.len() && 'A' <= #[trigger] entry[j] <= 'Z';
    if ascii_lowercase(e) == entry {
        let c = e[j];
        assert(ascii_lowercase(e)[j] == entry[j]);
        if 'A' <= c <= 'Z' {
            assert((c as u32) + 32 >= 97);
            assert(ascii_lowercase(e)[j] == ((c as u32) + 32) as char);
        }
        assert(false);
    }
}

/// Whether a directory entry is listed: it has a final component that does not
/// start with `.`, and, when a filter is given, an allowed extension.
pub open spec fn entry_listed(path: Seq<char>, filter: Option<Seq<Seq<char>>>) -> bool {
    &&& file_name_of(path) matches Some(n) && !has_prefix(n, "."@)
    &&& match filter {
        Some(allowed) => extension_allowed(path, allowed),
        None => true,
    }
}

/// Whether a directory entry is listed: hidden entries never are, and with a
/// filter only those whose lower-cased extension it names.
pub fn keep_entry(path: &str, filtered_extensions: Option<&Vec<String>>) -> (r: bool)
    ensures
        r == entry_listed(path@, match filtered_extensions {
            Some(f) => Some(texts(f@)),
            None => None,
        }),
{
    let visible = match file_name(path) {
        Some(n) => !starts_with(&chars_of(n.as_str()), &chars_of(".")),
        None => false,
    };
    if !visible {
        return false;
    }
    match filtered_extensions {
        Some(f) => has_allowed_extension(path, f),
        None => true,
    }
}

/// An image in a directory listing: its path, MIME type, width and height.
#[derive(Debug)]
pub struct ImageInfo {
    pub path: String,
    pub mime: String,
    pub w: usize,
    pub h: usize,
}

/// Any other file in a directory listing: its path and MIME type.
#[derive(Debug)]
pub struct FileInfo {
    pub path: String,
    pub mime: String,
}

/// What a directory entry turned out to be once looked at.
pub enum EntryKind {
    Dir,
    Image { mime: String, w: usize, h: usize },
    Other { mime: String },
}

/// A directory entry as read from disk: its path, whether it is a directory,
/// the first bytes of its content (empty when they could not be read), and the
/// width and height read from its image header ((0, 0) when none could be read).
pub struct RawEntry {
    pub path: String,
    pub is_dir: bool,
    pub head: Vec<u8>,
    pub size: (usize, usize),
}

/// The kind of a file entry from the content sniffed from its head and, for
/// images, the size read from it.
pub fn file_kind(head: &[u8], size: (usize, usize)) -> (k: EntryKind)
    ensures
        match sniffed_kind(head@) {
            Some((m, _)) => if is_image_mime(m) {
                k matches EntryKind::Image { mime, w, h } && mime@ == m && w == size.0 && h == size.1
            } else {
                k matches EntryKind::Other { mime } && mime@ == m
            },
            None => k matches EntryKind::Other { mime } && mime@ == unknown_mime(),
        },
{
    let (mime, _ext, is_image) = get_mime_type_and_is_image(head);
    if is_image {
        EntryKind::Image { mime, w: size.0, h: size.1 }
    } else {
        EntryKind::Other { mime }
    }
}

/// The extension filter as texts.
pub open spec fn filter_texts(f: Option<&Vec<String>>) -> Option<Seq<Seq<char>>> {
    match f {
        Some(v) => Some(texts(v@)),
        None => None,
    }
}

/// The MIME type sniffed from a file's first bytes, or the unknown type.
pub open spec fn sniffed_mime(head: Seq<u8>) -> Seq<char> {
    match sniffed_kind(head) {
        Some((m, _)) => m,
        None => unknown_mime(),
    }
}

/// Whether an entry is an image: not a directory, and its content sniffs as an image type.
pub open spec fn is_image_entry(e: RawEntry) -> bool {
    !e.is_dir && (sniffed_kind(e.head@) matches Some((m, _)) && is_image_mime(m))
}

/// The listed image entries, in order, as (path, MIME type, width, height).
pub open spec fn listed_images(es: Seq<RawEntry>, f: Option<Seq<Seq<char>>>) -> Seq<(Seq<char>, Seq<char>, usize, usize)>
    decreases es.len(),
{
    if es.len() == 0 {
        Seq::empty()
    } else {
        let rest = listed_images(es.drop_last(), f);
        let e = es.last();
        if entry_listed(e.path@, f) && is_image_entry(e) {
            rest.push((e.path@, sniffed_mime(e.head@), e.size.0, e.size.1))
        } else {
            rest
        }
    }
}

/// The listed entries that are neither directories nor images, in order, as (path, MIME type).
pub open spec fn listed_files(es: Seq<RawEntry>, f: Option<Seq<Seq<char>>>) -> Seq<(Seq<char>, Seq<char>)>
    decreases es.len(),
{
    if es.len() == 0 {
        Seq::empty()
    } else {
        let rest = listed_files(es.drop_last(), f);
        let e = es.last();
        if entry_listed(e.path@, f) && !e.is_dir && !is_image_entry(e) {
            rest.push((e.path@, sniffed_mime(e.head@)))
        } else {
            rest
        }
    }
}

/// The listed directories, in order, as their paths.
pub open spec fn listed_dirs(es: Seq<RawEntry>, f: Option<Seq<Seq<char>>>) -> Seq<Seq<char>>
    decreases es.len(),
{
    if es.len() == 0 {
        Seq::empty()
    } else {
        let rest = listed_dirs(es.drop_last(), f);
        let e = es.last();
        if entry_listed(e.path@, f) && e.is_dir {
            rest.push(e.path@)
        } else {
            rest
        }
    }
}

/// How many entries are listed.
pub open spec fn listed_count(es: Seq<RawEntry>, f: Option<Seq<Seq<char>>>) -> nat
    decreases es.len(),
{
    if es.len() == 0 {
        0
    } else {
        listed_count(es.drop_last(), f) + if entry_listed(es.last().path@, f) {
            1nat
        } else {
            0nat
        }
    }
}

/// The records of a list of images.
pub open spec fn image_records(v: Seq<ImageInfo>) -> Seq<(Seq<char>, Seq<char>, usize, usize)> {
    v.map_values(|i: ImageInfo| (i.path@, i.mime@, i.w, i.h))
}

/// The records of a list of files.
pub open spec fn file_records(v: Seq<FileInfo>) -> Seq<(Seq<char>, Seq<char>)> {
    v.map_values(|f: FileInfo| (f.path@, f.mime@))
}

/// The listing of a directory's entries, in their order: hidden entries and,
/// with a filter, entries without an allowed extension are left out; the rest
/// are directories, images (with their sniffed MIME type and header size), or
/// other files (with their sniffed MIME type, or the unknown type).
pub fn list_images_dirs_files(entries: Vec<RawEntry>, filtered_extensions: Option<&Vec<String>>) -> (r: (
    Vec<ImageInfo>,
    Vec<FileInfo>,
    Vec<String>,
))
    ensures
        image_records(r.0@) == listed_images(entries@, filter_texts(filtered_extensions)),
        file_records(r.1@) == listed_files(entries@, filter_texts(filtered_extensions)),
        texts(r.2@) == listed_dirs(entries@, filter_texts(filtered_extensions)),
{
    let ghost all = entries@;
    let ghost f = filter_texts(filtered_extensions);
    let mut images: Vec<ImageInfo> = Vec::new();
    let mut files: Vec<FileInfo> = Vec::new();
    let mut dirs: Vec<String> = Vec::new();
    assert(image_records(images@) =~= listed_images(all.take(0), f));
    assert(file_records(files@) =~= listed_files(all.take(0), f));
    assert(texts(dirs@) =~= listed_dirs(all.take(0), f));
    for e in it: entries
        invariant
            it.seq() == all,
            f == filter_texts(filtered_extensions),
            image_records(images@) == listed_images(all.take(it.index() as int), f),
            file_records(files@) == listed_files(all.take(it.index() as int), f),
            texts(dirs@) == listed_dirs(all.take(it.index() as int), f),
    {
        let ghost i = it.index();
        assert(e == all[i as int]);
        assert(all.take(i + 1).drop_last() =~= all.take(i as int));
        assert(all.take(i + 1).last() == e);
        let ghost before_i = image_records(images@);
        let ghost before_f = file_records(files@);
        let ghost before_d = texts(dirs@);
        let ghost ge = e;
        if keep_entry(e.path.as_str(), filtered_extensions) {
            if e.is_dir {
                dirs.push(e.path);
                assert(texts(dirs@) =~= before_d.push(ge.path@));
            } else {
                match file_kind(e.head.as_slice(), e.size) {
                    EntryKind::Image { mime, w, h } => {
                        images.push(ImageInfo { path: e.path, mime, w, h });
                        assert(image_records(images@) =~= before_i.push((ge.path@, mime@, w, h)));
                    },
                    EntryKind::Other { mime } => {
                        files.push(FileInfo { path: e.path, mime });
                        assert(file_records(files@) =~= before_f.push((ge.path@, mime@)));
                    },
                    EntryKind::Dir => {},
                }
            }
        }
    }
    assert(all.take(all.len() as int) =~= all);
    (images, files, dirs)
}

} // verus!

verus! {

/// Listing a directory loses and duplicates no listed entry: every entry that
/// passes the filter lands in exactly one of the three lists.
pub proof fn law_listing_partitions_entries(entries: Seq<RawEntry>, f: Option<Seq<Seq<char>>>)
    ensures
        listed_images(entries, f).len() + listed_files(entries, f).len() + listed_dirs(entries, f).len()
            == listed_count(entries, f),
    decreases entries.len(),
{
    if entries.len() > 0 {
        law_listing_partitions_entries(entries.drop_last(), f);
    }
}

/// Hidden entries, whose name starts with `.`, are never listed, whatever the filter.
pub proof fn law_hidden_entries_not_listed(path: Seq<char>, filter: Option<Seq<Seq<char>>>)
    requires
        file_name_of(path) matches Some(n) && has_prefix(n, "."@),
    ensures
        !entry_listed(path, filter),
{
}

/// A MIME type counts as an image exactly when it starts with `image/`: PNG,
/// GIF, WebP and every other `image/...` type, not only JPEG.
pub proof fn law_image_types_are_images(m: Seq<char>)
    ensures
        is_image_mime(m) <==> (m.len() >= 6 && m.subrange(0, 6) == seq!['i', 'm', 'a', 'g', 'e', '/']),
{
    reveal_strlit("image/");
    assert("image/"@ =~= seq!['i', 'm', 'a', 'g', 'e', '/']);
}

/// The images of a listing are exactly the listed entries that are not
/// directories and whose content sniffs as an `image/...` type, in their order,
/// each with that type and the size read from its header.
pub proof fn law_listed_images_are_image_entries(es: Seq<RawEntry>, f: Option<Seq<Seq<char>>>)
    ensures
        listed_images(es, f) == es.filter_map(
            |e: RawEntry|
                if entry_listed(e.path@, f) && !e.is_dir && (sniffed_kind(e.head@) matches Some((m, _))
                    && m.len() >= 6 && m.subrange(0, 6) == seq!['i', 'm', 'a', 'g', 'e', '/']) {
                    Some((e.path@, sniffed_kind(e.head@).unwrap().0, e.size.0, e.size.1))
                } else {
                    None
                },
        ),
    decreases es.len(),
{
    if es.len() > 0 {
        law_listed_images_are_image_entries(es.drop_last(), f);
        let e = es.last();
        if let Some((m, _)) = sniffed_kind(e.head@) {
            law_image_types_are_images(m);
        }
        assert(listed_images(es, f) =~= es.filter_map(
            |e: RawEntry|
                if entry_listed(e.path@, f) && !e.is_dir && (sniffed_kind(e.head@) matches Some((m, _))
                    && m.len() >= 6 && m.subrange(0, 6) == seq!['i', 'm', 'a', 'g', 'e', '/']) {
                    Some((e.path@, sniffed_kind(e.head@).unwrap().0, e.size.0, e.size.1))
                } else {
                    None
                },
        ));
    }
}

/// The other files of a listing are exactly the listed entries that are not
/// directories and whose content does not sniff as an `image/...` type, in their
/// order, each with its sniffed type (the unknown type when none is recognised).
pub proof fn law_listed_files_are_other_entries(es: Seq<RawEntry>, f: Option<Seq<Seq<char>>>)
    ensures
        listed_files(es, f) == es.filter_map(
            |e: RawEntry|
                if entry_listed(e.path@, f) && !e.is_dir && !(sniffed_kind(e.head@) matches Some((m, _))
                    && m.len() >= 6 && m.subrange(0, 6) == seq!['i', 'm', 'a', 'g', 'e', '/']) {
                    Some(
                        (
                            e.path@,
                            match sniffed_kind(e.head@) {
                                Some((m, _)) => m,
                                None => unknown_mime(),
                            },
                        ),
                    )
                } else {
                    None
                },
        ),
    decreases es.len(),
{
    if es.len() > 0 {
        law_listed_files_are_other_entries(es.drop_last(), f);
        let e = es.last();
        if let Some((m, _)) = sniffed_kind(e.head@) {
            law_image_types_are_images(m);
        }
        assert(listed_files(es, f) =~= es.filter_map(
            |e: RawEntry|
                if entry_listed(e.path@, f) && !e.is_dir && !(sniffed_kind(e.head@) matches Some((m, _))
                    && m.len() >= 6 && m.subrange(0, 6) == seq!['i', 'm', 'a', 'g', 'e', '/']) {
                    Some(
                        (
                            e.path@,
                            match sniffed_kind(e.head@) {
                                Some((m, _)) => m,
                                None => unknown_mime(),
                            },
                        ),
                    )
                } else {
                    None
                },
        ));
    }
}

/// The directories of a listing are exactly the listed entries that are
/// directories, in their order.
pub proof fn law_listed_dirs_are_directory_entries(es: Seq<RawEntry>, f: Option<Seq<Seq<char>>>)
    ensures
        listed_dirs(es, f) == es.filter_map(
            |e: RawEntry|
                if entry_listed(e.path@, f) && e.is_dir {
                    Some(e.path@)
                } else {
                    None
                },
        ),
    decreases es.len(),
{
    if es.len() > 0 {
        law_listed_dirs_are_directory_entries(es.drop_last(), f);
        assert(listed_dirs(es, f) =~= es.filter_map(
            |e: RawEntry|
                if entry_listed(e.path@, f) && e.is_dir {
                    Some(e.path@)
                } else {
                    None
                },
        ));
    }
}

/// An entry is listed exactly when it has a file name that does not start with
/// `.` and, with a filter, its extension lower-cased is one of the filter's
/// entries; without a filter every such entry is listed.
pub proof fn law_entry_listed_exactly(path: Seq<char>, filter: Option<Seq<Seq<char>>>)
    ensures
        entry_listed(path, filter) <==> (file_name_of(path) matches Some(n) && !(n.len() > 0 && n[0] == '.')
            && match filter {
            Some(allowed) => extension_of(path) matches Some(e) && allowed.contains(lowercase_of(e)),
            None => true,
        }),
{
    reveal_strlit(".");
    assert("."@ =~= seq!['.']);
    if let Some(n) = file_name_of(path) {
        if n.len() > 0 && n[0] == '.' {
            assert(n.subrange(0, 1) =~= seq!['.']);
        }
        if has_prefix(n, "."@) {
            assert(n.subrange(0, 1)[0] == n[0]);
        }
    }
}

/// A size below 2^53 bytes is taken exactly: converting it to a float loses nothing.
pub proof fn law_sizes_below_two_to_53_are_exact(b: nat)
    requires
        b < 0x20_0000_0000_0000,
    ensures
        f64_of(b) == b,
{
}

/// Sizes below 1024 bytes are shown in bytes with one zero decimal: `"{b}.0 B"`.
pub proof fn law_small_sizes_in_bytes(b: nat)
    requires
        b < 1024,
    ensures
        size_text(b) == decimal(b) + seq!['.', '0', ' ', 'B'],
{
    assert(tenths(b, 1) == 10 * b) by (nonlinear_arith);
    assert((10 * b) / 10 == b && (10 * b) % 10 == 0) by (nonlinear_arith);
}

/// The shown value is the size in its unit rounded to the nearest tenth: `t`
/// tenths with `t / 10 - 1/20 <= m / d <= t / 10 + 1/20`.
pub proof fn law_tenths_nearest(m: nat, d: nat)
    requires
        d > 0,
    ensures
        (2 * tenths(m, d) - 1) * d <= 20 * m,
        20 * m <= (2 * tenths(m, d) + 1) * d,
{
    let n = 10 * m;
    let t = n / d;
    let r = n % d;
    assert(n == t * d + r && 0 <= r < d) by (nonlinear_arith)
        requires
            d > 0,
            t == n / d,
            r == n % d,
    ;
    if 2 * r > d || (2 * r == d && t % 2 == 1) {
        assert((2 * (t + 1) - 1) * d <= 20 * m) by (nonlinear_arith)
            requires
                n == t * d + r,
                2 * r >= d,
                n == 10 * m,
        ;
        assert(20 * m <= (2 * (t + 1) + 1) * d) by (nonlinear_arith)
            requires
                n == t * d + r,
                r < d,
                n == 10 * m,
        ;
    } else {
        assert((2 * t - 1) * d <= 20 * m) by (nonlinear_arith)
            requires
                n == t * d + r,
                r >= 0,
                d > 0,
                n == 10 * m,
        ;
        assert(20 * m <= (2 * t + 1) * d) by (nonlinear_arith)
            requires
                n == t * d + r,
                2 * r <= d,
                n == 10 * m,
        ;
    }
}

/// The unit a size is shown in is the largest of B, KB, MB, GB and TB (steps
/// of 1024) that the size reaches, and the shown number is the size divided by
/// that unit's 1024 power.
pub proof fn law_size_unit_is_largest_reached(m: nat)
    ensures
        unit_index(m) <= 4,
        unit_divisor(unit_index(m)) == vstd::arithmetic::power::pow(1024, unit_index(m)),
        unit_index(m) == 0 || vstd::arithmetic::power::pow(1024, unit_index(m)) <= m,
        unit_index(m) == 4 || m < vstd::arithmetic::power::pow(1024, unit_index(m) + 1),
        unit_name(unit_index(m)) == seq![
            seq!['B'],
            seq!['K', 'B'],
            seq!['M', 'B'],
            seq!['G', 'B'],
            seq!['T', 'B'],
        ][unit_index(m) as int],
{
    reveal_with_fuel(vstd::arithmetic::power::pow, 6);
    assert(vstd::arithmetic::power::pow(1024, 2) == 1048576);
    assert(vstd::arithmetic::power::pow(1024, 3) == 1073741824);
    assert(vstd::arithmetic::power::pow(1024, 4) == 1099511627776);
    assert(vstd::arithmetic::power::pow(1024, 5) == 1125899906842624);
}

/// A path passes an extension filter exactly when it has an extension whose
/// lower-cased form is, letter for letter, one of the filter's entries.
pub proof fn law_extension_allowed_exactly(path: Seq<char>, allowed: Seq<String>)
    ensures
        extension_allowed(path, texts(allowed)) <==> (extension_of(path) matches Some(e) && exists|i: int|
            0 <= i < allowed.len() && (#[trigger] allowed[i])@ == lowercase_of(e)),
{
    if let Some(e) = extension_of(path) {
        if texts(allowed).contains(lowercase_of(e)) {
            let i = choose|i: int| 0 <= i < texts(allowed).len() && texts(allowed)[i] == lowercase_of(e);
            assert(allowed[i]@ == lowercase_of(e));
        }
        if exists|i: int| 0 <= i < allowed.len() && (#[trigger] allowed[i])@ == lowercase_of(e) {
            let i = choose|i: int| 0 <= i < allowed.len() && (#[trigger] allowed[i])@ == lowercase_of(e);
            assert(texts(allowed)[i] == lowercase_of(e));
        }
    }
}

/// The records of a listing's results are their fields, entry by entry: an
/// image's path, MIME type, width and height; a file's path and MIME type; a
/// string's text.
pub proof fn law_listing_records(images: Seq<ImageInfo>, files: Seq<FileInfo>, list: Seq<String>, k: int)
    ensures
        image_records(images).len() == images.len(),
        0 <= k < images.len() ==> image_records(images)[k] == (images[k].path@, images[k].mime@, images[k].w, images[k].h),
        file_records(files).len() == files.len(),
        0 <= k < files.len() ==> file_records(files)[k] == (files[k].path@, files[k].mime@),
        texts(list).len() == list.len(),
        0 <= k < list.len() ==> texts(list)[k] == list[k]@,
{
}

} // verus!
