//! Command-line settings, and how the album base is chosen from them.

use vstd::prelude::*;
use crate::path::{extension, extension_of, file_name, file_name_of, parent, parent_of};
use crate::text::{chars_of, str_eq, string_of};

verus! {

/// The settings given on the command line.
#[derive(Debug)]
pub struct Cli {
    /// Base path to albums.
    pub base: String,
    /// Base path to the store.
    pub store: String,
    /// Comma-separated list of filtered extensions.
    pub extensions: String,
    /// Prefix for subpath support.
    pub prefix: String,
    pub command: Commands,
}

/// What to do.
#[derive(Debug, PartialEq, Eq)]
pub enum Commands {
    /// Start the web server.
    Serve { host: String, port: u16, open: bool },
    /// Scan for albums and build caches.
    Scan {},
}

/// Whether a path names a JPEG file by its extension: exactly `jpg` or `jpeg`.
pub open spec fn is_jpg_path(path: Seq<char>) -> bool {
    extension_of(path) == Some("jpg"@) || extension_of(path) == Some("jpeg"@)
}

/// Whether a path names a JPEG file by its extension (case-sensitive).
pub fn has_jpg_extension(path: &str) -> (r: bool)
    ensures
        r == is_jpg_path(path@),
{
    match extension(path) {
        Some(e) => str_eq(e.as_str(), "jpg") || str_eq(e.as_str(), "jpeg"),
        None => false,
    }
}

/// Whether some of the paths names a JPEG file.
pub open spec fn any_jpg(entries: Seq<String>) -> bool {
    exists|i: int| 0 <= i < entries.len() && is_jpg_path(#[trigger] entries[i]@)
}

/// The album name to serve alone: when the base directory directly holds JPEG
/// files (its entries are `entries`), the base's own name; otherwise empty,
/// which means every subdirectory is an album.
pub fn check_if_base_contains_jpgs(base: &str, entries: &Vec<String>) -> (r: String)
    requires
        any_jpg(entries@) ==> file_name_of(base@) is Some,
    ensures
        any_jpg(entries@) ==> r@ == file_name_of(base@).unwrap(),
        !any_jpg(entries@) ==> r@ == Seq::<char>::empty(),
{
    let n = entries.len();
    let mut found = false;
    for i in 0..n
        invariant
            n == entries@.len(),
            found == exists|j: int| 0 <= j < i && is_jpg_path(#[trigger] entries@[j]@),
    {
        let is_jpg = has_jpg_extension(entries[i].as_str());
        if is_jpg {
            assert(is_jpg_path(entries@[i as int]@));
        }
        found = found || is_jpg;
    }
    if found {
        match file_name(base) {
            Some(name) => name,
            None => string_of(&Vec::new()),
        }
    } else {
        let e: Vec<char> = Vec::new();
        string_of(&e)
    }
}

/// Only the extensions `jpg` and `jpeg`, exactly as written, mark a JPEG path:
/// any other extension (`png`, `gif`, `JPG`, ...) and a path without one do not.
pub proof fn law_jpg_extensions_exactly(path: Seq<char>)
    ensures
        is_jpg_path(path) <==> (extension_of(path) == Some(seq!['j', 'p', 'g']) || extension_of(path)
            == Some(seq!['j', 'p', 'e', 'g'])),
{
    reveal_strlit("jpg");
    reveal_strlit("jpeg");
    assert("jpg"@ =~= seq!['j', 'p', 'g']);
    assert("jpeg"@ =~= seq!['j', 'p', 'e', 'g']);
}

/// One JPEG entry anywhere in the base's entries is enough for single-album
/// mode, whatever comes before or after it.
pub proof fn law_any_jpg_entry_counts(entries: Seq<String>, i: int)
    requires
        0 <= i < entries.len(),
        is_jpg_path(entries[i]@),
    ensures
        any_jpg(entries),
{
}

/// Without a JPEG entry among the base's entries the mode is multi-album.
pub proof fn law_no_jpg_entry(entries: Seq<String>)
    requires
        forall|i: int| 0 <= i < entries.len() ==> !is_jpg_path(#[trigger] entries[i]@),
    ensures
        !any_jpg(entries),
{
}

/// The mode does not depend on the order of the entries: a rearrangement of the
/// entries (each entry of one found in the other) decides the same way.
pub proof fn law_any_jpg_ignores_order(a: Seq<String>, b: Seq<String>)
    requires
        forall|i: int| 0 <= i < a.len() ==> exists|j: int| 0 <= j < b.len() && #[trigger] b[j] == #[trigger] a[i],
        forall|j: int| 0 <= j < b.len() ==> exists|i: int| 0 <= i < a.len() && #[trigger] a[i] == #[trigger] b[j],
    ensures
        any_jpg(a) == any_jpg(b),
{
    if any_jpg(a) {
        let i = choose|i: int| 0 <= i < a.len() && is_jpg_path(#[trigger] a[i]@);
        let j = choose|j: int| 0 <= j < b.len() && #[trigger] b[j] == a[i];
        assert(is_jpg_path(b[j]@));
    }
    if any_jpg(b) {
        let j = choose|j: int| 0 <= j < b.len() && is_jpg_path(#[trigger] b[j]@);
        let i = choose|i: int| 0 <= i < a.len() && #[trigger] a[i] == b[j];
        assert(is_jpg_path(a[i]@));
    }
}

/// The album base in use: the canonical base in multi-album mode; in
/// single-album mode the parent of the base as given, so that the album is a
/// directory inside it.
pub fn base_for_mode(given_base: &str, canonical_base: &str, single_album: &str) -> (r: String)
    requires
        single_album@.len() > 0 ==> parent_of(given_base@) is Some,
    ensures
        single_album@.len() == 0 ==> r@ == canonical_base@,
        single_album@.len() > 0 ==> r@ == parent_of(given_base@).unwrap(),
{
    if single_album.is_empty() {
        string_of(&chars_of(canonical_base))
    } else {
        match parent(given_base) {
            Some(p) => p,
            None => string_of(&Vec::new()),
        }
    }
}

} // verus!
