//! Albums: their index records, where their files live, and how the images
//! found in an album directory become index records.

use vstd::prelude::*;
use crate::path::{file_name, file_name_of};
use crate::text::{chars_of, push_str, string_of};
use image::{ImageFormat, ImageReader};
use zip::write::SimpleFileOptions;

verus! {

/// One image of an album index.
#[derive(Debug)]
pub struct FileInfo {
    /// The canonical path of the image file.
    pub fname: String,
    /// The file name.
    pub name: String,
    pub w: u32,
    pub h: u32,
    /// The kind of file, always `jpg`.
    pub file_type: String,
    pub mime: String,
}

/// An album: its name and its images.
#[derive(Debug)]
pub struct Album {
    pub name: String,
    pub images: Vec<FileInfo>,
}

impl Album {
    /// An album of the given name and images.
    pub fn new(name: &str, images: Vec<FileInfo>) -> (a: Album)
        ensures
            a.name@ == name@,
            a.images == images,
    {
        Album { name: string_of(&chars_of(name)), images }
    }

    /// How many images the album has.
    pub fn total(&self) -> (n: usize)
        ensures
            n == self.images@.len(),
    {
        self.images.len()
    }
}

/// An image file to index: the path it was listed under, its canonical path, and
/// its content.
pub struct ImageSource {
    pub path: String,
    pub fname: String,
    pub bytes: Vec<u8>,
}

/// Width, height and whether the format is JPEG, of the image the `image` crate
/// decodes from file content: its format guessed from the content, or else told by
/// the file's extension.
pub uninterp spec fn probed_image(bytes: Seq<u8>, path: Seq<char>) -> Option<(u32, u32, bool)>;

/// Calls `image::ImageReader` on the content with the format of the path's
/// extension (`ImageFormat::from_path`), then `with_guessed_format`, `format` and
/// `decode`; claimed: the result is the named probe of content and path: none when
/// no format is known or the content does not decode.
#[verifier::external_body]
fn probe_bytes(bytes: &[u8], path: &str) -> (r: Option<(u32, u32, bool)>)
    ensures
        r == probed_image(bytes@, path@),
{
    let mut reader = ImageReader::new(std::io::Cursor::new(bytes));
    if let Ok(format) = ImageFormat::from_path(path) {
        reader.set_format(format);
    }
    let reader = reader.with_guessed_format().ok()?;
    let is_jpeg = match reader.format()? {
        ImageFormat::Jpeg => true,
        _ => false,
    };
    let img = reader.decode().ok()?;
    Some((img.width(), img.height(), is_jpeg))
}

/// The record of an index entry: file path, name, width, height, kind and MIME type.
pub type FileRecord = (Seq<char>, Seq<char>, u32, u32, Seq<char>, Seq<char>);

/// The record of an index entry.
pub open spec fn record_of(f: FileInfo) -> FileRecord {
    (f.fname@, f.name@, f.w, f.h, f.file_type@, f.mime@)
}

/// The index entry of an image file: none when it does not decode or its path has
/// no file name; JPEG images are `image/jpeg`, others `application/octet-stream`,
/// and the kind is always `jpg`.
pub open spec fn file_info_of(src: ImageSource) -> Option<FileRecord> {
    match (probed_image(src.bytes@, src.path@), file_name_of(src.path@)) {
        (Some((w, h, is_jpeg)), Some(name)) => Some(
            (
                src.fname@,
                name,
                w,
                h,
                "jpg"@,
                if is_jpeg {
                    "image/jpeg"@
                } else {
                    "application/octet-stream"@
                },
            ),
        ),
        _ => None,
    }
}

/// The index entry of an image file, read from its content: its dimensions from
/// the decoded image, its MIME type from the decoded format.
pub fn file_info(src: ImageSource) -> (r: Option<FileInfo>)
    ensures
        match r {
            Some(f) => file_info_of(src) == Some(record_of(f)),
            None => file_info_of(src) is None,
        },
{
    let probe = probe_bytes(src.bytes.as_slice(), src.path.as_str());
    match (probe, file_name(src.path.as_str())) {
        (Some((w, h, is_jpeg)), Some(name)) => {
            let mime = if is_jpeg {
                string_of(&chars_of("image/jpeg"))
            } else {
                string_of(&chars_of("application/octet-stream"))
            };
            Some(FileInfo { fname: src.fname, name, w, h, file_type: string_of(&chars_of("jpg")), mime })
        },
        _ => None,
    }
}

/// The index entries of the files that could be read, decode and have a file name, in order.
pub open spec fn infos_of(files: Seq<Option<ImageSource>>) -> Seq<FileRecord>
    decreases files.len(),
{
    if files.len() == 0 {
        Seq::empty()
    } else {
        let rest = infos_of(files.drop_last());
        match files.last() {
            Some(p) => match file_info_of(p) {
                Some(r) => rest.push(r),
                None => rest,
            },
            None => rest,
        }
    }
}

/// The index entries of the images listed in an album directory, in listing
/// order. A file that could not be read or canonicalized is `None`; it is left
/// out, as is one that does not decode.
pub fn list_files_with_info(files: Vec<Option<ImageSource>>) -> (r: Vec<FileInfo>)
    ensures
        r@.map_values(|f: FileInfo| record_of(f)) == infos_of(files@),
        r@.map_values(|f: FileInfo| record_of(f)) == files@.filter_map(
            |o: Option<ImageSource>|
                match o {
                    Some(src) => file_info_of(src),
                    None => None,
                },
        ),
{
    let ghost all = files@;
    let mut out: Vec<FileInfo> = Vec::new();
    assert(out@.map_values(|f: FileInfo| record_of(f)) =~= infos_of(all.take(0)));
    for p in it: files
        invariant
            it.seq() == all,
            out@.map_values(|f: FileInfo| record_of(f)) == infos_of(all.take(it.index() as int)),
    {
        let ghost i = it.index();
        assert(all.take(i + 1).drop_last() =~= all.take(i as int));
        assert(all.take(i + 1).last() == p);
        let ghost before = out@.map_values(|f: FileInfo| record_of(f));
        match p {
            Some(src) => match file_info(src) {
                Some(f) => {
                    out.push(f);
                    assert(out@.map_values(|f: FileInfo| record_of(f)) =~= before.push(
                        record_of(out@.last()),
                    ));
                },
                None => {},
            },
            None => {},
        }
    }
    assert(all.take(all.len() as int) =~= all);
    proof {
        law_index_keeps_every_decodable_file(all);
    }
    out
}

/// The record of an index entry is its fields: file path, name, width,
/// height, kind and MIME type, in that order.
pub proof fn law_record_fields(f: FileInfo)
    ensures
        record_of(f).0 == f.fname@ && record_of(f).1 == f.name@ && record_of(f).2 == f.w && record_of(f).3
            == f.h && record_of(f).4 == f.file_type@ && record_of(f).5 == f.mime@,
{
}

/// The index entry of a file: its canonical path, its file name, the decoded
/// width and height, the kind `jpg` whatever the format, and the MIME type
/// `image/jpeg` for a JPEG, `application/octet-stream` for any other format;
/// a file that does not decode, or has no file name, has none.
pub proof fn law_file_info_entry(src: ImageSource)
    ensures
        (probed_image(src.bytes@, src.path@) matches Some((w, h, j)) && file_name_of(src.path@)
            matches Some(n)) ==> file_info_of(src) == Some(
            (
                src.fname@,
                file_name_of(src.path@).unwrap(),
                probed_image(src.bytes@, src.path@).unwrap().0,
                probed_image(src.bytes@, src.path@).unwrap().1,
                seq!['j', 'p', 'g'],
                if probed_image(src.bytes@, src.path@).unwrap().2 {
                    seq!['i', 'm', 'a', 'g', 'e', '/', 'j', 'p', 'e', 'g']
                } else {
                    seq![
                        'a', 'p', 'p', 'l', 'i', 'c', 'a', 't', 'i', 'o', 'n', '/', 'o', 'c', 't', 'e',
                        't', '-', 's', 't', 'r', 'e', 'a', 'm',
                    ]
                },
            ),
        ),
        probed_image(src.bytes@, src.path@) is None ==> file_info_of(src) is None,
        file_name_of(src.path@) is None ==> file_info_of(src) is None,
{
    reveal_strlit("jpg");
    reveal_strlit("image/jpeg");
    reveal_strlit("application/octet-stream");
    assert("jpg"@ =~= seq!['j', 'p', 'g']);
    assert("image/jpeg"@ =~= seq!['i', 'm', 'a', 'g', 'e', '/', 'j', 'p', 'e', 'g']);
    assert("application/octet-stream"@ =~= seq![
        'a', 'p', 'p', 'l', 'i', 'c', 'a', 't', 'i', 'o', 'n', '/', 'o', 'c', 't', 'e',
        't', '-', 's', 't', 'r', 'e', 'a', 'm',
    ]);
}

/// Every readable source that decodes and has a file name gives exactly one
/// index entry, whatever its format or MIME type, and the entries keep the order
/// of the sources: the index is the sources' `file_info_of`, the failures left out.
pub proof fn law_index_keeps_every_decodable_file(files: Seq<Option<ImageSource>>)
    ensures
        infos_of(files) == files.filter_map(
            |o: Option<ImageSource>|
                match o {
                    Some(src) => file_info_of(src),
                    None => None,
                },
        ),
    decreases files.len(),
{
    if files.len() > 0 {
        law_index_keeps_every_decodable_file(files.drop_last());
        assert(infos_of(files) =~= files.filter_map(
            |o: Option<ImageSource>|
                match o {
                    Some(src) => file_info_of(src),
                    None => None,
                },
        ));
    }
}

/// A source that decodes and has a file name is in the index: with the other
/// sources before it, its entry comes right after theirs.
pub proof fn law_decodable_file_is_indexed(before: Seq<Option<ImageSource>>, src: ImageSource)
    requires
        file_info_of(src) is Some,
    ensures
        infos_of(before.push(Some(src))) == infos_of(before).push(file_info_of(src).unwrap()),
{
    assert(before.push(Some(src)).drop_last() =~= before);
}

// ---------------------------------------------------------------------------
// The album archive
// ---------------------------------------------------------------------------

/// The bytes of the zip archive that `zip::ZipWriter` writes into memory for the
/// given entries (name and content, in order), each stored uncompressed with the
/// writer's default options; none when the writer refuses an entry.
pub uninterp spec fn stored_archive(entries: Seq<(Seq<char>, Seq<u8>)>) -> Option<Seq<u8>>;

/// Named files as plain values.
pub open spec fn entries_view(entries: Seq<(String, Vec<u8>)>) -> Seq<(Seq<char>, Seq<u8>)> {
    entries.map_values(|e: (String, Vec<u8>)| (e.0@, e.1@))
}

/// Calls `zip::ZipWriter::new` on an in-memory cursor, then for each entry
/// `start_file` with the `Stored` method and a write of its content, then `finish`;
/// claimed: the result is the named archive of the entries, none when `start_file`
/// or `finish` fails. (Without the crate's `time` feature every entry carries the
/// same default timestamp, so the bytes depend on the entries alone.)
#[verifier::external_body]
fn zip_stored(entries: &Vec<(String, Vec<u8>)>) -> (r: Option<Vec<u8>>)
    ensures
        match r {
            Some(b) => stored_archive(entries_view(entries@)) == Some(b@),
            None => stored_archive(entries_view(entries@)) is None,
        },
{
    let mut zip = zip::ZipWriter::new(std::io::Cursor::new(Vec::new()));
    let options = SimpleFileOptions::default().compression_method(zip::CompressionMethod::Stored);
    for (name, data) in entries {
        zip.start_file(name.as_str(), options).ok()?;
        let _ = std::io::Write::write_all(&mut zip, data);
    }
    Some(zip.finish().ok()?.into_inner())
}

/// The entries of an album archive: each file's content under the file name of
/// its path, in order.
pub open spec fn archive_entries(files: Seq<(Seq<char>, Seq<u8>)>) -> Seq<(Seq<char>, Seq<u8>)> {
    files.map_values(|f: (Seq<char>, Seq<u8>)| (file_name_of(f.0).unwrap(), f.1))
}

/// Named files as plain values, entry by entry.
pub proof fn law_entries_view(entries: Seq<(String, Vec<u8>)>, k: int)
    requires
        0 <= k < entries.len(),
    ensures
        entries_view(entries).len() == entries.len(),
        entries_view(entries)[k] == (entries[k].0@, entries[k].1@),
{
}

/// Entry `k` of an album archive is file `k`: stored under that file's name,
/// holding exactly that file's content; there are as many entries as files.
pub proof fn law_archive_entry_is_its_file(files: Seq<(Seq<char>, Seq<u8>)>, k: int)
    requires
        0 <= k < files.len(),
    ensures
        archive_entries(files).len() == files.len(),
        file_name_of(files[k].0) matches Some(n) ==> archive_entries(files)[k].0 == n,
        archive_entries(files)[k].1 == files[k].1,
{
}

/// The zip archive of an album's files (each a path and its content), stored
/// uncompressed, each under its file name, in order; none when the archive
/// writer refuses an entry.
pub fn album_archive(files: Vec<(String, Vec<u8>)>) -> (r: Option<Vec<u8>>)
    requires
        forall|i: int| 0 <= i < files@.len() ==> file_name_of(#[trigger] files@[i].0@) is Some,
    ensures
        match r {
            Some(b) => stored_archive(archive_entries(entries_view(files@))) == Some(b@),
            None => stored_archive(archive_entries(entries_view(files@))) is None,
        },
{
    let ghost all = files@;
    let mut entries: Vec<(String, Vec<u8>)> = Vec::new();
    for f in it: files
        invariant
            it.seq() == all,
            forall|i: int| 0 <= i < all.len() ==> file_name_of(#[trigger] all[i].0@) is Some,
            entries_view(entries@) == archive_entries(entries_view(all.take(it.index() as int))),
    {
        let ghost i = it.index();
        let ghost before = entries@;
        assert(all[i as int] == f);
        let (path, data) = f;
        assert(file_name_of(path@) is Some);
        let name = file_name(path.as_str()).unwrap();
        entries.push((name, data));
        assert(entries@ == before.push((name, data)));
        assert(entries_view(all.take(i + 1)) =~= entries_view(all.take(i as int)).push((path@, data@)));
        assert(entries_view(entries@) =~= entries_view(before).push((name@, data@)));
        assert(archive_entries(entries_view(all.take(i + 1))) =~= archive_entries(
            entries_view(all.take(i as int)),
        ).push((name@, data@)));
    }
    assert(all.take(all.len() as int) =~= all);
    zip_stored(&entries)
}

// ---------------------------------------------------------------------------
// Where album files live
// ---------------------------------------------------------------------------

/// `"{base}/{name}"`: the directory of an album.
pub open spec fn album_dir_text(base: Seq<char>, name: Seq<char>) -> Seq<char> {
    base + seq!['/'] + name
}

/// `"{base}/{name}/.karton/"`: the album's own directory of generated files.
pub open spec fn karton_dir_text(base: Seq<char>, name: Seq<char>) -> Seq<char> {
    album_dir_text(base, name) + "/.karton/"@
}

/// `"{base}/{name}/.karton/index.json"`: the album index.
pub open spec fn index_file_text(base: Seq<char>, name: Seq<char>) -> Seq<char> {
    album_dir_text(base, name) + "/.karton/index.json"@
}

/// `"{base}/{name}/.karton/{name}.zip"`: the album archive.
pub open spec fn zip_file_text(base: Seq<char>, name: Seq<char>) -> Seq<char> {
    karton_dir_text(base, name) + name + ".zip"@
}

/// The directory of an album.
pub fn album_path(base: &str, name: &str) -> (r: String)
    ensures
        r@ == album_dir_text(base@, name@),
{
    let mut v = chars_of(base);
    v.push('/');
    push_str(&mut v, name);
    string_of(&v)
}

/// The directory listed for an album's images: `"{base}/{name}/"`.
pub fn album_listing_dir(base: &str, name: &str) -> (r: String)
    ensures
        r@ == album_dir_text(base@, name@).push('/'),
{
    let mut v = chars_of(album_path(base, name).as_str());
    v.push('/');
    string_of(&v)
}

/// The album's own directory of generated files.
pub fn karton_dir(base: &str, name: &str) -> (r: String)
    ensures
        r@ == karton_dir_text(base@, name@),
{
    let mut v = chars_of(album_path(base, name).as_str());
    push_str(&mut v, "/.karton/");
    string_of(&v)
}

/// The album's cache directory: `"{base}/{name}/.karton/cache/"`.
pub fn karton_cache_dir(base: &str, name: &str) -> (r: String)
    ensures
        r@ == karton_dir_text(base@, name@) + "cache/"@,
{
    let mut v = chars_of(karton_dir(base, name).as_str());
    push_str(&mut v, "cache/");
    string_of(&v)
}

/// The index file that `load` reads.
pub fn index_file(base: &str, name: &str) -> (r: String)
    ensures
        r@ == index_file_text(base@, name@),
{
    let mut v = chars_of(album_path(base, name).as_str());
    push_str(&mut v, "/.karton/index.json");
    string_of(&v)
}

/// The index file that an album build writes: the `.karton/` directory followed by `index.json`.
pub fn built_index_file(base: &str, name: &str) -> (r: String)
    ensures
        r@ == karton_dir_text(base@, name@) + "index.json"@,
{
    let mut v = chars_of(karton_dir(base, name).as_str());
    push_str(&mut v, "index.json");
    string_of(&v)
}

/// The archive file of an album.
pub fn zip_file(base: &str, name: &str) -> (r: String)
    ensures
        r@ == zip_file_text(base@, name@),
{
    let mut v = chars_of(karton_dir(base, name).as_str());
    push_str(&mut v, name);
    push_str(&mut v, ".zip");
    string_of(&v)
}

/// An album index is read from the very file an album build writes it to.
pub proof fn law_index_read_where_written(base: Seq<char>, name: Seq<char>)
    ensures
        index_file_text(base, name) == karton_dir_text(base, name) + "index.json"@,
{
    reveal_strlit("/.karton/index.json");
    reveal_strlit("/.karton/");
    reveal_strlit("index.json");
    assert(index_file_text(base, name) =~= karton_dir_text(base, name) + "index.json"@);
}

} // verus!
