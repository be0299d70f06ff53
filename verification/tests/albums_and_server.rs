use karton::album::{
    album_listing_dir, album_path, built_index_file, file_info, index_file, karton_cache_dir, karton_dir,
    album_archive, list_files_with_info, zip_file, Album, ImageSource,
};
use karton::browser::{browse_target, subdir_path, DirPage};
use karton::greeting::Greeting;
use karton::cli::{base_for_mode, check_if_base_contains_jpgs, has_jpg_extension, Cli, Commands};
use karton::server::{
    browser_url, collect_stats, guess_mime, host_port, normalize_prefix, split_extensions, stats_url,
    upload_file_name, upload_target, zip_disposition, AppState, Home, StaticFile, StaticReply,
};
use karton::store::Store;
use karton::youtil::{
    file_kind, get_image_size, has_allowed_extension, get_mime_type, get_mime_type_and_is_image, keep_entry,
    list_images_dirs_files, EntryKind, ImageInfo, RawEntry,
};

fn encoded(format: image::ImageFormat, w: u32, h: u32) -> Vec<u8> {
    let img = image::DynamicImage::ImageRgb8(image::RgbImage::from_fn(w, h, |x, y| {
        image::Rgb([(x * 40) as u8, (y * 30) as u8, 90])
    }));
    let mut out = std::io::Cursor::new(Vec::new());
    img.write_to(&mut out, format).unwrap();
    out.into_inner()
}

fn source(path: &str, bytes: Vec<u8>) -> ImageSource {
    ImageSource { path: path.to_string(), fname: format!("/abs/{}", path), bytes }
}

#[test]
fn file_info_records() {
    let f = file_info(source("a/x.jpg", encoded(image::ImageFormat::Jpeg, 4, 3))).unwrap();
    assert_eq!(
        (f.fname.as_str(), f.name.as_str(), f.w, f.h, f.file_type.as_str(), f.mime.as_str()),
        ("/abs/a/x.jpg", "x.jpg", 4, 3, "jpg", "image/jpeg")
    );
    let g = file_info(source("a/y.png", encoded(image::ImageFormat::Png, 5, 2))).unwrap();
    assert_eq!((g.w, g.h, g.mime.as_str(), g.file_type.as_str()), (5, 2, "application/octet-stream", "jpg"));
    assert!(file_info(source("a/..", encoded(image::ImageFormat::Png, 1, 1))).is_none());
    assert!(file_info(source("a/z.jpg", b"not an image".to_vec())).is_none());
}

#[test]
fn file_format_is_guessed_from_the_content_first() {
    let mislabeled = file_info(source("a/p.jpg", encoded(image::ImageFormat::Png, 3, 7))).unwrap();
    assert_eq!((mislabeled.w, mislabeled.h, mislabeled.mime.as_str()), (3, 7, "application/octet-stream"));
    let unlabeled = file_info(source("a/photo", encoded(image::ImageFormat::Jpeg, 2, 2))).unwrap();
    assert_eq!(unlabeled.mime, "image/jpeg");
}

#[test]
fn listed_files_keep_order_and_drop_failures() {
    let out = list_files_with_info(vec![
        Some(source("1.jpg", encoded(image::ImageFormat::Jpeg, 2, 2))),
        None,
        Some(source("/", encoded(image::ImageFormat::Jpeg, 2, 2))),
        Some(source("bad.jpg", vec![1, 2, 3])),
        Some(source("2.jpg", encoded(image::ImageFormat::Jpeg, 2, 2))),
    ]);
    let names: Vec<&str> = out.iter().map(|f| f.name.as_str()).collect();
    assert_eq!(names, vec!["1.jpg", "2.jpg"]);
    let a = Album::new("summer", out);
    assert_eq!(a.name, "summer");
    assert_eq!(a.total(), 2);
}

#[test]
fn album_archive_stores_files_under_their_names() {
    let files = vec![
        ("/srv/summer/a.jpg".to_string(), b"first".to_vec()),
        ("/srv/summer/b.jpg".to_string(), b"second file".to_vec()),
    ];
    let bytes = album_archive(files).unwrap();
    let mut archive = zip::ZipArchive::new(std::io::Cursor::new(bytes.clone())).unwrap();
    assert_eq!(archive.len(), 2);
    let names: Vec<String> = archive.file_names().map(|n| n.to_string()).collect();
    assert!(names.contains(&"a.jpg".to_string()) && names.contains(&"b.jpg".to_string()));
    {
        let mut first = archive.by_index(0).unwrap();
        assert_eq!(first.name(), "a.jpg");
        assert_eq!(first.compression(), zip::CompressionMethod::Stored);
        let mut content = Vec::new();
        std::io::Read::read_to_end(&mut first, &mut content).unwrap();
        assert_eq!(content, b"first".to_vec());
    }
    let again = album_archive(vec![
        ("/srv/summer/a.jpg".to_string(), b"first".to_vec()),
        ("/srv/summer/b.jpg".to_string(), b"second file".to_vec()),
    ])
    .unwrap();
    assert_eq!(again, bytes);
    let duplicate = album_archive(vec![("x/a.jpg".to_string(), vec![1]), ("y/a.jpg".to_string(), vec![2])]);
    assert!(duplicate.is_none());
}

#[test]
fn extension_filter_is_not_lower_cased() {
    let lower = vec!["jpg".to_string()];
    let upper = vec!["JPG".to_string()];
    assert!(has_allowed_extension("/srv/summer/A.JPG", &lower));
    assert!(has_allowed_extension("/srv/summer/b.jpg", &lower));
    assert!(!has_allowed_extension("/srv/summer/A.JPG", &upper));
    assert!(!has_allowed_extension("/srv/summer/b.jpg", &upper));
}

#[test]
fn album_files() {
    assert_eq!(album_path("/srv", "summer"), "/srv/summer");
    assert_eq!(album_listing_dir("/srv", "summer"), "/srv/summer/");
    assert_eq!(karton_dir("/srv", "summer"), "/srv/summer/.karton/");
    assert_eq!(karton_cache_dir("/srv", "summer"), "/srv/summer/.karton/cache/");
    assert_eq!(index_file("/srv", "summer"), "/srv/summer/.karton/index.json");
    assert_eq!(index_file("/srv", "summer"), built_index_file("/srv", "summer"));
    assert_eq!(zip_file("/srv", "summer"), "/srv/summer/.karton/summer.zip");
}

#[test]
fn jpeg_detection_and_modes() {
    assert!(has_jpg_extension("/a/b.jpg"));
    assert!(has_jpg_extension("b.jpeg"));
    assert!(!has_jpg_extension("b.JPG"));
    assert!(!has_jpg_extension(".jpg"));
    let entries = vec!["/srv/summer/readme.txt".to_string(), "/srv/summer/a.jpg".to_string()];
    assert_eq!(check_if_base_contains_jpgs("/srv/summer", &entries), "summer");
    let none = vec!["/srv/x/readme.txt".to_string()];
    assert_eq!(check_if_base_contains_jpgs("/srv", &none), "");
    assert_eq!(base_for_mode("photos/summer", "/home/u/photos/summer", ""), "/home/u/photos/summer");
    assert_eq!(base_for_mode("photos/summer", "/home/u/photos/summer", "summer"), "photos");
    assert_eq!(base_for_mode(".", "/home/u", "u"), "");
}

fn cli(prefix: &str, extensions: &str) -> Cli {
    Cli {
        base: "/srv".to_string(),
        store: "/st".to_string(),
        extensions: extensions.to_string(),
        prefix: prefix.to_string(),
        command: Commands::Scan {},
    }
}

#[test]
fn app_state_settings() {
    let args = cli("/gallery//", "jpg,jpeg,,png");
    let st = AppState::new(&args, "/srv".to_string(), "".to_string(), Store::new("/st"), "s".to_string(), false, true);
    assert_eq!(st.prefix, "/gallery/");
    assert_eq!(st.filtered_extensions, vec!["jpg", "jpeg", "", "png"]);
    assert!(st.nested_under_prefix());
    assert!(matches!(st.home(), Home::Hello));
    let root = AppState::new(&cli("", "jpg"), "/srv".to_string(), "summer".to_string(), Store::new("/st"), "s".to_string(), true, false);
    assert_eq!(root.prefix, "/");
    assert!(!root.nested_under_prefix());
    match root.home() {
        Home::Redirect(to) => assert_eq!(to, "/a/summer"),
        Home::Hello => panic!("single album redirects"),
    }
}

#[test]
fn prefix_and_extension_laws_on_examples() {
    for p in ["", "/", "//", "a", "a/", "/a//b///"] {
        let once = normalize_prefix(p);
        assert_eq!(normalize_prefix(&once), once);
        assert!(once.ends_with('/') && !once.ends_with("//"));
    }
    for s in ["", ",", "jpg", "jpg,jpeg", ",a,,b,"] {
        let parts = split_extensions(s);
        assert_eq!(parts.join(","), s);
        assert!(parts.iter().all(|p| !p.contains(',')));
        assert_eq!(parts, s.split(',').collect::<Vec<_>>());
    }
}

#[test]
fn addresses() {
    assert_eq!(host_port("0.0.0.0", 5000), "0.0.0.0:5000");
    assert_eq!(host_port("localhost", 0), "localhost:0");
    assert_eq!(browser_url("localhost:5000"), "http://localhost:5000/");
    assert_eq!(stats_url("h", 80), "http://h:80/stats");
    assert_eq!(zip_disposition("summer"), "attachment; filename=\"summer.zip\"");
    assert_eq!(upload_file_name(Some("x.png")), "x.png");
    assert_eq!(upload_file_name(None), "uploaded.jpg");
    assert_eq!(upload_target("/srv", "summer", "x.png"), "/srv/summer/x.png");
}

#[test]
fn statistics() {
    let s = collect_stats(&vec![Some(3), None, Some(4)], 10, 20, 30, 40, Some((5, 6)));
    assert_eq!((s.albums_count, s.total_images, s.cache_size_bytes, s.server_uptime_seconds), (3, 7, 10, 20));
    assert_eq!((s.scaled_images_count, s.downloaded_zips_count, s.physical_mem, s.virtual_mem), (30, 40, 5, 6));
    let t = collect_stats(&vec![], 0, 0, 0, 0, None);
    assert_eq!((t.albums_count, t.total_images, t.physical_mem, t.virtual_mem), (0, 0, 0, 0));
}

#[test]
fn static_assets() {
    assert_eq!(guess_mime("css/site.css"), "text/css");
    assert_eq!(guess_mime("app.JS"), mime_guess::from_path("app.JS").first_or_octet_stream().as_ref());
    assert_eq!(guess_mime("README"), "application/octet-stream");
    assert_eq!(guess_mime("x."), "application/octet-stream");
    match StaticFile("index.html".to_string()).into_reply(Some(vec![1, 2])) {
        StaticReply::Found { mime, data } => {
            assert_eq!(mime, "text/html");
            assert_eq!(data, vec![1, 2]);
        },
        StaticReply::NotFound => panic!("embedded"),
    }
    assert!(matches!(StaticFile("nope.txt".to_string()).into_reply(None), StaticReply::NotFound));
}

fn png_header(w: u32, h: u32) -> Vec<u8> {
    let mut v = vec![0x89, b'P', b'N', b'G', 0x0d, 0x0a, 0x1a, 0x0a, 0, 0, 0, 13, b'I', b'H', b'D', b'R'];
    v.extend_from_slice(&w.to_be_bytes());
    v.extend_from_slice(&h.to_be_bytes());
    v.extend_from_slice(&[8, 2, 0, 0, 0]);
    v
}

#[test]
fn image_sizes_and_types() {
    assert_eq!(get_image_size(&png_header(123, 321)), (123, 321));
    assert_eq!(get_image_size(&[0u8; 11]), (0, 0));
    assert_eq!(get_image_size(b"definitely not an image"), (0, 0));
    let jpeg = [0xFF, 0xD8, 0xFF, 0xAA];
    assert_eq!(get_mime_type(&jpeg), ("image/jpeg".to_string(), "jpg".to_string()));
    assert_eq!(get_mime_type(b"plain"), ("application/octetstream".to_string(), "".to_string()));
    assert_eq!(get_mime_type_and_is_image(&jpeg), ("image/jpeg".to_string(), "jpg".to_string(), true));
    let pdf = b"%PDF-1.4 xxxxxxxx";
    let (m, _, is_image) = get_mime_type_and_is_image(pdf);
    assert_eq!(m, "application/pdf");
    assert!(!is_image);
    assert!(matches!(file_kind(&jpeg, (7, 8)), EntryKind::Image { w: 7, h: 8, .. }));
    assert!(matches!(file_kind(pdf, (7, 8)), EntryKind::Other { .. }));
}

#[test]
fn directory_entries() {
    let allowed = vec!["jpg".to_string(), "png".to_string()];
    assert!(keep_entry("/a/b.JPG", Some(&allowed)));
    assert!(!keep_entry("/a/b.gif", Some(&allowed)));
    assert!(!keep_entry("/a/.hidden.jpg", Some(&allowed)));
    assert!(keep_entry("/a/dir", None));
    assert!(!keep_entry("/a/dir", Some(&allowed)));
    assert!(!keep_entry("/", None));
    let jpeg = vec![0xFF, 0xD8, 0xFF, 0xAA];
    let raw = |path: &str, is_dir: bool, head: Vec<u8>, size: (usize, usize)| RawEntry {
        path: path.to_string(),
        is_dir,
        head,
        size,
    };
    let entries = || {
        vec![
            raw("/p/a", true, vec![], (0, 0)),
            raw("/p/.karton", true, vec![], (0, 0)),
            raw("/p/b.jpg", false, jpeg.clone(), (1, 2)),
            raw("/p/.c.jpg", false, jpeg.clone(), (3, 4)),
            raw("/p/c.txt", false, b"plain".to_vec(), (0, 0)),
            raw("/p/e.pdf", false, b"%PDF-1.4 xxxxxxxx".to_vec(), (0, 0)),
            raw("/p/d", true, vec![], (0, 0)),
        ]
    };
    let (images, files, dirs) = list_images_dirs_files(entries(), None);
    assert_eq!(images.len(), 1);
    assert_eq!(
        (images[0].path.as_str(), images[0].mime.as_str(), images[0].w, images[0].h),
        ("/p/b.jpg", "image/jpeg", 1, 2)
    );
    let f: Vec<(&str, &str)> = files.iter().map(|x| (x.path.as_str(), x.mime.as_str())).collect();
    assert_eq!(f, vec![("/p/c.txt", "application/octetstream"), ("/p/e.pdf", "application/pdf")]);
    assert_eq!(dirs, vec!["/p/a", "/p/d"]);
    let (images, files, dirs) = list_images_dirs_files(entries(), Some(&allowed));
    assert_eq!(images.len(), 1);
    assert!(files.is_empty());
    assert!(dirs.is_empty());
}

#[test]
fn browsing() {
    assert_eq!(browse_target("/srv", None), "/srv/");
    assert_eq!(browse_target("/srv", Some("x/y")), "/srv/x/y");
    let page = DirPage::new("/srv", Some("x/y"), Vec::<ImageInfo>::new(), vec!["z".to_string()]);
    assert_eq!((page.source.as_str(), page.name.as_str(), page.path.as_str()), ("", "y", "x/y"));
    let top = DirPage::new("/srv", None, Vec::new(), Vec::new());
    assert_eq!((top.name.as_str(), top.path.as_str()), ("srv", ""));
    assert_eq!(subdir_path("/srv", None), "/srv");
    assert_eq!(subdir_path("/srv", Some("a")), "/srv/a");
    let g = Greeting::new("Hello", "ann".to_string(), 3);
    assert_eq!((g.greeting.as_str(), g.visitor.as_str(), g.visits), ("Hello", "ann", 3));
}
