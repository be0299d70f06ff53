use karton::album_image::{get_size, image_source_path, size_for_label, Size, Sizes};
use karton::auth::{gen_secret, get_or_create_admin_secret, secret_file_path, secret_from_bytes, AdminSecret};
use karton::store::{id, ImageFile, Store};
use base64::Engine;

#[test]
fn sizes() {
    let b = get_size(Sizes::Big);
    assert_eq!((b.0, b.1), (1000, 800));
    let s = get_size(Sizes::Small);
    assert_eq!((s.0, s.1), (600, 600));
    let l = size_for_label("big");
    assert_eq!((l.0, l.1), (1000, 800));
    let l = size_for_label("small");
    assert_eq!((l.0, l.1), (600, 600));
    let l = size_for_label("BIG");
    assert_eq!((l.0, l.1), (600, 600));
}

#[test]
fn image_source() {
    assert_eq!(image_source_path("/srv", "summer", "a.jpg"), "/srv/summer/a.jpg");
}

#[test]
fn album_id_is_md5_hex_and_name() {
    assert_eq!(id("a"), "0cc175b9c0f1b6a831c399e269772661-a");
    let p = "/photos/2024 summer";
    assert_eq!(id(p), format!("{:x}-2024 summer", md5::compute(p)));
}

#[test]
fn store_paths() {
    let s = Store::new("/home/u/.karton");
    assert_eq!(s.base_path, "/home/u/.karton");
    assert_eq!(s.cache_path, "/home/u/.karton/cache");
    let s2 = Store::new("/home/u/.karton/");
    assert_eq!(s2.cache_path, "/home/u/.karton/cache");
    assert_eq!(s.admin_secret_path(), "/home/u/.karton/.admin_secret");
    assert_eq!(
        s.album_index_path("/srv/summer"),
        format!("/home/u/.karton/{:x}-summer.json", md5::compute("/srv/summer"))
    );
    assert_eq!(
        s.get_image_cache_path("/srv/summer", "a.jpg", Size(1000, 800)),
        format!("/home/u/.karton/cache/{:x}-summer-a.jpg__1000x800.jpg", md5::compute("/srv/summer"))
    );
}

#[test]
fn cached_image_lookup() {
    let s = Store::new("st");
    let expected = s.get_image_cache_path("/srv/x", "i.jpg", Size(600, 600));
    match s.image_exists_in_cache("/srv/x", "i.jpg", Size(600, 600), |p: &String| p.ends_with("600x600.jpg")) {
        ImageFile::Found { path } => assert_eq!(path, expected),
        ImageFile::NotFound { .. } => panic!("should be found"),
    }
    match s.image_exists_in_cache("/srv/x", "i.jpg", Size(600, 600), |_p: &String| false) {
        ImageFile::NotFound { path } => assert_eq!(path, expected),
        ImageFile::Found { .. } => panic!("should not be found"),
    }
}

#[test]
fn secret_text_of_bytes() {
    // Standard Base64 of these bytes is "+/8=".
    assert_eq!(secret_from_bytes(&[0xfb, 0xff]), "-_8");
    assert_eq!(secret_from_bytes(&[]), "");
    assert_eq!(secret_from_bytes(b"hello"), "aGVsbG8");
    let bytes = [0xffu8; 13];
    let std = base64::engine::general_purpose::STANDARD.encode(bytes);
    assert_eq!(secret_from_bytes(&bytes), std.trim_end_matches('=').replace('+', "-").replace('/', "_"));
}

#[test]
fn fresh_secrets_are_url_safe() {
    for n in [0usize, 1, 2, 3, 13, 64] {
        let s = gen_secret(n);
        assert_eq!(s.len(), (4 * n + 2) / 3);
        assert!(!s.contains('+') && !s.contains('/') && !s.ends_with('='));
    }
    assert_ne!(gen_secret(64), gen_secret(64));
}

#[test]
fn admin_secret_kept_or_created() {
    match get_or_create_admin_secret(Some("kept".to_string())) {
        AdminSecret::Stored(s) => assert_eq!(s, "kept"),
        AdminSecret::Created(_) => panic!("a stored secret is kept"),
    }
    match get_or_create_admin_secret(None) {
        AdminSecret::Created(s) => {
            assert_eq!(s.len(), 18);
            assert!(s.chars().all(|c| c.is_ascii_alphanumeric() || c == '-' || c == '_'));
        },
        AdminSecret::Stored(_) => panic!("a new secret is made"),
    }
    assert_eq!(AdminSecret::Stored("x".to_string()).secret(), "x");
}

#[test]
fn login_file_path() {
    assert_eq!(secret_file_path("/var/k", "anna", "abc"), "/var/k/anna/.secret.abc");
}

#[test]
fn distinct_albums_and_sizes_get_distinct_cache_files() {
    let s = Store::new("/st");
    let a = s.get_image_cache_path("/x/trip", "1.jpg", Size(1000, 800));
    let b = s.get_image_cache_path("/y/trip", "1.jpg", Size(1000, 800));
    let c = s.get_image_cache_path("/x/trip", "1.jpg", Size(600, 600));
    assert_ne!(a, b);
    assert_ne!(a, c);
    assert!(a.starts_with("/st/cache/") && b.starts_with("/st/cache/"));
}
