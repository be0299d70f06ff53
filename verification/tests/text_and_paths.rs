use karton::path::{extension, file_name, join, parent};
use karton::text::{concat_str, decimal_string, str_eq, to_hex_lower, to_lowercase};

const SAMPLES: &[&str] = &[
    "", "/", "//", ".", "..", "./", "../", "a", "a/", "a//", "/a", "/a/", "a/b", "a/b/", "a/./b",
    "a/b/.", "a/b/..", "./a", "./.", "../a", "a/../b", "/a/b/c.txt", "c.tar.gz", ".bashrc", "a/.bashrc",
    "a.", "x/..", "/.", "//a//b//", "a/./", ".a.b", "...", "dir/file.JPG", "./a/", "/..", "a/.b.", "./a/b/", "a/../", "/a/./", ".//a", "a/.//", "././a", "./..", "a/b/c/", "/a/b/..",
];


#[test]
fn file_name_matches_std_path() {
    for s in SAMPLES {
        assert_eq!(file_name(s), std::path::Path::new(s).file_name().map(|x| x.to_str().unwrap().to_string()), "file_name of {:?}", s);
    }
}

#[test]
fn parent_matches_std_path() {
    for s in SAMPLES {
        let expected = std::path::Path::new(s).parent().map(|p| p.to_str().unwrap().to_string());
        assert_eq!(parent(s), expected, "parent of {:?}", s);
    }
}

#[test]
fn extension_matches_std_path() {
    for s in SAMPLES {
        assert_eq!(extension(s), std::path::Path::new(s).extension().map(|x| x.to_str().unwrap().to_string()), "extension of {:?}", s);
    }
}

#[test]
fn join_matches_std_path() {
    for a in SAMPLES {
        for b in SAMPLES {
            let expected = std::path::PathBuf::from(a).join(b).to_str().unwrap().to_string();
            assert_eq!(join(a, b), expected, "join of {:?} and {:?}", a, b);
        }
    }
}

#[test]
fn joined_plain_name_is_the_file_name_and_base_the_parent() {
    for base in ["/srv/photos", "photos", ".", "/", "a/b"] {
        for name in ["summer", ".karton", "x.jpg", "..."] {
            let j = join(base, name);
            assert_eq!(file_name(&j), Some(name.to_string()));
            assert_eq!(parent(&j), Some(base.to_string()));
        }
    }
}

#[test]
fn decimal_rendering() {
    assert_eq!(decimal_string(0), "0");
    assert_eq!(decimal_string(7), "7");
    assert_eq!(decimal_string(10), "10");
    assert_eq!(decimal_string(1234567890), "1234567890");
    assert_eq!(decimal_string(u64::MAX), u64::MAX.to_string());
}

#[test]
fn hex_rendering() {
    let v: String = to_hex_lower(&[0x00, 0x0f, 0xa0, 0xff]).into_iter().collect();
    assert_eq!(v, "000fa0ff");
    let e: String = to_hex_lower(&[]).into_iter().collect();
    assert_eq!(e, "");
}

#[test]
fn string_helpers() {
    assert_eq!(concat_str("ab", "cd"), "abcd");
    assert!(str_eq("äb", "äb"));
    assert!(!str_eq("ab", "abc"));
    assert_eq!(to_lowercase("JPG"), "jpg");
    assert_eq!(to_lowercase("ÄÖ"), "äö");
}
