use perl_wrapper::FilePath;
use std::path::Path;

const SAMPLES: [&str; 24] = [
    "", ".", "./", "./.", "..", "/", "//", "/.", "a", "a/", "a//", "a/.", "./a", "././a", "/a",
    "//a", "/./a", "a/b", "a//b", "a/./b", "a/../b", "a/b/", "/a/b", ".a",
];

#[test]
fn paths_are_the_same_exactly_when_std_says_so() {
    for a in SAMPLES {
        for b in SAMPLES {
            assert_eq!(
                FilePath::new(a) == FilePath::new(b),
                Path::new(a) == Path::new(b),
                "{a:?} {b:?}"
            );
        }
    }
}

#[test]
fn paths_are_joined_as_std_joins_them() {
    for a in SAMPLES {
        for b in SAMPLES {
            let joined = FilePath::new(a).join(&FilePath::new(b));
            let expected = Path::new(a).join(b);
            assert_eq!(joined.bytes, expected.to_str().unwrap().as_bytes(), "{a:?} {b:?}");
        }
    }
}

#[test]
fn bytes_are_kept_as_written() {
    let path = FilePath::from_bytes(vec![0xff, 0x2f, 0x00]);
    assert_eq!(path.clone().bytes, [0xff, 0x2f, 0x00]);
    assert!(path.is_same_path(&FilePath::from_bytes(vec![0xff, 0x2f, 0x2f, 0x00])));
    assert!(!path.is_same_path(&FilePath::from_bytes(vec![0xfe, 0x2f, 0x00])));
    assert!(!path.is_empty());
    assert!(FilePath::new("").is_empty());
    assert_eq!(FilePath::new("\u{e9}").bytes, [0xc3, 0xa9]);
}
