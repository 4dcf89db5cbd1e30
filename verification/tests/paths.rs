use eruption::path::{same_bytes, FilePath};
use std::path::{Path, PathBuf};

const PATHS: [&str; 34] = [
    "",
    "/",
    "//",
    ".",
    "..",
    "./",
    "/.",
    "/..",
    "./.",
    "a",
    "a/",
    "a/.",
    "a/./",
    "a//./",
    "a/..",
    "a/../b",
    "./a",
    "/a",
    "/a/b",
    "//a//b//",
    "a/b.lua",
    "a/b.lua/",
    "a/b.lua/.",
    "/usr/share/scripts/rainbow.lua",
    ".hidden",
    "dir/.hidden",
    "dir/.hidden.lua",
    "dir.d/file",
    "two.dots.lua",
    "trailing.",
    "...",
    "..a",
    "a/.b/..",
    "gr\u{fc}n/\u{65e5}\u{672c}.lua",
];

fn text(path: &FilePath) -> String {
    String::from_utf8(path.bytes.clone()).unwrap()
}

#[test]
fn joins_like_the_standard_library() {
    for directory in PATHS {
        for path in PATHS {
            let expected = Path::new(directory).join(path);
            let joined = FilePath::from_text(directory).join(&FilePath::from_text(path));
            assert_eq!(text(&joined), expected.to_str().unwrap());
        }
    }
}

#[test]
fn file_names_like_the_standard_library() {
    for path in PATHS {
        let expected = Path::new(path).file_name().map(|name| name.to_str().unwrap().as_bytes().to_vec());
        assert_eq!(FilePath::from_text(path).file_name(), expected, "{}", path);
    }
}

#[test]
fn extensions_like_the_standard_library() {
    for path in PATHS {
        for extension in ["lua.manifest", "x", ""] {
            let mut expected = PathBuf::from(path);
            expected.set_extension(extension);
            let changed = FilePath::from_text(path).with_extension(extension);
            assert_eq!(text(&changed), expected.to_str().unwrap(), "{}", path);
        }
    }
}

#[test]
fn compares_components_like_the_standard_library() {
    for one in PATHS {
        for other in PATHS {
            let same = FilePath::from_text(one)
                .components()
                .same(&FilePath::from_text(other).components());
            assert_eq!(same, Path::new(one) == Path::new(other), "{} {}", one, other);
        }
    }
}

#[test]
fn splits_a_path_into_components() {
    let components = FilePath::from_text("/usr//share/./x/").components();
    assert!(components.absolute);
    assert_eq!(components.names, vec![b"usr".to_vec(), b"share".to_vec(), b"x".to_vec()]);
    let components = FilePath::from_text("./a/..").components();
    assert!(!components.absolute);
    assert_eq!(components.names, vec![b".".to_vec(), b"a".to_vec(), b"..".to_vec()]);
}

#[test]
fn the_file_name_is_the_last_component() {
    let path = FilePath::from_text("/usr/share/x.lua/.");
    assert_eq!(path.file_name(), path.components().names.last().cloned());
    assert_eq!(FilePath::from_text("a/..").file_name(), None);
    assert_eq!(FilePath::from_text("/").file_name(), None);
}

#[test]
fn joining_keeps_the_components_of_both() {
    let joined = FilePath::from_text("/a/b").join(&FilePath::from_text("c/d"));
    assert_eq!(text(&joined), "/a/b/c/d");
    let absolute = FilePath::from_text("/a/b").join(&FilePath::from_text("/c"));
    assert_eq!(text(&absolute), "/c");
    let dotted = FilePath::from_text("a").join(&FilePath::from_text("./b"));
    assert_eq!(dotted.components().names, vec![b"a".to_vec(), b"b".to_vec()]);
}

#[test]
fn shows_bytes_that_are_not_text() {
    let path = FilePath { bytes: vec![b'a', 0xff, b'b'] };
    assert_eq!(path.display(), "a\u{fffd}b");
    assert_eq!(FilePath::from_text("gr\u{fc}n").display(), "gr\u{fc}n");
}

#[test]
fn compares_bytes() {
    assert!(same_bytes(b"abc", b"abc"));
    assert!(!same_bytes(b"abc", b"abd"));
    assert!(!same_bytes(b"abc", b"ab"));
    assert_eq!(FilePath::from_text("abc").duplicate().bytes, b"abc".to_vec());
}
