use eruption::path::FilePath;
use eruption::profiles::{bytes_in_order, enumerate_profiles, Profile};
use eruption::text::decimal_text;
use eruption::util::{
    edit_file, enumerate_scripts, get_manifest_for, get_profile_dirs, get_script_dirs,
    match_profile_path, match_script_file, match_script_path, DirSettings, ManifestError,
    ScriptFileError, UtilError,
};
use std::cell::RefCell;

fn settings(profiles: Option<Vec<&str>>, scripts: Option<Vec<&str>>) -> DirSettings {
    let own = |dirs: Option<Vec<&str>>| -> Option<Vec<String>> {
        dirs.map(|dirs| dirs.iter().map(|dir| dir.to_string()).collect())
    };
    DirSettings {
        profile_dirs: own(profiles),
        script_dirs: own(scripts),
        default_profile_dir: "/default/profiles".to_string(),
        default_script_dir: "/default/scripts".to_string(),
    }
}

fn texts(paths: Vec<FilePath>) -> Vec<String> {
    paths.iter().map(|path| path.display()).collect()
}

fn paths(texts: &[&str]) -> Vec<FilePath> {
    texts.iter().map(|text| FilePath::from_text(text)).collect()
}

#[test]
fn configured_directories_are_used_in_order() {
    let settings = settings(Some(vec!["/b", "/a"]), Some(vec!["relative"]));
    assert_eq!(texts(get_profile_dirs(&settings)), vec!["/b", "/a"]);
    assert_eq!(texts(get_script_dirs(&settings)), vec!["relative"]);
}

#[test]
fn directories_fall_back_to_the_defaults() {
    let settings = settings(None, Some(vec![]));
    assert_eq!(texts(get_profile_dirs(&settings)), vec!["/default/profiles"]);
    assert_eq!(texts(get_script_dirs(&settings)), vec!["/default/scripts"]);
}

#[test]
fn manifests_stand_beside_their_scripts() {
    for (script, manifest) in [
        ("/scripts/rainbow.lua", "/scripts/rainbow.lua.manifest"),
        ("rainbow.lua", "rainbow.lua.manifest"),
        ("rainbow.lua/", "rainbow.lua.manifest"),
        ("rainbow", "rainbow.lua.manifest"),
        ("a.b.lua", "a.b.lua.manifest"),
        (".lua", ".lua.lua.manifest"),
        ("/", "/"),
        ("..", ".."),
    ] {
        assert_eq!(get_manifest_for(&FilePath::from_text(script)).display(), manifest);
    }
}

#[test]
fn manifests_lead_back_to_their_scripts() {
    for script in ["/scripts/rainbow.lua", "rainbow.lua", "a.b.lua", "rainbow.lua/", "a//b.lua/."] {
        let script = FilePath::from_text(script);
        let back = get_manifest_for(&script).with_extension("");
        assert!(back.components().same(&script.components()));
    }
    let one = get_manifest_for(&FilePath::from_text("/a/x.lua"));
    for other in ["/b/x.lua", "/a/y.lua", "a/x.lua", "/a/x.lua.lua"] {
        let other = get_manifest_for(&FilePath::from_text(other));
        assert!(!one.components().same(&other.components()));
    }
}

#[test]
fn scripts_are_listed_as_they_were_found() {
    let found: Result<Vec<u8>, String> = Ok(vec![3, 1, 2]);
    assert_eq!(enumerate_scripts(found), Ok(vec![3, 1, 2]));
    let failed: Result<Vec<u8>, String> = Err("unreadable".to_string());
    assert_eq!(enumerate_scripts(failed), Err("unreadable".to_string()));
}

fn base() -> FilePath {
    FilePath::from_text("/home/user")
}

#[test]
fn script_files_are_found_by_their_absolute_path() {
    let listed: Result<Vec<FilePath>, String> = Ok(paths(&["/x/one.lua", "x.lua", "s/y.lua"]));
    let found = match_script_file(&FilePath::from_text("x.lua"), listed, &base()).unwrap();
    assert_eq!(found.display(), "/home/user/x.lua");
    assert!(found.components().absolute);
    let listed: Result<Vec<FilePath>, String> = Ok(paths(&["s/y.lua"]));
    let root = FilePath::from_text("/");
    let found = match_script_file(&FilePath::from_text("y.lua"), listed, &root).unwrap();
    assert_eq!(found.display(), "/s/y.lua");
}

#[test]
fn script_files_are_matched_by_name() {
    let listed = || -> Result<Vec<FilePath>, String> {
        Ok(paths(&["/x/one.lua", "/x/two.lua", "/y/two.lua"]))
    };
    let found = match_script_file(&FilePath::from_text("two.lua"), listed(), &base());
    assert_eq!(found.unwrap().display(), "/x/two.lua");
    let found = match_script_file(&FilePath::from_text("two.lua/"), listed(), &base());
    assert_eq!(found.unwrap().display(), "/x/two.lua");
    for missing in ["three.lua", "./two.lua", "x/two.lua", "/two.lua", ""] {
        let found = match_script_file(&FilePath::from_text(missing), listed(), &base());
        assert!(matches!(
            found,
            Err(ScriptFileError::Manifest(ManifestError::ScriptEnumerationError))
        ));
    }
}

#[test]
fn a_path_without_a_name_goes_by_the_empty_path() {
    let listed: Result<Vec<FilePath>, String> = Ok(paths(&["/x/one.lua", "/x/.."]));
    let found = match_script_file(&FilePath::from_text(""), listed, &base());
    assert_eq!(found.unwrap().display(), "/x/..");
}

#[test]
fn errors_of_the_script_list_are_passed_on() {
    let listed: Result<Vec<FilePath>, String> = Err("unreadable".to_string());
    match match_script_file(&FilePath::from_text("one.lua"), listed, &base()) {
        Err(ScriptFileError::Listing(error)) => assert_eq!(error, "unreadable"),
        other => panic!("{:?}", other),
    }
}

#[test]
fn files_are_found_in_the_first_directory_that_has_them() {
    let settings = settings(Some(vec!["/a", "/b", "/c"]), Some(vec!["/s"]));
    let probes: RefCell<Vec<String>> = RefCell::new(Vec::new());
    let found = match_profile_path(&FilePath::from_text("x.profile"), &settings, |path: &FilePath| {
        probes.borrow_mut().push(path.display());
        path.display() == "/b/x.profile" || path.display() == "/c/x.profile"
    });
    assert_eq!(found.unwrap().display(), "/b/x.profile");
    assert_eq!(*probes.borrow(), vec!["/a/x.profile", "/b/x.profile"]);
    let found = match_script_path(&FilePath::from_text("x.lua"), &settings, |path: &FilePath| {
        path.display() == "/s/x.lua"
    });
    assert_eq!(found.unwrap().display(), "/s/x.lua");
}

#[test]
fn missing_files_are_reported() {
    let settings = settings(Some(vec!["/a", "/b"]), None);
    let probes: RefCell<Vec<String>> = RefCell::new(Vec::new());
    let result = match_profile_path(&FilePath::from_text("x.profile"), &settings, |path: &FilePath| {
        probes.borrow_mut().push(path.display());
        false
    });
    assert_eq!(*probes.borrow(), vec!["/a/x.profile", "/b/x.profile"]);
    let error = result.unwrap_err();
    assert_eq!(
        error.message(),
        "File not found: Could not find file in search path(s): x.profile"
    );
    let UtilError::FileNotFound { description } = error;
    assert_eq!(description, "Could not find file in search path(s): x.profile");
    let result = match_script_path(
        &FilePath { bytes: vec![b'x', 0xc3] },
        &settings,
        |_path: &FilePath| false,
    );
    let UtilError::FileNotFound { description } = result.unwrap_err();
    assert_eq!(description, "Could not find file in search path(s): x\u{fffd}");
}

#[test]
fn absolute_files_are_looked_up_as_they_are() {
    let settings = settings(Some(vec!["/a", "/b"]), None);
    let found = match_profile_path(&FilePath::from_text("/z/x.profile"), &settings, |path: &FilePath| {
        path.display() == "/z/x.profile"
    });
    assert_eq!(found.unwrap().display(), "/z/x.profile");
}

#[test]
fn files_are_edited_with_the_editor_of_the_user() {
    let command = edit_file(&FilePath::from_text("/a/b"), Some("vi".to_string()));
    assert_eq!(command.announcement, "Editing: /a/b");
    assert_eq!(command.program, "vi");
    assert_eq!(command.argument, "/a/b");
    let command = edit_file(&FilePath { bytes: vec![0xff] }, None);
    assert_eq!(command.announcement, "Editing: \u{fffd}");
    assert_eq!(command.program, "/usr/bin/nano");
    assert_eq!(command.argument, "\u{fffd}");
}

fn profile(name: &str, content: u32) -> Profile<u32> {
    Profile { name: name.to_string(), content }
}

#[test]
fn profiles_are_sorted_by_name() {
    let names = ["solid", "", "Solid", "\u{e9}t\u{e9}", "sol", "zebra", "\u{1f600}", "solid"];
    let found: Result<Vec<Profile<u32>>, String> =
        Ok(names.iter().enumerate().map(|(i, name)| profile(name, i as u32)).collect());
    let list = enumerate_profiles(found).unwrap();
    let mut expected: Vec<(String, u32)> =
        names.iter().enumerate().map(|(i, name)| (name.to_string(), i as u32)).collect();
    expected.sort_by(|lhs, rhs| lhs.0.cmp(&rhs.0));
    let sorted: Vec<(String, u32)> =
        list.into_iter().map(|profile| (profile.name, profile.content)).collect();
    assert_eq!(sorted, expected);
}

#[test]
fn profiles_of_one_name_keep_their_order() {
    let found: Result<Vec<Profile<u32>>, String> =
        Ok(vec![profile("b", 1), profile("a", 2), profile("b", 3), profile("a", 4)]);
    let list = enumerate_profiles(found).unwrap();
    let contents: Vec<u32> = list.iter().map(|profile| profile.content).collect();
    assert_eq!(contents, vec![2, 4, 1, 3]);
}

#[test]
fn errors_of_the_profile_list_are_passed_on() {
    let found: Result<Vec<Profile<u32>>, String> = Err("unreadable".to_string());
    assert_eq!(enumerate_profiles(found).unwrap_err(), "unreadable");
    let none: Result<Vec<Profile<u32>>, String> = Ok(vec![]);
    assert_eq!(enumerate_profiles(none).unwrap().len(), 0);
}

#[test]
fn byte_strings_are_ordered() {
    let strings: [&[u8]; 5] = [b"", b"a", b"ab", b"b", b"\xff"];
    for (i, one) in strings.iter().enumerate() {
        for (j, other) in strings.iter().enumerate() {
            assert_eq!(bytes_in_order(one, other), i <= j);
        }
    }
}

#[test]
fn numbers_are_written_in_decimal() {
    for n in [0usize, 1, 9, 10, 11, 99, 100, 1234567890, usize::MAX] {
        assert_eq!(decimal_text(n), n.to_string());
    }
}
