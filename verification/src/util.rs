//! Where profiles and scripts are found, and what belongs to them.

use vstd::prelude::*;
use vstd::utf8::{encode_utf8, is_ascii_chars_encode_utf8};
use crate::path::{
    components, file_name, file_stem, joined, last_dot, law_join_is_absolute,
    law_extension_is_added, law_extension_is_replaced, law_file_name_is_last_component,
    law_file_name_is_plain, law_join_adds_one_separator,
    law_name_is_its_component, law_separator_joins_components, law_text_extends_last_component,
    law_trimming_keeps_components, lemma_last_dot_append,
    lemma_name_start_append, lemma_name_start_bound, lossy_text, name_start, trimmed,
    with_extension, FilePath, DOT, SLASH,
};

verus! {

/// What can go wrong with a file.
#[derive(Debug)]
pub enum UtilError {
    FileNotFound { description: String },
}

/// What can go wrong with the list of scripts.
#[derive(Debug, Clone, Copy, PartialEq, Eq, Structural)]
pub enum ManifestError {
    ScriptEnumerationError,
}

/// The directories that are searched: those that the configuration lists, if it could be
/// read and lists any, and those to fall back to.
#[derive(Debug)]
pub struct DirSettings {
    /// The value of `global.profile_dirs`.
    pub profile_dirs: Option<Vec<String>>,
    /// The value of `global.script_dirs`.
    pub script_dirs: Option<Vec<String>>,
    pub default_profile_dir: String,
    pub default_script_dir: String,
}

/// The bytes of a list of paths.
pub open spec fn path_bytes(paths: Seq<FilePath>) -> Seq<Seq<u8>> {
    paths.map_values(|path: FilePath| path@)
}

/// The paths that a list of texts spells.
pub open spec fn spelled(texts: Seq<String>) -> Seq<Seq<u8>> {
    texts.map_values(|text: String| encode_utf8(text@))
}

/// The directories to search: those that are configured, in their order, or else the one to
/// fall back to.
pub open spec fn search_dirs(configured: Option<Vec<String>>, fallback: String) -> Seq<Seq<u8>> {
    match configured {
        Some(dirs) => if dirs@.len() == 0 {
            seq![encode_utf8(fallback@)]
        } else {
            spelled(dirs@)
        },
        None => seq![encode_utf8(fallback@)],
    }
}

fn resolve_dirs(configured: &Option<Vec<String>>, fallback: &String) -> (dirs: Vec<FilePath>)
    ensures
        path_bytes(dirs@) == search_dirs(*configured, *fallback),
{
    let mut result: Vec<FilePath> = Vec::new();
    if let Some(texts) = configured {
        let mut i: usize = 0;
        while i < texts.len()
            invariant
                i <= texts@.len(),
                result@.len() == i,
                forall|j: int| 0 <= j < i ==> result@[j]@ == encode_utf8(texts@[j]@),
            decreases texts@.len() - i,
        {
            result.push(FilePath::from_text(texts[i].as_str()));
            i += 1;
        }
        assert(path_bytes(result@) =~= spelled(texts@));
    }
    if result.is_empty() {
        result.push(FilePath::from_text(fallback.as_str()));
        assert(path_bytes(result@) =~= seq![encode_utf8(fallback@)]);
    }
    result
}

/// The directories that are searched for profiles.
pub fn get_profile_dirs(settings: &DirSettings) -> (dirs: Vec<FilePath>)
    ensures
        path_bytes(dirs@) == search_dirs(settings.profile_dirs, settings.default_profile_dir),
{
    resolve_dirs(&settings.profile_dirs, &settings.default_profile_dir)
}

/// The directories that are searched for scripts.
pub fn get_script_dirs(settings: &DirSettings) -> (dirs: Vec<FilePath>)
    ensures
        path_bytes(dirs@) == search_dirs(settings.script_dirs, settings.default_script_dir),
{
    resolve_dirs(&settings.script_dirs, &settings.default_script_dir)
}

/// There is always a directory to search.
pub proof fn law_search_dirs_never_empty(configured: Option<Vec<String>>, fallback: String)
    ensures
        search_dirs(configured, fallback).len() > 0,
{
}

/// Lists the manifests of all scripts, as they were found, or passes on why they could not be
/// listed.
pub fn enumerate_scripts<M, E>(scripts: Result<Vec<M>, E>) -> (result: Result<Vec<M>, E>)
    ensures
        result == scripts,
{
    scripts
}

/// Is `script` the file name of a path? Both count as paths of their own, so that a
/// separator behind `script` makes no difference. A path without a file name goes by the
/// empty path.
pub open spec fn is_script(path: Seq<u8>, script: Seq<u8>) -> bool {
    match file_name(path) {
        Some(name) => components(name) == components(script),
        None => components(Seq::<u8>::empty()) == components(script),
    }
}

/// The position of the first script with the given file name.
pub open spec fn first_script(paths: Seq<FilePath>, script: Seq<u8>) -> Option<int>
    decreases paths.len(),
{
    if paths.len() == 0 {
        None
    } else {
        match first_script(paths.drop_last(), script) {
            Some(position) => Some(position),
            None => if is_script(paths.last()@, script) {
                Some(paths.len() - 1)
            } else {
                None
            },
        }
    }
}

/// Returns the absolute path of a script file, out of the scripts that were found. A path in
/// that list counts from the working directory `base`. Where the scripts could not be listed,
/// that error is passed on.
pub fn match_script_file<E>(
    script: &FilePath,
    scripts: Result<Vec<FilePath>, E>,
    base: &FilePath,
) -> (result: Result<FilePath, ScriptFileError<E>>)
    ensures
        (match scripts {
            Err(error) => result == Err::<FilePath, _>(ScriptFileError::Listing(error)),
            Ok(paths) => match first_script(paths@, script@) {
                Some(position) => result matches Ok(path) && path@ == joined(
                    base@,
                    paths@[position]@,
                ),
                None => result == Err::<FilePath, ScriptFileError<E>>(
                    ScriptFileError::Manifest(ManifestError::ScriptEnumerationError),
                ),
            },
        }),
        components(base@).0 ==> (result matches Ok(path) ==> components(path@).0),
{
    let paths = match scripts {
        Err(error) => {
            return Err(ScriptFileError::Listing(error));
        },
        Ok(paths) => paths,
    };
    let wanted = script.components();
    let mut i: usize = 0;
    while i < paths.len()
        invariant
            i <= paths@.len(),
            scripts == Ok::<Vec<FilePath>, E>(paths),
            wanted@ == components(script@),
            first_script(paths@.take(i as int), script@) is None,
        decreases paths@.len() - i,
    {
        let name = match paths[i].file_name() {
            Some(name) => FilePath { bytes: name },
            None => FilePath { bytes: Vec::new() },
        };
        let found = name.components().same(&wanted);
        proof {
            assert(name@ =~= Seq::<u8>::empty() || file_name(paths@[i as int]@) == Some(name@));
            assert(paths@.take(i + 1).drop_last() =~= paths@.take(i as int));
            assert(found == is_script(paths@[i as int]@, script@));
        }
        if found {
            proof {
                lemma_first_script_stays(paths@, script@, i + 1);
                law_join_is_absolute(base@, paths@[i as int]@);
            }
            return Ok(base.join(&paths[i]));
        }
        i += 1;
    }
    assert(paths@.take(i as int) =~= paths@);
    Err(ScriptFileError::Manifest(ManifestError::ScriptEnumerationError))
}

/// Why no script file is found.
#[derive(Debug)]
pub enum ScriptFileError<E> {
    /// The scripts could not be listed.
    Listing(E),
    Manifest(ManifestError),
}

/// A script that is found early is the first one in the whole list.
proof fn lemma_first_script_stays(paths: Seq<FilePath>, script: Seq<u8>, count: int)
    requires
        0 <= count <= paths.len(),
        first_script(paths.take(count), script) is Some,
    ensures
        first_script(paths, script) == first_script(paths.take(count), script),
    decreases paths.len() - count,
{
    if count == paths.len() {
        assert(paths.take(count) =~= paths);
    } else {
        assert(paths.take(count + 1).drop_last() =~= paths.take(count));
        lemma_first_script_stays(paths, script, count + 1);
    }
}

/// What the first script with a given file name is: no script before it has that name, and
/// where there is none, no script has it.
pub proof fn law_first_script(paths: Seq<FilePath>, script: Seq<u8>)
    ensures
        (match first_script(paths, script) {
            Some(position) => {
                &&& 0 <= position < paths.len()
                &&& is_script(paths[position]@, script)
                &&& forall|i: int| 0 <= i < position ==> !is_script((#[trigger] paths[i])@, script)
            },
            None => forall|i: int|
                0 <= i < paths.len() ==> !is_script((#[trigger] paths[i])@, script),
        }),
    decreases paths.len(),
{
    if paths.len() > 0 {
        let front = paths.drop_last();
        law_first_script(front, script);
        assert(forall|i: int| 0 <= i < front.len() ==> front[i] == #[trigger] paths[i]);
    }
}

/// The manifest that belongs to a script.
pub open spec fn manifest_path(script: Seq<u8>) -> Seq<u8> {
    with_extension(script, encode_utf8("lua.manifest"@))
}

/// The bytes of the extension of a manifest.
proof fn lemma_manifest_extension()
    ensures
        encode_utf8("lua.manifest"@) == seq![108u8, 117, 97, DOT] + encode_utf8("manifest"@),
        encode_utf8(".manifest"@) == seq![DOT] + encode_utf8("manifest"@),
        !encode_utf8("lua.manifest"@).contains(SLASH),
        !encode_utf8(".manifest"@).contains(SLASH),
        !encode_utf8("manifest"@).contains(DOT),
        encode_utf8("manifest"@).len() == 8,
        encode_utf8("manifest"@).last() == 116,
{
    reveal_strlit("lua.manifest");
    reveal_strlit(".manifest");
    reveal_strlit("manifest");
    is_ascii_chars_encode_utf8("lua.manifest"@);
    is_ascii_chars_encode_utf8(".manifest"@);
    is_ascii_chars_encode_utf8("manifest"@);
    assert(encode_utf8("lua.manifest"@) =~= seq![108u8, 117, 97, DOT] + encode_utf8("manifest"@));
    assert(encode_utf8(".manifest"@) =~= seq![DOT] + encode_utf8("manifest"@));
}

/// Returns the path of the manifest that belongs to the script `script_file`.
pub fn get_manifest_for(script_file: &FilePath) -> (manifest: FilePath)
    ensures
        manifest@ == manifest_path(script_file@),
{
    proof {
        lemma_manifest_extension();
    }
    script_file.with_extension("lua.manifest")
}

/// The manifest of a Lua script stands beside it: its path is that of the script with
/// `.manifest` behind it.
pub proof fn law_manifest_stands_beside_script(script: Seq<u8>, stem: Seq<u8>)
    requires
        stem.len() > 0,
        file_name(script) == Some(stem + seq![DOT, 108u8, 117, 97]),
    ensures
        manifest_path(script) == trimmed(script) + encode_utf8(".manifest"@),
{
    let path = trimmed(script);
    let start = name_start(path) as int;
    let name = path.skip(start);
    lemma_manifest_extension();
    lemma_name_start_bound(path);
    assert(path =~= path.take(start) + name);
    assert(name.drop_last() =~= stem + seq![DOT, 108u8, 117]);
    assert(name.drop_last().drop_last() =~= stem + seq![DOT, 108u8]);
    assert(name.drop_last().drop_last().drop_last() =~= stem + seq![DOT]);
    reveal_with_fuel(last_dot, 4);
    assert(last_dot(name) == stem.len());
    assert(file_stem(name) =~= stem);
    assert(manifest_path(script) =~= path + encode_utf8(".manifest"@));
}

/// Without its extension, the manifest of a Lua script is the path of the script.
pub proof fn law_manifest_leads_back(script: Seq<u8>, stem: Seq<u8>)
    requires
        stem.len() > 0,
        file_name(script) == Some(stem + seq![DOT, 108u8, 117, 97]),
    ensures
        with_extension(manifest_path(script), Seq::empty()) == trimmed(script),
        components(with_extension(manifest_path(script), Seq::empty())) == components(script),
{
    let path = trimmed(script);
    let start = name_start(path) as int;
    let name = path.skip(start);
    let ending = encode_utf8(".manifest"@);
    let word = encode_utf8("manifest"@);
    let manifest = path + ending;
    law_manifest_stands_beside_script(script, stem);
    lemma_manifest_extension();
    lemma_name_start_bound(path);
    lemma_name_start_append(path, ending);
    assert(manifest.last() == 116);
    assert(trimmed(manifest) == manifest);
    let long_name = manifest.skip(start);
    assert(long_name =~= name.push(DOT) + word);
    lemma_last_dot_append(name.push(DOT), word);
    assert(last_dot(long_name) == name.len());
    assert(file_name(manifest) == Some(long_name));
    assert(file_stem(long_name) =~= name);
    assert(with_extension(manifest, Seq::empty()) =~= path);
    law_trimming_keeps_components(script);
}

/// Two Lua scripts never share a manifest: if the paths of their manifests have the same
/// components, so do the paths of the scripts.
pub proof fn law_manifests_are_distinct(
    one: Seq<u8>,
    one_stem: Seq<u8>,
    other: Seq<u8>,
    other_stem: Seq<u8>,
)
    requires
        one_stem.len() > 0,
        file_name(one) == Some(one_stem + seq![DOT, 108u8, 117, 97]),
        other_stem.len() > 0,
        file_name(other) == Some(other_stem + seq![DOT, 108u8, 117, 97]),
        components(manifest_path(one)) == components(manifest_path(other)),
    ensures
        components(one) == components(other),
{
    let one_name = one_stem + seq![DOT, 108u8, 117, 97];
    let other_name = other_stem + seq![DOT, 108u8, 117, 97];
    let ending = encode_utf8(".manifest"@);
    lemma_manifest_components(one, one_stem);
    lemma_manifest_components(other, other_stem);
    let one_names = components(manifest_path(one)).1;
    assert(one_names.last() == one_name + ending);
    assert(one_names.last() == other_name + ending);
    assert((one_name + ending).take(one_name.len() as int) =~= one_name);
    assert((other_name + ending).take(other_name.len() as int) =~= other_name);
    let one_front = components(one).1.drop_last();
    let other_front = components(other).1.drop_last();
    assert(one_front.push(one_name + ending).drop_last() =~= one_front);
    assert(other_front.push(other_name + ending).drop_last() =~= other_front);
    assert(components(one).1 =~= one_front.push(one_name));
    assert(components(other).1 =~= other_front.push(other_name));
}

/// The components of the manifest of a Lua script are those of the script, but for the last
/// one, which is longer.
proof fn lemma_manifest_components(script: Seq<u8>, stem: Seq<u8>)
    requires
        stem.len() > 0,
        file_name(script) == Some(stem + seq![DOT, 108u8, 117, 97]),
    ensures
        ({
            let name = stem + seq![DOT, 108u8, 117, 97];
            let names = components(script).1;
            &&& names.len() > 0
            &&& names.last() == name
            &&& components(manifest_path(script)) == (
                components(script).0,
                names.drop_last().push(name + encode_utf8(".manifest"@)),
            )
        }),
{
    let path = trimmed(script);
    law_manifest_stands_beside_script(script, stem);
    lemma_manifest_extension();
    lemma_name_start_bound(path);
    law_text_extends_last_component(path, encode_utf8(".manifest"@));
    law_trimming_keeps_components(script);
}

/// What is said where a file is in none of the directories.
pub open spec fn not_found_text(file: Seq<u8>) -> Seq<char> {
    "Could not find file in search path(s): "@ + lossy_text(file)
}

impl UtilError {
    /// The text of the error.
    pub fn message(&self) -> (text: String)
        ensures
            (match *self {
                UtilError::FileNotFound { description } => text@ == "File not found: "@
                    + description@,
            }),
    {
        match self {
            UtilError::FileNotFound { description } => "File not found: ".to_owned().concat(
                description.as_str(),
            ),
        }
    }
}

/// Was this the answer when a path was tested?
pub open spec fn tested<F: Fn(&FilePath) -> bool>(
    is_file: F,
    path: Seq<u8>,
    answer: bool,
) -> bool {
    exists|tested: FilePath|
        tested@ == path && #[trigger] call_ensures(is_file, (&tested,), answer)
}

/// The outcome of a search: the file in the first directory that has it, where all
/// directories before were tested in vain, or an error where all were.
pub open spec fn search_result<F: Fn(&FilePath) -> bool>(
    is_file: F,
    dirs: Seq<Seq<u8>>,
    file: Seq<u8>,
    result: Result<FilePath, UtilError>,
) -> bool {
    match result {
        Ok(path) => exists|i: int|
            {
                &&& 0 <= i < dirs.len()
                &&& path@ == #[trigger] joined(dirs[i], file)
                &&& tested(is_file, joined(dirs[i], file), true)
                &&& forall|j: int|
                    0 <= j < i ==> tested(is_file, #[trigger] joined(dirs[j], file), false)
            },
        Err(UtilError::FileNotFound { description }) => {
            &&& description@ == not_found_text(file)
            &&& forall|j: int|
                0 <= j < dirs.len() ==> tested(is_file, #[trigger] joined(dirs[j], file), false)
        },
    }
}

fn search<F: Fn(&FilePath) -> bool>(dirs: &Vec<FilePath>, file: &FilePath, is_file: F) -> (result:
    Result<FilePath, UtilError>)
    requires
        forall|path: &FilePath| call_requires(is_file, (path,)),
    ensures
        search_result(is_file, path_bytes(dirs@), file@, result),
{
    let ghost names = path_bytes(dirs@);
    let mut i: usize = 0;
    while i < dirs.len()
        invariant
            i <= dirs@.len(),
            names == path_bytes(dirs@),
            forall|path: &FilePath| call_requires(is_file, (path,)),
            forall|j: int|
                0 <= j < i ==> tested(is_file, #[trigger] joined(names[j], file@), false),
        decreases dirs@.len() - i,
    {
        let path = dirs[i].join(file);
        let found = is_file(&path);
        proof {
            assert(names[i as int] == dirs@[i as int]@);
            assert(call_ensures(is_file, (&path,), found));
            assert(tested(is_file, joined(names[i as int], file@), found));
        }
        if found {
            return Ok(path);
        }
        i += 1;
    }
    let description = "Could not find file in search path(s): ".to_owned().concat(
        file.display().as_str(),
    );
    Err(UtilError::FileNotFound { description })
}

/// Finds a profile in the directories that are searched for profiles. `is_file` tells
/// whether there is a regular file at a path.
pub fn match_profile_path<F: Fn(&FilePath) -> bool>(
    profile_file: &FilePath,
    settings: &DirSettings,
    is_file: F,
) -> (result: Result<FilePath, UtilError>)
    requires
        forall|path: &FilePath| call_requires(is_file, (path,)),
    ensures
        search_result(
            is_file,
            search_dirs(settings.profile_dirs, settings.default_profile_dir),
            profile_file@,
            result,
        ),
{
    search(&get_profile_dirs(settings), profile_file, is_file)
}

/// Finds a script in the directories that are searched for scripts. `is_file` tells whether
/// there is a regular file at a path.
pub fn match_script_path<F: Fn(&FilePath) -> bool>(
    script_file: &FilePath,
    settings: &DirSettings,
    is_file: F,
) -> (result: Result<FilePath, UtilError>)
    requires
        forall|path: &FilePath| call_requires(is_file, (path,)),
    ensures
        search_result(
            is_file,
            search_dirs(settings.script_dirs, settings.default_script_dir),
            script_file@,
            result,
        ),
{
    search(&get_script_dirs(settings), script_file, is_file)
}

/// On a file system that does not change, a search finds the file just if one of the
/// directories has it, and then in the first one that does.
pub proof fn law_search_finds_first<F: Fn(&FilePath) -> bool>(
    is_file: F,
    exists_at: spec_fn(Seq<u8>) -> bool,
    dirs: Seq<Seq<u8>>,
    file: Seq<u8>,
    result: Result<FilePath, UtilError>,
)
    requires
        forall|path: FilePath, answer: bool| #[trigger]
            call_ensures(is_file, (&path,), answer) ==> answer == exists_at(path@),
        search_result(is_file, dirs, file, result),
    ensures
        (match result {
            Ok(path) => exists|i: int|
                {
                    &&& 0 <= i < dirs.len()
                    &&& path@ == #[trigger] joined(dirs[i], file)
                    &&& exists_at(path@)
                    &&& forall|j: int|
                        0 <= j < i ==> !exists_at(#[trigger] joined(dirs[j], file))
                },
            Err(_) => forall|j: int|
                0 <= j < dirs.len() ==> !exists_at(#[trigger] joined(dirs[j], file)),
        }),
{
}

/// The command that opens a file in an editor.
#[derive(Debug)]
pub struct EditCommand {
    /// What is said before the editor starts.
    pub announcement: String,
    pub program: String,
    pub argument: String,
}

/// The command that edits a file. `editor` is the value of the environment variable
/// `EDITOR`, if it is set to a text.
pub fn edit_file(file: &FilePath, editor: Option<String>) -> (command: EditCommand)
    ensures
        command.announcement@ == "Editing: "@ + lossy_text(file@),
        command.program@ == (match editor {
            Some(program) => program@,
            None => "/usr/bin/nano"@,
        }),
        command.argument@ == lossy_text(file@),
{
    let argument = file.display();
    let announcement = "Editing: ".to_owned().concat(argument.as_str());
    let program = match editor {
        Some(program) => program,
        None => "/usr/bin/nano".to_owned(),
    };
    EditCommand { announcement, program, argument }
}

/// The directories that are configured are searched just as they are listed. The one to fall
/// back to is searched only if none is configured, and then alone.
pub proof fn law_configured_dirs_are_searched(configured: Vec<String>, fallback: String)
    ensures
        search_dirs(None, fallback) == seq![encode_utf8(fallback@)],
        configured@.len() == 0 ==> search_dirs(Some(configured), fallback) == seq![
            encode_utf8(fallback@),
        ],
        configured@.len() > 0 ==> {
            let dirs = search_dirs(Some(configured), fallback);
            &&& dirs.len() == configured@.len()
            &&& forall|i: int|
                0 <= i < dirs.len() ==> #[trigger] dirs[i] == encode_utf8(configured@[i]@)
        },
{
}

/// A script is known by its whole file name: a plain name matches a path just if it is the file
/// name of the path.
pub proof fn law_script_is_known_by_file_name(path: Seq<u8>, name: Seq<u8>)
    requires
        name.len() > 0,
        !name.contains(47u8),
        name != seq![46u8],
        name != seq![46u8, 46],
    ensures
        is_script(path, name) <==> file_name(path) == Some(name),
{
    law_name_is_its_component(name);
    law_name_is_its_component(Seq::empty());
    law_file_name_is_plain(path);
    if let Some(found) = file_name(path) {
        law_name_is_its_component(found);
        if components(found) == components(name) {
            assert(seq![found][0] == seq![name][0]);
        }
    } else {
        assert(components(Seq::<u8>::empty()).1.len() == 0);
        assert(components(name).1.len() == 1);
    }
}

/// What is no plain name: the empty text matches just the paths without a file name, a separator
/// behind a name makes no difference, and what leads through a directory, or is `.` or `..`,
/// matches nothing.
pub proof fn law_script_is_known_without_directory(path: Seq<u8>, script: Seq<u8>)
    ensures
        is_script(path, Seq::empty()) <==> file_name(path) is None,
        script.len() > 0 ==> is_script(path, script + seq![47u8]) == is_script(path, script),
        is_script(path, script) ==> !components(script).0 && components(script).1.len() <= 1,
        is_script(path, script) && components(script).1.len() == 1 ==> file_name(path) == Some(
            components(script).1[0],
        ),
{
    law_name_is_its_component(Seq::empty());
    law_file_name_is_plain(path);
    if let Some(found) = file_name(path) {
        law_name_is_its_component(found);
        assert(components(found).1.len() == 1);
    }
    law_separator_joins_components(script, Seq::empty());
    let longer = script + seq![47u8];
    assert(script + seq![47u8] + Seq::<u8>::empty() =~= longer);
    assert(components(script).1 + Seq::<Seq<u8>>::empty() =~= components(script).1);
}

/// The script that is found by a plain name has that file name, no script before it has, and
/// where none is found, no script has.
pub proof fn law_found_script_has_the_name(paths: Seq<FilePath>, name: Seq<u8>)
    requires
        name.len() > 0,
        !name.contains(47u8),
        name != seq![46u8],
        name != seq![46u8, 46],
    ensures
        (match first_script(paths, name) {
            Some(position) => {
                &&& 0 <= position < paths.len()
                &&& file_name(paths[position]@) == Some(name)
                &&& forall|i: int|
                    0 <= i < position ==> file_name((#[trigger] paths[i])@) != Some(name)
            },
            None => forall|i: int|
                0 <= i < paths.len() ==> file_name((#[trigger] paths[i])@) != Some(name),
        }),
{
    law_first_script(paths, name);
    assert forall|i: int| 0 <= i < paths.len() implies (is_script((#[trigger] paths[i])@, name)
        <==> file_name(paths[i]@) == Some(name)) by {
        law_script_is_known_by_file_name(paths[i]@, name);
    }
}

/// The manifest of a script has the stem of the script and the extension `lua.manifest`, and
/// stands in the same directory.
pub proof fn law_manifest_has_its_extension(directory: Seq<u8>, stem: Seq<u8>, extension: Seq<u8>)
    requires
        directory.len() == 0 || directory.last() == 47u8,
        stem.len() > 0,
        !stem.contains(47u8),
        !extension.contains(47u8),
        !extension.contains(46u8),
        stem != seq![46u8] || extension.len() > 0,
    ensures
        manifest_path(directory + stem + seq![46u8] + extension) == directory + stem
            + encode_utf8(".lua.manifest"@),
{
    law_extension_is_replaced(directory, stem, extension, encode_utf8("lua.manifest"@));
    lemma_dotted_manifest_extension();
}

/// The manifest of a script without an extension has the extension `lua.manifest` behind the
/// whole name.
pub proof fn law_manifest_without_extension(directory: Seq<u8>, name: Seq<u8>)
    requires
        directory.len() == 0 || directory.last() == 47u8,
        name.len() > 0,
        !name.contains(47u8),
        !name.drop_first().contains(46u8),
        name != seq![46u8],
    ensures
        manifest_path(directory + name) == directory + name + encode_utf8(".lua.manifest"@),
{
    law_extension_is_added(directory, name, encode_utf8("lua.manifest"@));
    lemma_dotted_manifest_extension();
}

proof fn lemma_dotted_manifest_extension()
    ensures
        encode_utf8("lua.manifest"@).len() > 0,
        seq![46u8] + encode_utf8("lua.manifest"@) == encode_utf8(".lua.manifest"@),
{
    reveal_strlit("lua.manifest");
    reveal_strlit(".lua.manifest");
    is_ascii_chars_encode_utf8("lua.manifest"@);
    is_ascii_chars_encode_utf8(".lua.manifest"@);
    assert(seq![46u8] + encode_utf8("lua.manifest"@) =~= encode_utf8(".lua.manifest"@));
}

/// A search that finds nothing says which file it was that could not be found.
pub proof fn law_failed_search_names_the_file<F: Fn(&FilePath) -> bool>(
    is_file: F,
    dirs: Seq<Seq<u8>>,
    file: Seq<u8>,
    description: String,
)
    requires
        search_result(is_file, dirs, file, Err(UtilError::FileNotFound { description })),
    ensures
        description@ == "Could not find file in search path(s): "@ + lossy_text(file),
{
}

/// A call for the profile directories gives those that are configured, one for one and in their
/// order, or just the one to fall back to if none is configured.
pub proof fn law_profile_dirs_are_given(settings: DirSettings, dirs: Vec<FilePath>)
    requires
        call_ensures(get_profile_dirs, (&settings,), dirs),
    ensures
        (match settings.profile_dirs {
            Some(texts) => texts@.len() > 0 ==> {
                &&& dirs@.len() == texts@.len()
                &&& forall|i: int|
                    0 <= i < dirs@.len() ==> (#[trigger] dirs@[i])@ == encode_utf8(texts@[i]@)
            },
            None => true,
        }),
        settings.profile_dirs is None || settings.profile_dirs->0@.len() == 0 ==> dirs@.len() == 1
            && dirs@[0]@ == encode_utf8(settings.default_profile_dir@),
{
    let bytes = path_bytes(dirs@);
    assert(bytes.len() == dirs@.len());
    assert forall|i: int| 0 <= i < dirs@.len() implies (#[trigger] dirs@[i])@ == bytes[i] by {}
    if settings.profile_dirs is Some {
        law_configured_dirs_are_searched(
            settings.profile_dirs->0,
            settings.default_profile_dir,
        );
    }
}

/// A call for the script directories gives those that are configured, one for one and in their
/// order, or just the one to fall back to if none is configured.
pub proof fn law_script_dirs_are_given(settings: DirSettings, dirs: Vec<FilePath>)
    requires
        call_ensures(get_script_dirs, (&settings,), dirs),
    ensures
        (match settings.script_dirs {
            Some(texts) => texts@.len() > 0 ==> {
                &&& dirs@.len() == texts@.len()
                &&& forall|i: int|
                    0 <= i < dirs@.len() ==> (#[trigger] dirs@[i])@ == encode_utf8(texts@[i]@)
            },
            None => true,
        }),
        settings.script_dirs is None || settings.script_dirs->0@.len() == 0 ==> dirs@.len() == 1
            && dirs@[0]@ == encode_utf8(settings.default_script_dir@),
{
    let bytes = path_bytes(dirs@);
    assert(bytes.len() == dirs@.len());
    assert forall|i: int| 0 <= i < dirs@.len() implies (#[trigger] dirs@[i])@ == bytes[i] by {}
    if settings.script_dirs is Some {
        law_configured_dirs_are_searched(
            settings.script_dirs->0,
            settings.default_script_dir,
        );
    }
}

/// On a file system that does not change, a call that looks for a profile gives the file in the
/// first profile directory that has it, and fails just if none has.
pub proof fn law_profile_is_found_in_first_dir<F: Fn(&FilePath) -> bool>(
    profile_file: FilePath,
    settings: DirSettings,
    is_file: F,
    exists_at: spec_fn(Seq<u8>) -> bool,
    result: Result<FilePath, UtilError>,
)
    requires
        call_ensures(match_profile_path::<F>, (&profile_file, &settings, is_file), result),
        forall|path: FilePath, answer: bool| #[trigger]
            call_ensures(is_file, (&path,), answer) ==> answer == exists_at(path@),
    ensures
        ({
            let dirs = search_dirs(settings.profile_dirs, settings.default_profile_dir);
            match result {
                Ok(path) => exists|i: int|
                    {
                        &&& 0 <= i < dirs.len()
                        &&& path@ == #[trigger] joined(dirs[i], profile_file@)
                        &&& exists_at(path@)
                        &&& forall|j: int|
                            0 <= j < i ==> !exists_at(#[trigger] joined(dirs[j], profile_file@))
                    },
                Err(UtilError::FileNotFound { description }) => {
                    &&& description@ == "Could not find file in search path(s): "@ + lossy_text(
                        profile_file@,
                    )
                    &&& forall|j: int|
                        0 <= j < dirs.len() ==> !exists_at(
                            #[trigger] joined(dirs[j], profile_file@),
                        )
                },
            }
        }),
{
    law_search_finds_first(
        is_file,
        exists_at,
        search_dirs(settings.profile_dirs, settings.default_profile_dir),
        profile_file@,
        result,
    );
}

/// On a file system that does not change, a call that looks for a script gives the file in the
/// first script directory that has it, and fails just if none has.
pub proof fn law_script_is_found_in_first_dir<F: Fn(&FilePath) -> bool>(
    script_file: FilePath,
    settings: DirSettings,
    is_file: F,
    exists_at: spec_fn(Seq<u8>) -> bool,
    result: Result<FilePath, UtilError>,
)
    requires
        call_ensures(match_script_path::<F>, (&script_file, &settings, is_file), result),
        forall|path: FilePath, answer: bool| #[trigger]
            call_ensures(is_file, (&path,), answer) ==> answer == exists_at(path@),
    ensures
        ({
            let dirs = search_dirs(settings.script_dirs, settings.default_script_dir);
            match result {
                Ok(path) => exists|i: int|
                    {
                        &&& 0 <= i < dirs.len()
                        &&& path@ == #[trigger] joined(dirs[i], script_file@)
                        &&& exists_at(path@)
                        &&& forall|j: int|
                            0 <= j < i ==> !exists_at(#[trigger] joined(dirs[j], script_file@))
                    },
                Err(UtilError::FileNotFound { description }) => {
                    &&& description@ == "Could not find file in search path(s): "@ + lossy_text(
                        script_file@,
                    )
                    &&& forall|j: int|
                        0 <= j < dirs.len() ==> !exists_at(
                            #[trigger] joined(dirs[j], script_file@),
                        )
                },
            }
        }),
{
    law_search_finds_first(
        is_file,
        exists_at,
        search_dirs(settings.script_dirs, settings.default_script_dir),
        script_file@,
        result,
    );
}

/// A call that looks for a script by a plain name gives the first of the listed paths whose file
/// name that is: unchanged if it is absolute, and behind the working directory otherwise. It
/// fails just if no listed path has that file name, or if the scripts could not be listed.
pub proof fn law_script_file_is_matched<E>(
    script: FilePath,
    paths: Vec<FilePath>,
    error: E,
    base: FilePath,
    result: Result<FilePath, ScriptFileError<E>>,
    refused: Result<FilePath, ScriptFileError<E>>,
)
    requires
        script@.len() > 0,
        !script@.contains(47u8),
        script@ != seq![46u8],
        script@ != seq![46u8, 46],
        call_ensures(
            match_script_file::<E>,
            (&script, Ok::<Vec<FilePath>, E>(paths), &base),
            result,
        ),
        call_ensures(
            match_script_file::<E>,
            (&script, Err::<Vec<FilePath>, E>(error), &base),
            refused,
        ),
    ensures
        refused == Err::<FilePath, ScriptFileError<E>>(ScriptFileError::Listing(error)),
        (match result {
            Ok(path) => exists|i: int|
                {
                    let listed = (#[trigger] paths@[i])@;
                    &&& 0 <= i < paths@.len()
                    &&& file_name(listed) == Some(script@)
                    &&& listed[0] == 47u8 ==> path@ == listed
                    &&& listed[0] != 47u8 ==> path@ == joined(base@, listed)
                    &&& forall|j: int|
                        0 <= j < i ==> file_name((#[trigger] paths@[j])@) != Some(script@)
                },
            Err(reason) => {
                &&& reason == ScriptFileError::<E>::Manifest(ManifestError::ScriptEnumerationError)
                &&& forall|j: int|
                    0 <= j < paths@.len() ==> file_name((#[trigger] paths@[j])@) != Some(script@)
            },
        }),
{
    law_found_script_has_the_name(paths@, script@);
    if let Some(position) = first_script(paths@, script@) {
        let listed = paths@[position]@;
        law_file_name_is_plain(listed);
        law_file_name_is_last_component(listed);
        if listed.len() == 0 {
            law_name_is_its_component(listed);
        }
        law_join_adds_one_separator(base@, listed);
    }
}

/// A call for the manifest of a script gives the path with `lua.manifest` in place of the
/// extension.
pub proof fn law_manifest_is_given(
    directory: Seq<u8>,
    stem: Seq<u8>,
    extension: Seq<u8>,
    script: FilePath,
    manifest: FilePath,
)
    requires
        directory.len() == 0 || directory.last() == 47u8,
        stem.len() > 0,
        !stem.contains(47u8),
        !extension.contains(47u8),
        !extension.contains(46u8),
        stem != seq![46u8] || extension.len() > 0,
        script@ == directory + stem + seq![46u8] + extension,
        call_ensures(get_manifest_for, (&script,), manifest),
    ensures
        manifest@ == directory + stem + encode_utf8(".lua.manifest"@),
{
    law_manifest_has_its_extension(directory, stem, extension);
}

/// A call for the manifest of a script changes nothing but the extension, whatever the path is.
pub proof fn law_manifest_differs_by_extension(script: FilePath, manifest: FilePath)
    requires
        call_ensures(get_manifest_for, (&script,), manifest),
    ensures
        manifest@ == with_extension(script@, encode_utf8("lua.manifest"@)),
        file_name(script@) is None ==> manifest@ == script@,
{
}

/// A call for the command that edits a file gives the editor that is set, or else `nano`, with
/// the path of the file as its argument, and says so.
pub proof fn law_edit_command_is_given(
    file: FilePath,
    program: String,
    chosen: EditCommand,
    default: EditCommand,
)
    requires
        call_ensures(edit_file, (&file, Some(program)), chosen),
        call_ensures(edit_file, (&file, None::<String>), default),
    ensures
        chosen.program@ == program@,
        default.program@ == "/usr/bin/nano"@,
        chosen.argument@ == lossy_text(file@),
        default.argument@ == lossy_text(file@),
        chosen.announcement@ == "Editing: "@ + lossy_text(file@),
        default.announcement@ == "Editing: "@ + lossy_text(file@),
{
}

/// A call for the list of scripts changes nothing in it.
pub proof fn law_scripts_are_passed_on<M, E>(
    scripts: Result<Vec<M>, E>,
    result: Result<Vec<M>, E>,
)
    requires
        call_ensures(enumerate_scripts::<M, E>, (scripts,), result),
    ensures
        result == scripts,
{
}

/// The text of the error for a missing file ends in its description.
pub proof fn law_message_holds_description(description: String, text: String)
    requires
        call_ensures(UtilError::message, (&UtilError::FileNotFound { description },), text),
    ensures
        text@ == "File not found: "@ + description@,
{
}

} // verus!
