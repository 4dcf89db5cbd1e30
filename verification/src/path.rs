//! File paths as the byte strings that Unix gives them.

use vstd::prelude::*;
use vstd::utf8::{decode_utf8, encode_utf8, valid_utf8};

verus! {

/// The byte that separates the components of a path.
pub const SLASH: u8 = 47;

/// The byte that separates a file stem from its extension.
pub const DOT: u8 = 46;

/// A file path: any sequence of bytes, not necessarily valid UTF-8.
#[derive(Debug)]
pub struct FilePath {
    pub bytes: Vec<u8>,
}

impl View for FilePath {
    type V = Seq<u8>;

    open spec fn view(&self) -> Seq<u8> {
        self.bytes@
    }
}

/// The normalized form of a path, by which two paths are compared.
#[derive(Debug)]
pub struct Components {
    /// Does the path start at the root directory?
    pub absolute: bool,
    /// The names between the separators.
    pub names: Vec<Vec<u8>>,
}

impl View for Components {
    type V = (bool, Seq<Seq<u8>>);

    open spec fn view(&self) -> (bool, Seq<Seq<u8>>) {
        (self.absolute, self.names@.map_values(|name: Vec<u8>| name@))
    }
}

/// The text between the separators, empty pieces included.
pub open spec fn pieces(path: Seq<u8>) -> Seq<Seq<u8>>
    decreases path.len(),
{
    if path.len() == 0 {
        seq![Seq::<u8>::empty()]
    } else {
        let front = pieces(path.drop_last());
        if path.last() == SLASH {
            front.push(Seq::<u8>::empty())
        } else {
            front.drop_last().push(front.last().push(path.last()))
        }
    }
}

/// The pieces that count: an empty piece never does, and `.` only in front.
pub open spec fn significant(pieces: Seq<Seq<u8>>) -> Seq<Seq<u8>>
    decreases pieces.len(),
{
    if pieces.len() == 0 {
        Seq::empty()
    } else {
        let front = significant(pieces.drop_last());
        let piece = pieces.last();
        if piece.len() == 0 || (pieces.len() > 1 && piece == seq![DOT]) {
            front
        } else {
            front.push(piece)
        }
    }
}

/// Whether a path is absolute, and the names on it.
pub open spec fn components(path: Seq<u8>) -> (bool, Seq<Seq<u8>>) {
    (path.len() > 0 && path[0] == SLASH, significant(pieces(path)))
}

/// A path without the separators and `.` components at its end.
pub open spec fn trimmed(path: Seq<u8>) -> Seq<u8>
    decreases path.len(),
{
    if path.len() > 0 && path.last() == SLASH {
        trimmed(path.drop_last())
    } else if path.len() > 1 && path.last() == DOT && path[path.len() - 2] == SLASH {
        trimmed(path.drop_last())
    } else {
        path
    }
}

/// Where the text behind the last separator starts.
pub open spec fn name_start(path: Seq<u8>) -> nat
    decreases path.len(),
{
    if path.len() == 0 {
        0
    } else if path.last() == SLASH {
        path.len()
    } else {
        name_start(path.drop_last())
    }
}

/// The final component of a path, unless that is the root, `.` or `..`.
pub open spec fn file_name(path: Seq<u8>) -> Option<Seq<u8>> {
    let path = trimmed(path);
    let name = path.skip(name_start(path) as int);
    if name.len() == 0 || name == seq![DOT] || name == seq![DOT, DOT] {
        None
    } else {
        Some(name)
    }
}

/// The position of the last dot in a name; 0 if there is none.
pub open spec fn last_dot(name: Seq<u8>) -> nat
    decreases name.len(),
{
    if name.len() == 0 {
        0
    } else if name.last() == DOT {
        (name.len() - 1) as nat
    } else {
        last_dot(name.drop_last())
    }
}

/// A file name without its extension. A dot in front starts no extension.
pub open spec fn file_stem(name: Seq<u8>) -> Seq<u8> {
    if last_dot(name) == 0 {
        name
    } else {
        name.take(last_dot(name) as int)
    }
}

/// A path whose file name has another extension. A path without a file name
/// stays as it is.
pub open spec fn with_extension(path: Seq<u8>, extension: Seq<u8>) -> Seq<u8> {
    match file_name(path) {
        None => path,
        Some(name) => {
            let directory = trimmed(path).take(name_start(trimmed(path)) as int);
            if extension.len() == 0 {
                directory + file_stem(name)
            } else {
                directory + file_stem(name) + seq![DOT] + extension
            }
        },
    }
}

/// One path seen from a directory: an absolute path replaces the directory.
pub open spec fn joined(directory: Seq<u8>, path: Seq<u8>) -> Seq<u8> {
    if path.len() > 0 && path[0] == SLASH {
        path
    } else if directory.len() == 0 || directory.last() == SLASH {
        directory + path
    } else {
        directory + seq![SLASH] + path
    }
}

/// The text that shows a sequence of bytes, with U+FFFD in place of what is not UTF-8.
pub uninterp spec fn lossy_text(bytes: Seq<u8>) -> Seq<char>;

/// Calls `String::from_utf8_lossy`. The text depends on the bytes alone, and bytes
/// that are valid UTF-8 are decoded unchanged. How many replacement characters stand
/// for a malformed sequence is left open.
#[verifier::external_body]
fn text_of_bytes(bytes: &[u8]) -> (text: String)
    ensures
        text@ == lossy_text(bytes@),
        valid_utf8(bytes@) ==> text@ == decode_utf8(bytes@),
{
    String::from_utf8_lossy(bytes).into_owned()
}

/// Are two byte strings equal?
pub fn same_bytes(a: &[u8], b: &[u8]) -> (same: bool)
    ensures
        same == (a@ == b@),
{
    if a.len() != b.len() {
        return false;
    }
    let mut i: usize = 0;
    while i < a.len()
        invariant
            i <= a.len() == b.len(),
            forall|j: int| 0 <= j < i ==> a@[j] == b@[j],
        decreases a.len() - i,
    {
        if a[i] != b[i] {
            return false;
        }
        i += 1;
    }
    assert(a@ =~= b@);
    true
}

/// Copies the bytes from `start` up to `end`.
fn copy_range(bytes: &[u8], start: usize, end: usize) -> (copy: Vec<u8>)
    requires
        start <= end <= bytes@.len(),
    ensures
        copy@ == bytes@.subrange(start as int, end as int),
{
    let mut copy: Vec<u8> = Vec::new();
    let mut i: usize = start;
    while i < end
        invariant
            start <= i <= end <= bytes@.len(),
            copy@ == bytes@.subrange(start as int, i as int),
        decreases end - i,
    {
        copy.push(bytes[i]);
        i += 1;
        assert(copy@ =~= bytes@.subrange(start as int, i as int));
    }
    copy
}

/// Appends bytes to a vector.
fn append_bytes(target: &mut Vec<u8>, bytes: &[u8])
    ensures
        final(target)@ == old(target)@ + bytes@,
{
    let mut i: usize = 0;
    assert(target@ =~= old(target)@ + bytes@.take(0));
    while i < bytes.len()
        invariant
            i <= bytes@.len(),
            target@ == old(target)@ + bytes@.take(i as int),
        decreases bytes@.len() - i,
    {
        target.push(bytes[i]);
        i += 1;
        assert(target@ =~= old(target)@ + bytes@.take(i as int));
    }
    assert(bytes@.take(i as int) =~= bytes@);
}

impl Components {
    /// Do two paths consist of the same components?
    pub fn same(&self, other: &Components) -> (same: bool)
        ensures
            same == (self@ == other@),
    {
        if self.absolute != other.absolute {
            return false;
        }
        if self.names.len() != other.names.len() {
            assert(self@.1.len() != other@.1.len());
            return false;
        }
        let mut i: usize = 0;
        while i < self.names.len()
            invariant
                i <= self.names.len() == other.names.len(),
                forall|j: int| 0 <= j < i ==> self@.1[j] == other@.1[j],
            decreases self.names.len() - i,
        {
            if !same_bytes(self.names[i].as_slice(), other.names[i].as_slice()) {
                assert(self@.1[i as int] != other@.1[i as int]);
                return false;
            }
            i += 1;
        }
        assert(self@.1 =~= other@.1);
        true
    }
}

/// Reading one more piece changes the significant ones only at the end.
proof fn lemma_significant_push(pieces: Seq<Seq<u8>>, piece: Seq<u8>)
    ensures
        significant(pieces.push(piece)) == (if piece.len() == 0 || (pieces.len() > 0 && piece
            == seq![DOT]) {
            significant(pieces)
        } else {
            significant(pieces).push(piece)
        }),
{
    assert(pieces.push(piece).drop_last() =~= pieces);
}

/// Adds a piece to the names before it, if it counts. `first` says whether it is the first
/// piece of its path.
fn close_piece(names: &mut Vec<Vec<u8>>, piece: Vec<u8>, first: bool)
    ensures
        final(names)@.map_values(|name: Vec<u8>| name@) == (if piece@.len() == 0 || (!first
            && piece@ == seq![DOT]) {
            old(names)@.map_values(|name: Vec<u8>| name@)
        } else {
            old(names)@.map_values(|name: Vec<u8>| name@).push(piece@)
        }),
{
    let ghost finished = piece@;
    if piece.len() > 0 && (first || piece.len() != 1 || piece[0] != DOT) {
        proof {
            if finished == seq![DOT] {
                assert(finished[0] == DOT);
            }
        }
        names.push(piece);
        assert(names@.map_values(|name: Vec<u8>| name@) =~= old(names)@.map_values(
            |name: Vec<u8>| name@,
        ).push(finished));
    } else {
        proof {
            if finished.len() > 0 {
                assert(finished =~= seq![DOT]);
            }
        }
    }
}

impl FilePath {
    /// The path that a text spells.
    pub fn from_text(text: &str) -> (path: FilePath)
        ensures
            path@ == encode_utf8(text@),
    {
        let bytes = text.as_bytes();
        FilePath { bytes: copy_range(bytes, 0, bytes.len()) }
    }

    /// A second path with the same bytes.
    pub fn duplicate(&self) -> (path: FilePath)
        ensures
            path@ == self@,
    {
        FilePath { bytes: copy_range(self.bytes.as_slice(), 0, self.bytes.len()) }
    }

    /// The path as text, for messages.
    pub fn display(&self) -> (text: String)
        ensures
            text@ == lossy_text(self@),
            valid_utf8(self@) ==> text@ == decode_utf8(self@),
    {
        text_of_bytes(self.bytes.as_slice())
    }

    /// The path that `path` denotes seen from the directory `self`.
    pub fn join(&self, path: &FilePath) -> (result: FilePath)
        ensures
            result@ == joined(self@, path@),
    {
        if path.bytes.len() > 0 && path.bytes[0] == SLASH {
            return path.duplicate();
        }
        let mut result = self.duplicate();
        let length = self.bytes.len();
        if length > 0 && self.bytes[length - 1] != SLASH {
            result.bytes.push(SLASH);
            assert(result.bytes@ =~= self@ + seq![SLASH]);
        }
        append_bytes(&mut result.bytes, path.bytes.as_slice());
        result
    }

    /// The components of the path.
    pub fn components(&self) -> (result: Components)
        ensures
            result@ == components(self@),
    {
        let path = self.bytes.as_slice();
        let mut names: Vec<Vec<u8>> = Vec::new();
        let mut piece: Vec<u8> = Vec::new();
        let mut first = true;
        let mut i: usize = 0;
        let ghost mut done: Seq<Seq<u8>> = Seq::empty();
        proof {
            assert(path@.take(0) =~= Seq::<u8>::empty());
            assert(done.push(piece@) =~= pieces(path@.take(0)));
            assert(names@.map_values(|name: Vec<u8>| name@) =~= significant(done));
        }
        while i < path.len()
            invariant
                i <= path@.len(),
                path@ == self@,
                pieces(path@.take(i as int)) == done.push(piece@),
                first == (done.len() == 0),
                names@.map_values(|name: Vec<u8>| name@) == significant(done),
            decreases path@.len() - i,
        {
            let byte = path[i];
            proof {
                assert(path@.take(i + 1).drop_last() =~= path@.take(i as int));
                lemma_significant_push(done, piece@);
            }
            if byte == SLASH {
                let ghost finished = piece@;
                close_piece(&mut names, piece, first);
                piece = Vec::new();
                first = false;
                proof {
                    done = done.push(finished);
                    assert(pieces(path@.take(i + 1)) =~= done.push(piece@));
                }
            } else {
                let ghost before = piece@;
                piece.push(byte);
                proof {
                    assert(done.push(before).drop_last() =~= done);
                    assert(pieces(path@.take(i + 1)) =~= done.push(piece@));
                }
            }
            i += 1;
        }
        proof {
            assert(path@.take(i as int) =~= path@);
            lemma_significant_push(done, piece@);
        }
        close_piece(&mut names, piece, first);
        Components { absolute: path.len() > 0 && path[0] == SLASH, names }
    }

    /// Where the path ends once the separators and `.` components behind the last
    /// name are left out.
    fn trimmed_length(&self) -> (length: usize)
        ensures
            length <= self@.len(),
            self@.take(length as int) == trimmed(self@),
    {
        let path = self.bytes.as_slice();
        let mut length: usize = path.len();
        proof {
            assert(path@.take(length as int) =~= path@);
        }
        while length > 0 && (path[length - 1] == SLASH || (length > 1 && path[length - 1] == DOT
            && path[length - 2] == SLASH))
            invariant
                length <= path@.len(),
                path@ == self@,
                trimmed(path@.take(length as int)) == trimmed(path@),
            decreases length,
        {
            assert(path@.take(length as int).drop_last() =~= path@.take(length - 1));
            length -= 1;
        }
        length
    }

    /// The final component of the path, unless that is the root, `.` or `..`.
    pub fn file_name(&self) -> (name: Option<Vec<u8>>)
        ensures
            (match name {
                Some(name) => file_name(self@) == Some(name@),
                None => file_name(self@) is None,
            }),
    {
        match self.locate_name() {
            None => None,
            Some((start, end)) => {
                let ghost path = trimmed(self@);
                let name = copy_range(self.bytes.as_slice(), start, end);
                assert(name@ =~= path.skip(start as int));
                Some(name)
            },
        }
    }

    /// Where the file name starts and ends.
    fn locate_name(&self) -> (range: Option<(usize, usize)>)
        ensures
            (match range {
                Some((start, end)) => {
                    &&& start <= end <= self@.len()
                    &&& trimmed(self@) == self@.take(end as int)
                    &&& start == name_start(trimmed(self@))
                    &&& file_name(self@) == Some(self@.subrange(start as int, end as int))
                },
                None => file_name(self@) is None,
            }),
    {
        let path = self.bytes.as_slice();
        let end = self.trimmed_length();
        let ghost short = trimmed(self@);
        let mut start: usize = end;
        assert(short.take(end as int) =~= short);
        while start > 0 && path[start - 1] != SLASH
            invariant
                start <= end <= path@.len(),
                path@ == self@,
                short == path@.take(end as int),
                name_start(short.take(start as int)) == name_start(short),
            decreases start,
        {
            assert(short.take(start as int).drop_last() =~= short.take(start - 1));
            start -= 1;
        }
        let length = end - start;
        let ghost name = short.skip(start as int);
        assert(name =~= self@.subrange(start as int, end as int));
        if length == 0 {
            return None;
        }
        if length == 1 && path[start] == DOT {
            assert(name =~= seq![DOT]);
            return None;
        }
        if length == 2 && path[start] == DOT && path[start + 1] == DOT {
            assert(name =~= seq![DOT, DOT]);
            return None;
        }
        proof {
            if name == seq![DOT] {
                assert(name[0] == DOT);
            }
            if name == seq![DOT, DOT] {
                assert(name[0] == DOT && name[1] == DOT);
            }
        }
        Some((start, end))
    }

    /// The path with another extension on its file name; the same path where it has no
    /// file name.
    pub fn with_extension(&self, extension: &str) -> (path: FilePath)
        requires
            !encode_utf8(extension@).contains(SLASH),
        ensures
            path@ == with_extension(self@, encode_utf8(extension@)),
    {
        match self.locate_name() {
            None => self.duplicate(),
            Some((start, end)) => {
                let ghost name = self@.subrange(start as int, end as int);
                let mut stem: usize = end;
                assert(name.take((stem - start) as int) =~= name);
                while stem > start && self.bytes[stem - 1] != DOT
                    invariant
                        start <= stem <= end <= self@.len(),
                        name == self@.subrange(start as int, end as int),
                        last_dot(name.take((stem - start) as int)) == last_dot(name),
                    decreases stem,
                {
                    assert(name.take((stem - start) as int).drop_last() =~= name.take(
                        (stem - 1 - start) as int,
                    ));
                    stem -= 1;
                }
                let stem_end = if stem > start + 1 {
                    stem - 1
                } else {
                    end
                };
                let mut bytes = copy_range(self.bytes.as_slice(), 0, stem_end);
                assert(bytes@ =~= trimmed(self@).take(start as int) + file_stem(name));
                let added = extension.as_bytes();
                if added.len() > 0 {
                    let ghost before = bytes@;
                    bytes.push(DOT);
                    assert(bytes@ =~= before + seq![DOT]);
                    append_bytes(&mut bytes, added);
                }
                FilePath { bytes }
            },
        }
    }
}

/// Splitting always leaves at least one piece.
proof fn lemma_pieces_nonempty(path: Seq<u8>)
    ensures
        pieces(path).len() > 0,
    decreases path.len(),
{
    if path.len() > 0 {
        lemma_pieces_nonempty(path.drop_last());
    }
}

/// The last piece is the text behind the last separator, and it is the only one just
/// where there is no separator.
proof fn lemma_last_piece(path: Seq<u8>)
    ensures
        pieces(path).last() == path.skip(name_start(path) as int),
        pieces(path).len() == 1 <==> name_start(path) == 0,
        name_start(path) > 0 ==> path[name_start(path) - 1] == SLASH,
    decreases path.len(),
{
    lemma_pieces_nonempty(path);
    if path.len() == 0 {
        assert(path.skip(0) =~= Seq::<u8>::empty());
    } else {
        let front = path.drop_last();
        lemma_pieces_nonempty(front);
        lemma_last_piece(front);
        lemma_name_start_bound(front);
        if path.last() == SLASH {
            assert(path.skip(path.len() as int) =~= Seq::<u8>::empty());
        } else {
            let start = name_start(front) as int;
            assert(path.skip(start) =~= front.skip(start).push(path.last()));
        }
    }
}

/// The last component starts within the path.
pub proof fn lemma_name_start_bound(path: Seq<u8>)
    ensures
        name_start(path) <= path.len(),
    decreases path.len(),
{
    if path.len() > 0 {
        lemma_name_start_bound(path.drop_last());
    }
}

/// What is trimmed away holds no significant piece.
proof fn lemma_trimmed_names(path: Seq<u8>)
    ensures
        significant(pieces(trimmed(path))) == significant(pieces(path)),
    decreases path.len(),
{
    if path.len() > 0 && path.last() == SLASH {
        let front = path.drop_last();
        lemma_trimmed_names(front);
        lemma_significant_push(pieces(front), Seq::<u8>::empty());
    } else if path.len() > 1 && path.last() == DOT && path[path.len() - 2] == SLASH {
        let front = path.drop_last();
        let shorter = front.drop_last();
        lemma_trimmed_names(front);
        lemma_pieces_nonempty(shorter);
        lemma_significant_push(pieces(shorter), Seq::<u8>::empty());
        lemma_significant_push(pieces(shorter), seq![DOT]);
        assert(pieces(front) == pieces(shorter).push(Seq::<u8>::empty()));
        assert(pieces(front).drop_last() =~= pieces(shorter));
        assert(Seq::<u8>::empty().push(DOT) =~= seq![DOT]);
        assert(pieces(path) =~= pieces(shorter).push(seq![DOT]));
    }
}

/// What is left of a path by trimming ends in no separator and in no `.` component
/// behind one.
proof fn lemma_trimmed_end(path: Seq<u8>)
    ensures
        trimmed(path).len() > 0 ==> trimmed(path).last() != SLASH,
        trimmed(path).len() > 1 && trimmed(path).last() == DOT ==> trimmed(path)[trimmed(path).len()
            - 2] != SLASH,
    decreases path.len(),
{
    if path.len() > 0 && path.last() == SLASH {
        lemma_trimmed_end(path.drop_last());
    } else if path.len() > 1 && path.last() == DOT && path[path.len() - 2] == SLASH {
        lemma_trimmed_end(path.drop_last());
    }
}

/// The file name of a path is its last component: there is none where the path has no
/// component or ends in `.` or `..`.
pub proof fn law_file_name_is_last_component(path: Seq<u8>)
    ensures
        file_name(path) == {
            let names = components(path).1;
            if names.len() == 0 || names.last() == seq![DOT] || names.last() == seq![DOT, DOT] {
                None
            } else {
                Some(names.last())
            }
        },
{
    let short = trimmed(path);
    lemma_trimmed_names(path);
    lemma_trimmed_end(path);
    lemma_last_piece(short);
    lemma_name_start_bound(short);
    lemma_pieces_nonempty(short);
    let name = short.skip(name_start(short) as int);
    let front = pieces(short).drop_last();
    assert(pieces(short) =~= front.push(name));
    lemma_significant_push(front, name);
    if name.len() == 0 {
        assert(short.len() == name_start(short));
        assert(short =~= Seq::<u8>::empty());
        assert(front =~= Seq::<Seq<u8>>::empty());
    } else if name == seq![DOT] && front.len() > 0 {
        assert(name[0] == DOT);
        assert(short.last() == name.last());
        assert(short[short.len() - 2] == SLASH);
        assert(false);
    }
}

/// Joining a relative path to a directory keeps the components of both, in order, unless
/// the path starts with `.`, which then counts no more.
pub proof fn law_join_concatenates(directory: Seq<u8>, path: Seq<u8>)
    requires
        path.len() > 0 ==> path[0] != SLASH,
        directory.len() > 0,
    ensures
        components(joined(directory, path)).0 == components(directory).0,
        components(joined(directory, path)).1 == components(directory).1 + (if pieces(path)[0]
            == seq![DOT] {
            components(path).1.drop_first()
        } else {
            components(path).1
        }),
{
    let base = if directory.last() == SLASH {
        directory
    } else {
        directory + seq![SLASH]
    };
    if directory.last() != SLASH {
        assert(base.drop_last() =~= directory);
        lemma_significant_push(pieces(directory), Seq::<u8>::empty());
    }
    lemma_pieces_nonempty(base.drop_last());
    assert(joined(directory, path) =~= base + path);
    assert(pieces(base) =~= pieces(base).drop_last().push(Seq::<u8>::empty()));
    lemma_significant_push(pieces(base).drop_last(), Seq::<u8>::empty());
    if path.len() == 0 {
        assert(base + path =~= base);
        lemma_significant_push(Seq::<Seq<u8>>::empty(), Seq::<u8>::empty());
        assert(pieces(path) =~= Seq::<Seq<u8>>::empty().push(Seq::<u8>::empty()));
        assert(significant(pieces(base)) =~= significant(pieces(base)) + significant(pieces(path)));
    } else {
        lemma_pieces_append(base, path);
        lemma_first_piece(path);
        lemma_significant_append(pieces(base).drop_last(), pieces(path));
    }
}

/// Seen from an absolute directory every path is absolute, and one that is so already stays
/// as it is.
pub proof fn law_join_is_absolute(directory: Seq<u8>, path: Seq<u8>)
    ensures
        components(directory).0 ==> components(joined(directory, path)).0,
        components(path).0 ==> joined(directory, path) == path,
{
}

/// What is trimmed away changes no component, unless nothing is left.
pub proof fn law_trimming_keeps_components(path: Seq<u8>)
    requires
        trimmed(path).len() > 0,
    ensures
        components(trimmed(path)) == components(path),
{
    lemma_trimmed_names(path);
    lemma_trimmed_start(path);
}

/// A path that is not trimmed away keeps its first byte.
proof fn lemma_trimmed_start(path: Seq<u8>)
    requires
        trimmed(path).len() > 0,
    ensures
        path.len() > 0,
        trimmed(path)[0] == path[0],
    decreases path.len(),
{
    if path.len() > 0 && path.last() == SLASH {
        lemma_trimmed_start(path.drop_last());
    } else if path.len() > 1 && path.last() == DOT && path[path.len() - 2] == SLASH {
        lemma_trimmed_start(path.drop_last());
    }
}

/// Text without a separator belongs to the last component.
pub proof fn lemma_name_start_append(path: Seq<u8>, text: Seq<u8>)
    requires
        !text.contains(SLASH),
    ensures
        name_start(path + text) == name_start(path),
    decreases text.len(),
{
    if text.len() == 0 {
        assert(path + text =~= path);
    } else {
        assert(text.contains(text.last()));
        assert forall|i: int| 0 <= i < text.drop_last().len() implies text.drop_last()[i]
            != SLASH by {
            assert(text.contains(text[i]));
        }
        assert((path + text).drop_last() =~= path + text.drop_last());
        lemma_name_start_append(path, text.drop_last());
    }
}

/// Text without a separator lengthens just the last piece.
proof fn lemma_pieces_extend(path: Seq<u8>, text: Seq<u8>)
    requires
        !text.contains(SLASH),
    ensures
        pieces(path).len() > 0,
        pieces(path + text) == pieces(path).drop_last().push(pieces(path).last() + text),
    decreases text.len(),
{
    lemma_pieces_nonempty(path);
    if text.len() == 0 {
        assert(path + text =~= path);
        assert(pieces(path).last() + text =~= pieces(path).last());
        assert(pieces(path) =~= pieces(path).drop_last().push(pieces(path).last()));
    } else {
        let shorter = text.drop_last();
        assert(text.contains(text.last()));
        assert forall|i: int| 0 <= i < shorter.len() implies shorter[i] != SLASH by {
            assert(text.contains(text[i]));
        }
        lemma_pieces_extend(path, shorter);
        assert((path + text).drop_last() =~= path + shorter);
        assert(pieces(path + shorter).drop_last() =~= pieces(path).drop_last());
        assert((pieces(path).last() + shorter).push(text.last()) =~= pieces(path).last() + text);
    }
}

/// Text without a separator behind a path lengthens just its last component.
pub proof fn law_text_extends_last_component(path: Seq<u8>, text: Seq<u8>)
    requires
        name_start(path) < path.len(),
        path.skip(name_start(path) as int) != seq![DOT],
        !text.contains(SLASH),
    ensures
        ({
            let name = path.skip(name_start(path) as int);
            let names = components(path).1;
            &&& names.len() > 0
            &&& names.last() == name
            &&& components(path + text) == (components(path).0, names.drop_last().push(name + text))
        }),
{
    let name = path.skip(name_start(path) as int);
    let front = pieces(path).drop_last();
    lemma_last_piece(path);
    lemma_pieces_extend(path, text);
    assert(pieces(path) =~= front.push(name));
    lemma_significant_push(front, name);
    lemma_significant_push(front, name + text);
    if name + text == seq![DOT] {
        assert((name + text).len() == 1);
        assert(name + text =~= name);
    }
    assert(components(path).1.drop_last() =~= significant(front));
}

/// Text without a dot leaves the last dot where it is.
pub proof fn lemma_last_dot_append(name: Seq<u8>, text: Seq<u8>)
    requires
        !text.contains(DOT),
    ensures
        last_dot(name + text) == last_dot(name),
    decreases text.len(),
{
    if text.len() == 0 {
        assert(name + text =~= name);
    } else {
        assert(text.contains(text.last()));
        assert forall|i: int| 0 <= i < text.drop_last().len() implies text.drop_last()[i]
            != DOT by {
            assert(text.contains(text[i]));
        }
        assert((name + text).drop_last() =~= name + text.drop_last());
        lemma_last_dot_append(name, text.drop_last());
    }
}

/// The first piece of a path that does not start at the root is not empty.
proof fn lemma_first_piece(path: Seq<u8>)
    requires
        path.len() > 0,
        path[0] != SLASH,
    ensures
        pieces(path).len() > 0,
        pieces(path)[0].len() > 0,
    decreases path.len(),
{
    let front = path.drop_last();
    lemma_pieces_nonempty(front);
    if front.len() > 0 {
        lemma_first_piece(front);
    } else {
        assert(pieces(path)[0] =~= seq![path.last()]);
    }
}

/// Behind a separator, the pieces of a longer path are those of its two parts.
proof fn lemma_pieces_append(base: Seq<u8>, path: Seq<u8>)
    requires
        base.len() > 0,
        base.last() == SLASH,
    ensures
        pieces(base + path) == pieces(base).drop_last() + pieces(path),
    decreases path.len(),
{
    lemma_pieces_nonempty(base);
    if path.len() == 0 {
        assert(base + path =~= base);
        assert(pieces(base) =~= pieces(base).drop_last() + pieces(path));
    } else {
        let front = path.drop_last();
        lemma_pieces_append(base, front);
        lemma_pieces_nonempty(front);
        assert((base + path).drop_last() =~= base + front);
        assert(pieces(base + path) =~= pieces(base).drop_last() + pieces(path));
    }
}

/// Behind other pieces, a leading `.` is no longer significant.
proof fn lemma_significant_append(front: Seq<Seq<u8>>, back: Seq<Seq<u8>>)
    requires
        front.len() > 0,
        back.len() > 0,
        back[0].len() > 0,
    ensures
        significant(back).len() > 0,
        significant(front + back) == significant(front) + (if back[0] == seq![DOT] {
            significant(back).drop_first()
        } else {
            significant(back)
        }),
    decreases back.len(),
{
    let shorter = back.drop_last();
    assert(back =~= shorter.push(back.last()));
    assert(front + back =~= (front + shorter).push(back.last()));
    lemma_significant_push(shorter, back.last());
    lemma_significant_push(front + shorter, back.last());
    if shorter.len() > 0 {
        lemma_significant_append(front, shorter);
        assert(significant(front + back) =~= significant(front) + (if back[0] == seq![DOT] {
            significant(back).drop_first()
        } else {
            significant(back)
        }));
    } else {
        assert(front + shorter =~= front);
        assert(significant(shorter) =~= Seq::empty());
        assert(significant(front + back) =~= significant(front) + (if back[0] == seq![DOT] {
            significant(back).drop_first()
        } else {
            significant(back)
        }));
    }
}

/// Text without a separator is one piece.
pub proof fn law_text_is_one_piece(text: Seq<u8>)
    requires
        !text.contains(47u8),
    ensures
        pieces(text) == seq![text],
{
    let none = Seq::<u8>::empty();
    lemma_pieces_extend(none, text);
    assert(none + text =~= text);
    assert(pieces(none) =~= seq![none]);
    assert(pieces(text) =~= seq![text]);
}

/// A separator ends one piece and begins another one, whatever stands on either side.
pub proof fn law_separator_splits(before: Seq<u8>, after: Seq<u8>)
    ensures
        pieces(before + seq![47u8] + after) == pieces(before) + pieces(after),
{
    let base = before + seq![47u8];
    assert(base.drop_last() =~= before);
    lemma_pieces_append(base, after);
    assert(pieces(base).drop_last() =~= pieces(before));
}

/// Where the first separator stands, or the end of a text without one.
proof fn lemma_first_separator(text: Seq<u8>) -> (k: int)
    ensures
        0 <= k <= text.len(),
        !text.take(k).contains(47u8),
        k < text.len() ==> text[k] == 47u8,
    decreases text.len(),
{
    if text.len() == 0 {
        assert(text.take(0) =~= Seq::empty());
        0
    } else {
        let front = text.drop_last();
        let k = lemma_first_separator(front);
        assert(front.take(k) =~= text.take(k));
        if k < front.len() {
            k
        } else if text.last() == 47u8 {
            k
        } else {
            assert forall|i: int| 0 <= i < text.len() implies text[i] != 47u8 by {
                if i < k {
                    assert(text.take(k)[i] == text[i]);
                    assert(text.take(k).contains(text.take(k)[i]));
                }
            }
            assert(text.take(text.len() as int) =~= text);
            text.len() as int
        }
    }
}

/// The first piece is a dot just where the text says so.
proof fn lemma_leading_dot(text: Seq<u8>)
    ensures
        pieces(text).len() > 0,
        pieces(text)[0] == seq![46u8] <==> text.len() > 0 && text[0] == 46u8 && (text.len() == 1
            || text[1] == 47u8),
{
    let k = lemma_first_separator(text);
    let first = text.take(k);
    law_text_is_one_piece(first);
    if k < text.len() {
        assert(text =~= first + seq![47u8] + text.skip(k + 1));
        law_separator_splits(first, text.skip(k + 1));
    } else {
        assert(first =~= text);
    }
    assert(pieces(text)[0] == first);
    if first == seq![46u8] {
        assert(first.len() == 1 && first[0] == 46u8);
    }
    if text.len() > 0 && text[0] == 46u8 && (text.len() == 1 || text[1] == 47u8) {
        if k == 0 {
            assert(false);
        }
        if k > 1 {
            assert(first[1] == 47u8);
            assert(first.contains(first[1]));
        }
        assert(first =~= seq![46u8]);
    }
}

/// Pieces behind others count as they do alone, but for a leading `.`.
proof fn lemma_significant_behind(front: Seq<Seq<u8>>, back: Seq<Seq<u8>>)
    requires
        front.len() > 0,
        back.len() > 0,
    ensures
        back[0] == seq![DOT] ==> significant(back).len() > 0,
        significant(front + back) == significant(front) + (if back[0] == seq![DOT] {
            significant(back).drop_first()
        } else {
            significant(back)
        }),
    decreases back.len(),
{
    let shorter = back.drop_last();
    assert(back =~= shorter.push(back.last()));
    assert(front + back =~= (front + shorter).push(back.last()));
    lemma_significant_push(shorter, back.last());
    lemma_significant_push(front + shorter, back.last());
    if shorter.len() > 0 {
        lemma_significant_behind(front, shorter);
    } else {
        assert(front + shorter =~= front);
        assert(significant(shorter) =~= Seq::empty());
        if back[0] == seq![DOT] {
            assert(back[0].len() == 1);
        }
    }
    assert(significant(front + back) =~= significant(front) + (if back[0] == seq![DOT] {
        significant(back).drop_first()
    } else {
        significant(back)
    }));
}

/// A path is absolute just if it starts with a slash.
pub proof fn law_slash_makes_absolute(path: Seq<u8>)
    ensures
        components(path).0 <==> path.len() > 0 && path[0] == 47u8,
{
}

/// Text without a separator is its own only component, and empty text has none.
pub proof fn law_name_is_its_component(name: Seq<u8>)
    requires
        !name.contains(47u8),
    ensures
        components(name).1 == (if name.len() == 0 {
            Seq::<Seq<u8>>::empty()
        } else {
            seq![name]
        }),
        !components(name).0,
{
    law_text_is_one_piece(name);
    lemma_significant_push(Seq::empty(), name);
    assert(Seq::<Seq<u8>>::empty().push(name) =~= seq![name]);
    if name.len() > 0 {
        assert(name.contains(name[0]));
    }
}

/// The components before a separator come before those behind it, in order. A leading `.` counts
/// only where nothing stands before it.
pub proof fn law_separator_joins_components(before: Seq<u8>, after: Seq<u8>)
    ensures
        components(before + seq![47u8] + after).1 == components(before).1 + (if after.len() > 0
            && after[0] == 46u8 && (after.len() == 1 || after[1] == 47u8) {
            components(after).1.drop_first()
        } else {
            components(after).1
        }),
{
    law_separator_splits(before, after);
    lemma_pieces_nonempty(before);
    lemma_leading_dot(after);
    lemma_significant_behind(pieces(before), pieces(after));
}

/// The text behind the last separator holds none.
proof fn lemma_name_without_separator(path: Seq<u8>)
    ensures
        name_start(path) <= path.len(),
        !path.skip(name_start(path) as int).contains(47u8),
        name_start(path) > 0 ==> path[name_start(path) - 1] == 47u8,
    decreases path.len(),
{
    if path.len() > 0 {
        lemma_name_without_separator(path.drop_last());
        if path.last() != SLASH {
            let start = name_start(path) as int;
            let name = path.skip(start);
            let shorter = path.drop_last().skip(start);
            assert forall|i: int| 0 <= i < name.len() implies name[i] != 47u8 by {
                if i < shorter.len() {
                    assert(name[i] == shorter[i]);
                    assert(shorter.contains(shorter[i]));
                }
            }
        }
    }
}

/// A file name is not empty, holds no separator and is neither `.` nor `..`.
pub proof fn law_file_name_is_plain(path: Seq<u8>)
    ensures
        file_name(path) matches Some(name) ==> name.len() > 0 && !name.contains(47u8) && name
            != seq![46u8] && name != seq![46u8, 46],
{
    lemma_name_without_separator(trimmed(path));
}

/// The name that stands behind a directory is the file name of the path. Separators and `.`
/// components behind it make no difference. Behind `..`, and without any name, there is no file
/// name.
pub proof fn law_file_name_stands_last(directory: Seq<u8>, name: Seq<u8>)
    requires
        directory.len() == 0 || directory.last() == 47u8,
        name.len() > 0,
        !name.contains(47u8),
        name != seq![46u8],
    ensures
        file_name(directory + name) == (if name == seq![46u8, 46] {
            None::<Seq<u8>>
        } else {
            Some(name)
        }),
        file_name(directory + name + seq![47u8]) == file_name(directory + name),
        file_name(directory + name + seq![47u8, 46]) == file_name(directory + name),
        file_name(Seq::empty()) is None,
        file_name(seq![47u8]) is None,
        file_name(seq![46u8]) is None,
{
    let path = directory + name;
    lemma_plain_path(directory, name);
    assert(path.skip(directory.len() as int) =~= name);
    lemma_trailing_separator(path);
    assert(trimmed(seq![47u8]) == trimmed(seq![47u8].drop_last()));
    assert(seq![47u8].drop_last() =~= Seq::<u8>::empty());
    let dot = seq![46u8];
    assert(trimmed(dot) == dot);
    assert(dot.drop_last() =~= Seq::<u8>::empty());
    assert(name_start(dot) == name_start(dot.drop_last()));
    assert(dot.skip(0) =~= dot);
}

/// A path that ends in a name is not trimmed, and the name starts behind the directory.
proof fn lemma_plain_path(directory: Seq<u8>, name: Seq<u8>)
    requires
        directory.len() == 0 || directory.last() == 47u8,
        name.len() > 0,
        !name.contains(47u8),
        name != seq![46u8],
    ensures
        trimmed(directory + name) == directory + name,
        name_start(directory + name) == directory.len(),
{
    let path = directory + name;
    assert(path.last() == name.last());
    assert(name.contains(name.last()));
    if name.len() == 1 && name[0] == 46u8 {
        assert(name =~= seq![46u8]);
    }
    if name.len() > 1 {
        assert(path[path.len() - 2] == name[name.len() - 2]);
        assert(name.contains(name[name.len() - 2]));
    }
    lemma_name_start_append(directory, name);
}

/// Separators and `.` components at the end are trimmed.
proof fn lemma_trailing_separator(path: Seq<u8>)
    ensures
        trimmed(path + seq![47u8]) == trimmed(path),
        trimmed(path + seq![47u8, 46]) == trimmed(path),
{
    let once = path + seq![47u8];
    let twice = path + seq![47u8, 46];
    assert(once.drop_last() =~= path);
    assert(twice.drop_last() =~= once);
    assert(trimmed(once) == trimmed(path));
    assert(twice.last() == DOT && twice[twice.len() - 2] == SLASH);
    assert(trimmed(twice) == trimmed(once));
}

/// A relative path that is joined to a directory stands behind it, with exactly one separator
/// between them unless the directory is empty or ends in one. An absolute path stands alone.
pub proof fn law_join_adds_one_separator(directory: Seq<u8>, path: Seq<u8>)
    ensures
        path.len() > 0 && path[0] == 47u8 ==> joined(directory, path) == path,
        !(path.len() > 0 && path[0] == 47u8) ==> {
            let result = joined(directory, path);
            let between = result.len() - directory.len() - path.len();
            &&& result.take(directory.len() as int) == directory
            &&& result.skip(result.len() - path.len()) == path
            &&& directory.len() == 0 || directory.last() == 47u8 ==> between == 0
            &&& directory.len() > 0 && directory.last() != 47u8 ==> between == 1
                && result[directory.len() as int] == 47u8
        },
{
    if !(path.len() > 0 && path[0] == 47u8) {
        let result = joined(directory, path);
        assert(result.take(directory.len() as int) =~= directory);
        assert(result.skip(result.len() - path.len()) =~= path);
    }
}

/// The extension behind the last dot of a name is replaced by another one, or comes off for an
/// empty one; a dot in front of a name starts no extension. What stands before the name stays.
pub proof fn law_extension_is_replaced(
    directory: Seq<u8>,
    stem: Seq<u8>,
    old_extension: Seq<u8>,
    extension: Seq<u8>,
)
    requires
        directory.len() == 0 || directory.last() == 47u8,
        stem.len() > 0,
        !stem.contains(47u8),
        !old_extension.contains(47u8),
        !old_extension.contains(46u8),
        stem != seq![46u8] || old_extension.len() > 0,
    ensures
        with_extension(directory + stem + seq![46u8] + old_extension, extension) == directory
            + stem + (if extension.len() == 0 {
            Seq::empty()
        } else {
            seq![46u8] + extension
        }),
{
    let name = stem + seq![46u8] + old_extension;
    let path = directory + name;
    assert(directory + stem + seq![46u8] + old_extension =~= path);
    assert forall|i: int| 0 <= i < name.len() implies name[i] != 47u8 by {
        if i < stem.len() {
            assert(stem.contains(stem[i]));
        } else if i > stem.len() {
            assert(old_extension.contains(old_extension[i - stem.len() - 1]));
        }
    }
    if name == seq![46u8, 46] {
        assert(name.len() == 2);
        assert(name[0] == 46u8);
        assert(stem =~= seq![46u8]);
    }
    if name == seq![46u8] {
        assert(name.len() == 1);
    }
    lemma_plain_path(directory, name);
    assert(path.skip(directory.len() as int) =~= name);
    assert(path.take(directory.len() as int) =~= directory);
    let dotted = stem + seq![46u8];
    lemma_last_dot_append(dotted, old_extension);
    assert(file_stem(name) =~= stem);
    assert(with_extension(path, extension) =~= directory + stem + (if extension.len() == 0 {
        Seq::empty()
    } else {
        seq![46u8] + extension
    }));
}

/// A name without a dot, but perhaps one in front, gets the extension behind it.
pub proof fn law_extension_is_added(directory: Seq<u8>, name: Seq<u8>, extension: Seq<u8>)
    requires
        directory.len() == 0 || directory.last() == 47u8,
        name.len() > 0,
        !name.contains(47u8),
        !name.drop_first().contains(46u8),
        name != seq![46u8],
    ensures
        with_extension(directory + name, extension) == directory + name + (if extension.len() == 0 {
            Seq::empty()
        } else {
            seq![46u8] + extension
        }),
{
    let path = directory + name;
    let rest = name.drop_first();
    if name == seq![46u8, 46] {
        assert(rest[0] == 46u8);
        assert(rest.contains(rest[0]));
    }
    lemma_plain_path(directory, name);
    assert(path.skip(directory.len() as int) =~= name);
    assert(path.take(directory.len() as int) =~= directory);
    let first = seq![name[0]];
    reveal_with_fuel(last_dot, 2);
    assert(last_dot(first) == 0);
    lemma_last_dot_append(first, rest);
    assert(first + rest =~= name);
    assert(with_extension(path, extension) =~= directory + name + (if extension.len() == 0 {
        Seq::empty()
    } else {
        seq![46u8] + extension
    }));
}

/// Separators and `.` components behind the file name come off with its extension. A path
/// without a file name keeps everything.
pub proof fn law_extension_goes_to_file_name(path: Seq<u8>, extension: Seq<u8>)
    ensures
        file_name(path) is Some ==> {
            &&& with_extension(path + seq![47u8], extension) == with_extension(path, extension)
            &&& with_extension(path + seq![47u8, 46], extension) == with_extension(path, extension)
        },
        file_name(path) is None ==> with_extension(path, extension) == path,
{
    lemma_trailing_separator(path);
}

} // verus!
