//! Paths of a Unix host: bytes, read as a root and components the way the system reads them.
use crate::bytes::{byte_views, copy_bytes, copy_range, same_bytes, split_on};
use crate::text::{decode_lossily, decode_strictly, readable};
use vstd::prelude::*;
use vstd::utf8::{decode_utf8, encode_utf8, valid_utf8};

verus! {

/// A path. Its view is its bytes.
///
/// Paths are equal where they have the same root and the same components, however they are
/// spelled: `/a/b` equals `/a//b/`. The hash goes by the components as well.
#[derive(Debug, Hash)]
pub struct HostPath {
    components: Vec<Vec<u8>>,
    spelling: Spelling,
}

/// The bytes of a path. They have no part in its hash.
#[derive(Debug)]
struct Spelling {
    bytes: Vec<u8>,
}

impl std::hash::Hash for Spelling {
    fn hash<H: std::hash::Hasher>(&self, state: &mut H)
        ensures
            *final(state) == *old(state),
    {
    }
}

impl View for HostPath {
    type V = Seq<u8>;

    closed spec fn view(&self) -> Seq<u8> {
        self.spelling.bytes@
    }
}

impl PartialEq for HostPath {
    fn eq(&self, other: &HostPath) -> (equal: bool)
        ensures
            equal == same_path(self@, other@),
    {
        self.same(other)
    }
}

impl vstd::std_specs::cmp::PartialEqSpecImpl for HostPath {
    open spec fn obeys_eq_spec() -> bool {
        true
    }

    open spec fn eq_spec(&self, other: &HostPath) -> bool {
        same_path(self@, other@)
    }
}

impl Eq for HostPath {

}

/// The separator, `/`.
pub const SEPARATOR: u8 = 47;

/// A path is absolute where it starts with the root.
pub open spec fn is_absolute_path(path: Seq<u8>) -> bool {
    path.len() > 0 && path[0] == SEPARATOR
}

/// How many bytes the root takes.
pub open spec fn root_length(path: Seq<u8>) -> int {
    if is_absolute_path(path) {
        1
    } else {
        0
    }
}

/// Whether a piece between separators counts: it is not empty, and it is not `.` unless it comes
/// first.
pub open spec fn is_component(piece: Seq<u8>, at: int) -> bool {
    piece.len() > 0 && !(at > 0 && piece == seq![46u8])
}

/// The pieces that count.
pub open spec fn counted(pieces: Seq<Seq<u8>>) -> Seq<Seq<u8>>
    decreases pieces.len(),
{
    if pieces.len() == 0 {
        Seq::empty()
    } else if is_component(pieces.last(), pieces.len() - 1) {
        counted(pieces.drop_last()).push(pieces.last())
    } else {
        counted(pieces.drop_last())
    }
}

/// The components of a path, without its root.
pub open spec fn components_of(path: Seq<u8>) -> Seq<Seq<u8>> {
    counted(split_on(path, SEPARATOR))
}

/// Two paths are the same where they have the same root and the same components.
pub open spec fn same_path(left: Seq<u8>, right: Seq<u8>) -> bool {
    is_absolute_path(left) == is_absolute_path(right) && components_of(left) == components_of(
        right,
    )
}

/// A path lies at or beneath another where it starts with the other's root and components; every
/// path starts with one that has neither.
pub open spec fn beneath(path: Seq<u8>, base: Seq<u8>) -> bool {
    ||| !is_absolute_path(base) && components_of(base).len() == 0
    ||| is_absolute_path(path) == is_absolute_path(base) && components_of(base).is_prefix_of(
        components_of(path),
    )
}

/// The path without separators and `.` pieces at its end.
pub open spec fn trimmed(path: Seq<u8>) -> Seq<u8>
    decreases path.len(),
{
    if path.len() <= root_length(path) {
        path
    } else if path.last() == SEPARATOR {
        trimmed(path.drop_last())
    } else if path.len() >= 2 && path.last() == 46 && path[path.len() - 2] == SEPARATOR {
        trimmed(path.drop_last())
    } else {
        path
    }
}

/// The path up to its last piece.
pub open spec fn without_last_piece(path: Seq<u8>) -> Seq<u8>
    decreases path.len(),
{
    if path.len() == 0 || path.last() == SEPARATOR {
        path
    } else {
        without_last_piece(path.drop_last())
    }
}

/// Whether the path names anything besides the root.
pub open spec fn has_body(path: Seq<u8>) -> bool {
    trimmed(path).len() > root_length(path)
}

/// The path that contains this one; none where it names nothing besides the root.
pub open spec fn parent_of(path: Seq<u8>) -> Option<Seq<u8>> {
    if has_body(path) {
        Some(trimmed(without_last_piece(trimmed(path))))
    } else {
        None
    }
}

/// `path` within `base`, unless it is absolute.
pub open spec fn joined_path(base: Seq<u8>, path: Seq<u8>) -> Seq<u8> {
    if is_absolute_path(path) {
        path
    } else if base.len() == 0 || base.last() == SEPARATOR {
        base + path
    } else {
        base.push(SEPARATOR) + path
    }
}

/// Where the last piece of the path starts.
pub open spec fn name_start(path: Seq<u8>) -> int {
    without_last_piece(trimmed(path)).len() as int
}

/// The last component, where it is a name: not `.` or `..`.
pub open spec fn file_name_of(path: Seq<u8>) -> Option<Seq<u8>> {
    let name = trimmed(path).skip(name_start(path));
    if !has_body(path) || name == seq![46u8] || name == seq![46u8, 46u8] {
        None
    } else {
        Some(name)
    }
}

/// Where the last dot of a name stands, if it has one that is not its first byte; zero otherwise.
pub open spec fn extension_dot(name: Seq<u8>) -> int
    decreases name.len(),
{
    if name.len() <= 1 {
        0
    } else if name.last() == 46 {
        name.len() - 1
    } else {
        extension_dot(name.drop_last())
    }
}

/// What follows the last dot of the file name, if there is a dot that does not start the name.
pub open spec fn extension_of(path: Seq<u8>) -> Option<Seq<u8>> {
    match file_name_of(path) {
        None => None,
        Some(name) => if extension_dot(name) > 0 {
            Some(name.skip(extension_dot(name) + 1))
        } else {
            None
        },
    }
}

/// The path up to the end of its file name without extension.
pub open spec fn stem_of(path: Seq<u8>) -> Seq<u8> {
    let name = file_name_of(path)->0;
    if extension_dot(name) > 0 {
        trimmed(path).take(name_start(path) + extension_dot(name))
    } else {
        trimmed(path)
    }
}

/// The path with `extension` in place of its own; unchanged where it has no file name.
pub open spec fn replaced_extension(path: Seq<u8>, extension: Seq<u8>) -> Seq<u8> {
    if file_name_of(path) is Some {
        stem_of(path).push(46) + extension
    } else {
        path
    }
}

pub proof fn lemma_pieces_not_empty(path: Seq<u8>)
    ensures
        split_on(path, SEPARATOR).len() >= 1,
    decreases path.len(),
{
    if path.len() > 0 {
        lemma_pieces_not_empty(path.drop_last());
    }
}

proof fn lemma_trim_step(path: Seq<u8>)
    requires
        path.len() > 0,
        path.last() == SEPARATOR || path.len() >= 2 && path.last() == 46 && path[path.len() - 2]
            == SEPARATOR,
    ensures
        components_of(path.drop_last()) == components_of(path),
{
    let before = split_on(path.drop_last(), SEPARATOR);
    let pieces = split_on(path, SEPARATOR);
    lemma_pieces_not_empty(path.drop_last());
    if path.last() == SEPARATOR {
        assert(pieces.drop_last() =~= before);
    } else {
        let shorter = path.drop_last();
        lemma_pieces_not_empty(shorter.drop_last());
        let first = split_on(shorter.drop_last(), SEPARATOR);
        assert(before.last() =~= Seq::empty());
        assert(pieces.last() =~= seq![46u8]);
        assert(pieces.drop_last() =~= first);
        assert(before.drop_last() =~= first);
    }
}

/// Trimming keeps the root and the components.
pub proof fn lemma_trimmed_same(path: Seq<u8>)
    ensures
        components_of(trimmed(path)) == components_of(path),
        is_absolute_path(trimmed(path)) == is_absolute_path(path),
        trimmed(path).is_prefix_of(path),
    decreases path.len(),
{
    if path.len() > root_length(path) && (path.last() == SEPARATOR || path.len() >= 2
        && path.last() == 46 && path[path.len() - 2] == SEPARATOR) {
        lemma_trim_step(path);
        lemma_trimmed_same(path.drop_last());
        let end = trimmed(path);
        assert(end =~= path.subrange(0, end.len() as int));
    } else {
        assert(path.subrange(0, path.len() as int) =~= path);
    }
}

/// A path names something besides the root exactly where it has components.
pub proof fn lemma_body_is_components(path: Seq<u8>)
    ensures
        has_body(path) <==> components_of(path).len() > 0,
{
    lemma_trimmed_same(path);
    let end = trimmed(path);
    lemma_trimmed_end(path);
    if end.len() > root_length(end) {
        lemma_last_piece(end);
    } else if end.len() == 0 {
        assert(split_on(end, SEPARATOR) =~= seq![Seq::empty()]);
        reveal_with_fuel(counted, 2);
    } else {
        assert(end.drop_last() =~= Seq::empty());
        reveal_with_fuel(split_on, 2);
        reveal_with_fuel(counted, 3);
        assert(split_on(end, SEPARATOR) =~= seq![Seq::empty(), Seq::empty()]);
    }
}

/// What is left after trimming ends neither in a separator nor in a `.` piece.
proof fn lemma_trimmed_end(path: Seq<u8>)
    ensures
        root_length(trimmed(path)) == root_length(path),
        trimmed(path).len() > root_length(path) ==> {
            let end = trimmed(path);
            &&& end.last() != SEPARATOR
            &&& !(end.len() >= 2 && end.last() == 46 && end[end.len() - 2] == SEPARATOR)
        },
    decreases path.len(),
{
    lemma_trimmed_same(path);
    if path.len() > root_length(path) && (path.last() == SEPARATOR || path.len() >= 2
        && path.last() == 46 && path[path.len() - 2] == SEPARATOR) {
        lemma_trimmed_end(path.drop_last());
    }
}

/// The last piece of a trimmed path counts as its last component, and ends as the path does.
proof fn lemma_last_piece(path: Seq<u8>)
    requires
        path.len() > root_length(path),
        path.last() != SEPARATOR,
        !(path.len() >= 2 && path.last() == 46 && path[path.len() - 2] == SEPARATOR),
    ensures
        components_of(path).len() > 0,
        components_of(path).last().len() > 0,
        components_of(path).last().last() == path.last(),
{
    let pieces = split_on(path, SEPARATOR);
    let before = split_on(path.drop_last(), SEPARATOR);
    lemma_pieces_not_empty(path.drop_last());
    assert(pieces.last() == before.last().push(path.last()));
    assert(pieces.last().last() == path.last());
    if pieces.last() == seq![46u8] && pieces.len() > 1 {
        assert(pieces.last().drop_last() =~= before.last());
        assert(before.last().len() == 0);
        assert(path.last() == 46);
        assert(before.len() == pieces.len());
        let shorter = path.drop_last();
        if shorter.len() == 0 {
            assert(before =~= seq![Seq::empty()]);
        } else if shorter.last() != SEPARATOR {
            lemma_pieces_not_empty(shorter.drop_last());
            assert(before.last().len() > 0);
        }
    }
}

/// Two trimmed paths that end in different bytes are different paths.
pub proof fn lemma_different_ends(left: Seq<u8>, right: Seq<u8>)
    requires
        left.len() > root_length(left),
        right.len() > root_length(right),
        left.last() != SEPARATOR,
        right.last() != SEPARATOR,
        left.last() != 46,
        right.last() != 46,
        left.last() != right.last(),
    ensures
        !same_path(left, right),
{
    lemma_last_piece(left);
    lemma_last_piece(right);
}

/// The components of a path that is followed by a separator and a piece.
proof fn lemma_components_extend(path: Seq<u8>, piece: Seq<u8>)
    requires
        forall|i: int| 0 <= i < piece.len() ==> piece[i] != SEPARATOR,
    ensures
        split_on(path.push(SEPARATOR) + piece, SEPARATOR) == split_on(path, SEPARATOR).push(
            piece,
        ),
    decreases piece.len(),
{
    let whole = path.push(SEPARATOR) + piece;
    if piece.len() == 0 {
        assert(whole =~= path.push(SEPARATOR));
        assert(whole.drop_last() =~= path);
        assert(piece =~= Seq::empty());
    } else {
        lemma_components_extend(path, piece.drop_last());
        assert(whole.drop_last() =~= path.push(SEPARATOR) + piece.drop_last());
        assert(whole.last() == piece.last());
        let before = split_on(whole.drop_last(), SEPARATOR);
        assert(before.drop_last() =~= split_on(path, SEPARATOR));
        assert(before.last().push(piece.last()) =~= piece);
    }
}

/// What comes before the last piece: it ends in a separator, and the last piece holds none.
proof fn lemma_last_piece_split(path: Seq<u8>)
    ensures
        without_last_piece(path).is_prefix_of(path),
        forall|i: int| without_last_piece(path).len() <= i < path.len() ==> path[i] != SEPARATOR,
        without_last_piece(path).len() > 0 ==> without_last_piece(path).last() == SEPARATOR,
    decreases path.len(),
{
    if path.len() == 0 || path.last() == SEPARATOR {
        assert(path.subrange(0, path.len() as int) =~= path);
    } else {
        lemma_last_piece_split(path.drop_last());
        let start = without_last_piece(path);
        assert(start =~= path.subrange(0, start.len() as int));
        assert forall|i: int| start.len() <= i < path.len() implies path[i] != SEPARATOR by {
            if i < path.len() - 1 {
                assert(path.drop_last()[i] == path[i]);
            }
        }
    }
}

/// The parent of a path has its components but the last, and the same root.
pub proof fn parent_drops_the_last_component(path: Seq<u8>)
    requires
        parent_of(path) is Some,
    ensures
        components_of(parent_of(path)->0) == components_of(path).drop_last(),
        is_absolute_path(parent_of(path)->0) == is_absolute_path(path),
        beneath(path, parent_of(path)->0),
{
    let end = trimmed(path);
    let start = without_last_piece(end);
    let piece = end.skip(start.len() as int);
    lemma_trimmed_same(path);
    lemma_trimmed_end(path);
    lemma_last_piece_split(end);
    lemma_trimmed_same(start);
    lemma_last_piece(end);
    assert(end =~= start + piece);
    assert(start == end.subrange(0, start.len() as int));
    assert(components_of(start) == components_of(end).drop_last()) by {
        if start.len() == 0 {
            assert(piece =~= end);
            lemma_single_piece(end);
            assert(components_of(start) =~= Seq::empty()) by {
                assert(split_on(start, SEPARATOR) =~= seq![Seq::empty()]);
                reveal_with_fuel(counted, 2);
            }
            assert(components_of(end) =~= seq![end]) by {
                reveal_with_fuel(counted, 2);
            }
        } else {
            let before = start.drop_last();
            assert(start =~= before.push(SEPARATOR));
            lemma_components_extend(before, piece);
            let pieces = split_on(end, SEPARATOR);
            assert(pieces.drop_last() =~= split_on(before, SEPARATOR));
            lemma_trim_step(start);
            lemma_pieces_not_empty(before);
            assert(piece.len() > 0);
            if piece == seq![46u8] {
                assert(piece[0] == 46);
                assert(end.last() == 46);
                assert(end[end.len() - 2] == SEPARATOR);
            }
            assert(is_component(pieces.last(), pieces.len() - 1));
            assert(components_of(end) == counted(pieces.drop_last()).push(piece));
            assert(components_of(end).drop_last() =~= components_of(before));
        }
    }
    assert(is_absolute_path(start) == is_absolute_path(end)) by {
        if start.len() > 0 {
            assert(start[0] == end[0]);
        } else if end.len() > 0 {
            assert(end[0] != SEPARATOR);
        }
    }
    let comps = components_of(path);
    assert(comps.drop_last() =~= comps.subrange(0, comps.len() - 1));
}

/// The parent of a path is shorter than the path.
pub proof fn lemma_parent_shorter(path: Seq<u8>)
    requires
        parent_of(path) is Some,
    ensures
        parent_of(path)->0.len() < path.len(),
{
    let end = trimmed(path);
    lemma_trimmed_same(path);
    lemma_trimmed_end(path);
    lemma_last_piece_split(end.drop_last());
    lemma_trimmed_same(without_last_piece(end));
    assert(without_last_piece(end) == without_last_piece(end.drop_last()));
}

proof fn lemma_single_piece(path: Seq<u8>)
    requires
        forall|i: int| 0 <= i < path.len() ==> path[i] != SEPARATOR,
    ensures
        split_on(path, SEPARATOR) == seq![path],
    decreases path.len(),
{
    if path.len() == 0 {
        assert(path =~= Seq::empty());
    } else {
        lemma_single_piece(path.drop_last());
        let before = split_on(path.drop_last(), SEPARATOR);
        assert(before.drop_last() =~= Seq::empty());
        assert(path.drop_last().push(path.last()) =~= path);
        assert(split_on(path, SEPARATOR) =~= seq![path]);
    }
}

/// How many bytes of the path are left after trimming.
fn trimmed_length(bytes: &[u8]) -> (length: usize)
    ensures
        length <= bytes@.len(),
        bytes@.take(length as int) == trimmed(bytes@),
{
    let root: usize = if bytes.len() > 0 && bytes[0] == SEPARATOR {
        1
    } else {
        0
    };
    let mut length: usize = bytes.len();
    let mut trimming = true;
    assert(bytes@.take(length as int) =~= bytes@);
    while trimming && length > root
        invariant
            root == root_length(bytes@),
            root <= length <= bytes@.len(),
            trimmed(bytes@.take(length as int)) == trimmed(bytes@),
            root_length(bytes@.take(length as int)) == root,
            !trimming ==> trimmed(bytes@.take(length as int)) == bytes@.take(length as int),
        decreases length,
            (if trimming {
                1int
            } else {
                0int
            }),
    {
        let ghost here = bytes@.take(length as int);
        proof {
            assert(here.drop_last() =~= bytes@.take(length - 1));
            assert(here.last() == bytes@[length - 1]);
        }
        if bytes[length - 1] == SEPARATOR || (length >= 2 && bytes[length - 1] == 46
            && bytes[length - 2] == SEPARATOR) {
            length -= 1;
        } else {
            trimming = false;
        }
    }
    length
}

/// How many bytes stand before the last piece of the first `length` bytes.
fn piece_start(bytes: &[u8], length: usize) -> (start: usize)
    requires
        length <= bytes@.len(),
    ensures
        start <= length,
        bytes@.take(start as int) == without_last_piece(bytes@.take(length as int)),
{
    let mut start: usize = length;
    while start > 0 && bytes[start - 1] != SEPARATOR
        invariant
            start <= length <= bytes@.len(),
            without_last_piece(bytes@.take(start as int)) == without_last_piece(
                bytes@.take(length as int),
            ),
        decreases start,
    {
        assert(bytes@.take(start as int).drop_last() =~= bytes@.take(start - 1));
        start -= 1;
    }
    start
}

impl Clone for HostPath {
    fn clone(&self) -> (copy: Self)
        ensures
            copy@ == self@,
    {
        HostPath::from_bytes(copy_bytes(self.as_bytes()))
    }
}

/// A list of paths, by their bytes.
pub open spec fn path_views(paths: Seq<HostPath>) -> Seq<Seq<u8>> {
    Seq::new(paths.len(), |i: int| paths[i]@)
}

impl HostPath {
    #[verifier::type_invariant]
    closed spec fn keeps_its_components(self) -> bool {
        byte_views(self.components@) == components_of(self.spelling.bytes@)
    }

    pub fn from_bytes(bytes: Vec<u8>) -> (path: Self)
        ensures
            path@ == bytes@,
    {
        HostPath { components: split_components(&bytes), spelling: Spelling { bytes } }
    }

    pub fn from_text(text: &str) -> (path: Self)
        ensures
            path@ == encode_utf8(text@),
    {
        HostPath::from_bytes(copy_bytes(text.as_bytes()))
    }

    pub fn as_bytes(&self) -> (bytes: &[u8])
        ensures
            bytes@ == self@,
    {
        self.spelling.bytes.as_slice()
    }

    pub fn is_absolute(&self) -> (absolute: bool)
        ensures
            absolute == is_absolute_path(self@),
    {
        let bytes = self.as_bytes();
        bytes.len() > 0 && bytes[0] == SEPARATOR
    }

    /// The components of the path, without its root.
    pub fn components(&self) -> (components: &Vec<Vec<u8>>)
        ensures
            byte_views(components@) == components_of(self@),
    {
        proof {
            use_type_invariant(self);
        }
        &self.components
    }

    /// Whether both are the same path.
    pub fn same(&self, other: &HostPath) -> (same: bool)
        ensures
            same == same_path(self@, other@),
    {
        if self.is_absolute() != other.is_absolute() {
            return false;
        }
        let left = self.components();
        let right = other.components();
        if left.len() != right.len() {
            assert(byte_views(left@).len() != byte_views(right@).len());
            return false;
        }
        let same = shares_components(left, right);
        proof {
            if same {
                assert(byte_views(left@) =~= byte_views(right@));
            } else {
                let i = choose|i: int| 0 <= i < left@.len() && #[trigger] left@[i]@ != right@[i]@;
                assert(byte_views(left@)[i] != byte_views(right@)[i]);
            }
        }
        same
    }

    /// Whether this path lies at or beneath `base`.
    pub fn starts_with(&self, base: &HostPath) -> (starts: bool)
        ensures
            starts == beneath(self@, base@),
    {
        let whole = self.components();
        let start = base.components();
        if start.len() == 0 && !base.is_absolute() {
            assert(byte_views(start@).len() == 0);
            return true;
        }
        assert(byte_views(start@).len() == start@.len());
        if self.is_absolute() != base.is_absolute() {
            return false;
        }
        if whole.len() < start.len() {
            assert(byte_views(whole@).len() < byte_views(start@).len());
            return false;
        }
        let starts = shares_components(start, whole);
        proof {
            let front = byte_views(whole@).subrange(0, start@.len() as int);
            if starts {
                assert(byte_views(start@) =~= front);
            } else {
                let i = choose|i: int| 0 <= i < start@.len() && #[trigger] start@[i]@ != whole@[i]@;
                assert(byte_views(start@)[i] != front[i]);
            }
        }
        starts
    }

    /// The path that contains this one.
    pub fn parent(&self) -> (parent: Option<HostPath>)
        ensures
            match parent_of(self@) {
                None => parent is None,
                Some(bytes) => parent is Some && parent->0@ == bytes,
            },
    {
        let bytes = self.as_bytes();
        let length = trimmed_length(bytes);
        let root: usize = if self.is_absolute() {
            1
        } else {
            0
        };
        if length <= root {
            return None;
        }
        let start = piece_start(bytes, length);
        let front = copy_range(bytes, 0, start);
        assert(front@ =~= bytes@.take(start as int));
        let end = trimmed_length(front.as_slice());
        let parent = copy_range(front.as_slice(), 0, end);
        assert(parent@ =~= front@.take(end as int));
        Some(HostPath::from_bytes(parent))
    }

    /// Whether the path names anything besides the root.
    pub fn has_parent(&self) -> (has: bool)
        ensures
            has == (parent_of(self@) is Some),
    {
        let root: usize = if self.is_absolute() {
            1
        } else {
            0
        };
        trimmed_length(self.as_bytes()) > root
    }

    /// `path` within this one, unless it is absolute.
    pub fn join(&self, path: &HostPath) -> (joined: HostPath)
        ensures
            joined@ == joined_path(self@, path@),
    {
        if path.is_absolute() {
            return path.clone();
        }
        let mut bytes = copy_bytes(self.as_bytes());
        let length = bytes.len();
        if length > 0 && bytes[length - 1] != SEPARATOR {
            bytes.push(SEPARATOR);
        }
        let mut rest = copy_bytes(path.as_bytes());
        bytes.append(&mut rest);
        assert(bytes@ =~= joined_path(self@, path@));
        HostPath::from_bytes(bytes)
    }

    /// The last component, where it is a name.
    pub fn file_name(&self) -> (name: Option<Vec<u8>>)
        ensures
            match file_name_of(self@) {
                None => name is None,
                Some(bytes) => name is Some && name->0@ == bytes,
            },
    {
        if !self.has_parent() {
            return None;
        }
        let bytes = self.as_bytes();
        let length = trimmed_length(bytes);
        let start = piece_start(bytes, length);
        let name = copy_range(bytes, start, length);
        proof {
            assert(bytes@.take(start as int).len() == start);
            assert(name@ =~= trimmed(self@).skip(name_start(self@)));
            assert(name@.len() == 1 && name@[0] == 46 ==> name@ =~= seq![46u8]);
            assert(name@.len() == 2 && name@[0] == 46 && name@[1] == 46 ==> name@ =~= seq![46u8, 46u8]);
        }
        if (name.len() == 1 && name[0] == 46) || (name.len() == 2 && name[0] == 46 && name[1]
            == 46) {
            return None;
        }
        Some(name)
    }

    /// What follows the last dot of the file name.
    pub fn extension(&self) -> (extension: Option<Vec<u8>>)
        ensures
            match extension_of(self@) {
                None => extension is None,
                Some(bytes) => extension is Some && extension->0@ == bytes,
            },
    {
        match self.file_name() {
            None => None,
            Some(name) => {
                let length = name.len();
                let dot = find_extension_dot(name.as_slice());
                if dot > 0 {
                    let extension = copy_range(name.as_slice(), dot + 1, length);
                    assert(extension@ =~= name@.skip(dot + 1));
                    Some(extension)
                } else {
                    None
                }
            },
        }
    }

    /// The path with `extension` in place of its own.
    pub fn with_extension(&self, extension: &str) -> (path: HostPath)
        ensures
            path@ == replaced_extension(self@, encode_utf8(extension@)),
    {
        match self.file_name() {
            None => self.clone(),
            Some(name) => {
                let bytes = self.as_bytes();
                let length = trimmed_length(bytes);
                let dot = find_extension_dot(name.as_slice());
                proof {
                    lemma_last_piece_split(trimmed(self@));
                    assert(trimmed(self@).len() == length);
                    assert(name@.len() == length - name_start(self@));
                }
                let end: usize = if dot > 0 {
                    length - (name.len() - dot)
                } else {
                    length
                };
                let mut result = copy_range(bytes, 0, end);
                assert(result@ =~= stem_of(self@));
                result.push(46);
                let mut rest = copy_bytes(extension.as_bytes());
                result.append(&mut rest);
                HostPath::from_bytes(result)
            },
        }
    }

    /// The path as text for people: bytes that are not UTF-8 are replaced.
    pub fn display(&self) -> (text: String)
        ensures
            text@ == readable(self@),
            valid_utf8(self@) ==> text@ == decode_utf8(self@),
    {
        decode_lossily(self.as_bytes())
    }

    /// The path as text, where it is valid UTF-8.
    pub fn to_text(&self) -> (text: Option<String>)
        ensures
            text is Some <==> valid_utf8(self@),
            text is Some ==> text->0@ == decode_utf8(self@),
    {
        decode_strictly(copy_bytes(self.as_bytes()))
    }
}

fn find_extension_dot(name: &[u8]) -> (dot: usize)
    ensures
        dot == extension_dot(name@),
        dot < name@.len() || dot == 0,
{
    let mut length: usize = name.len();
    assert(name@.take(length as int) =~= name@);
    while length > 1
        invariant
            length <= name@.len(),
            extension_dot(name@.take(length as int)) == extension_dot(name@),
        decreases length,
    {
        proof {
            assert(name@.take(length as int).drop_last() =~= name@.take(length - 1));
            assert(name@.take(length as int).last() == name@[length - 1]);
        }
        if name[length - 1] == 46 {
            return length - 1;
        }
        length -= 1;
    }
    0
}

fn finish_component(components: &mut Vec<Vec<u8>>, piece: Vec<u8>, first: bool)
    ensures
        byte_views(final(components)@) == if piece@.len() > 0 && (first || piece@ != seq![46u8]) {
            byte_views(old(components)@).push(piece@)
        } else {
            byte_views(old(components)@)
        },
{
    let dot = piece.len() == 1 && piece[0] == 46;
    proof {
        if piece@.len() == 1 && piece@[0] == 46 {
            assert(piece@ =~= seq![46u8]);
        }
    }
    if piece.len() > 0 && (first || !dot) {
        components.push(piece);
        assert(byte_views(components@) =~= byte_views(old(components)@).push(piece@));
    }
}

/// The components of a path with these bytes, without its root.
fn split_components(bytes: &Vec<u8>) -> (components: Vec<Vec<u8>>)
    ensures
        byte_views(components@) == components_of(bytes@),
{
    let mut components: Vec<Vec<u8>> = Vec::new();
    let mut piece: Vec<u8> = Vec::new();
    let mut first = true;
    let mut index: usize = 0;
    let ghost mut pieces: Seq<Seq<u8>> = Seq::empty();
    proof {
        assert(bytes@.take(0) =~= Seq::empty());
        assert(split_on(bytes@.take(0), SEPARATOR) =~= pieces.push(piece@));
        assert(byte_views(components@) =~= counted(pieces));
    }
    while index < bytes.len()
        invariant
            index <= bytes@.len(),
            split_on(bytes@.take(index as int), SEPARATOR) == pieces.push(piece@),
            byte_views(components@) == counted(pieces),
            first == (pieces.len() == 0),
        decreases bytes.len() - index,
    {
        let byte = bytes[index];
        let ghost here = bytes@.take(index + 1);
        let ghost before = pieces.push(piece@);
        proof {
            assert(here.drop_last() =~= bytes@.take(index as int));
            assert(here.last() == byte);
            assert(before.drop_last() =~= pieces);
        }
        if byte == SEPARATOR {
            finish_component(&mut components, piece, first);
            proof {
                assert(counted(before) == if is_component(piece@, pieces.len() as int) {
                    counted(pieces).push(piece@)
                } else {
                    counted(pieces)
                });
                pieces = before;
            }
            first = false;
            piece = Vec::new();
            assert(split_on(here, SEPARATOR) =~= pieces.push(piece@));
        } else {
            piece.push(byte);
            assert(split_on(here, SEPARATOR) =~= pieces.push(piece@));
        }
        index += 1;
    }
    proof {
        assert(bytes@.take(bytes@.len() as int) =~= bytes@);
        let all = pieces.push(piece@);
        assert(all.drop_last() =~= pieces);
    }
    finish_component(&mut components, piece, first);
    components
}

/// Whether `short` holds the first components of `long`.
fn shares_components(short: &Vec<Vec<u8>>, long: &Vec<Vec<u8>>) -> (shares: bool)
    requires
        short@.len() <= long@.len(),
    ensures
        shares <==> forall|i: int| 0 <= i < short@.len() ==> #[trigger] short@[i]@ == long@[i]@,
{
    let mut index: usize = 0;
    while index < short.len()
        invariant
            index <= short@.len() <= long@.len(),
            forall|i: int| 0 <= i < index ==> #[trigger] short@[i]@ == long@[i]@,
        decreases short.len() - index,
    {
        if !same_bytes(short[index].as_slice(), long[index].as_slice()) {
            assert(short@[index as int]@ != long@[index as int]@);
            return false;
        }
        index += 1;
    }
    true
}

proof fn lemma_last_piece_starts(path: Seq<u8>, start: int)
    requires
        0 <= start <= path.len(),
        start > 0 ==> path[start - 1] == SEPARATOR,
        forall|i: int| start <= i < path.len() ==> #[trigger] path[i] != SEPARATOR,
    ensures
        without_last_piece(path) == path.take(start),
    decreases path.len(),
{
    if start == path.len() {
        assert(path.take(start) =~= path);
    } else {
        let shorter = path.drop_last();
        assert forall|i: int| start <= i < shorter.len() implies #[trigger] shorter[i]
            != SEPARATOR by {
            assert(shorter[i] == path[i]);
        }
        lemma_last_piece_starts(shorter, start);
        assert(shorter.take(start) =~= path.take(start));
    }
}

/// The dot of an extension stands within the name.
proof fn lemma_extension_dot(name: Seq<u8>)
    ensures
        0 <= extension_dot(name),
        extension_dot(name) > 0 ==> extension_dot(name) < name.len(),
    decreases name.len(),
{
    if name.len() > 1 && name.last() != 46 {
        lemma_extension_dot(name.drop_last());
    }
}

/// A path with another extension lies in the same directory.
pub proof fn extensions_keep_the_directory(path: Seq<u8>, extension: Seq<u8>)
    requires
        file_name_of(path) is Some,
        extension.len() > 0,
        extension.last() != 46,
        forall|i: int| 0 <= i < extension.len() ==> #[trigger] extension[i] != SEPARATOR,
    ensures
        parent_of(replaced_extension(path, extension)) == parent_of(path),
        replaced_extension(path, extension).last() == extension.last(),
        replaced_extension(path, extension).len() > root_length(
            replaced_extension(path, extension),
        ),
{
    let end = trimmed(path);
    let name = file_name_of(path)->0;
    let start = name_start(path);
    let stem = stem_of(path);
    let changed = replaced_extension(path, extension);
    lemma_trimmed_end(path);
    lemma_last_piece_split(end);
    lemma_extension_dot(name);
    let before = without_last_piece(end);
    assert(start < end.len()) by {
        if start == end.len() {
            assert(before =~= end);
        }
    }
    assert(name.len() == end.len() - start);
    assert(stem.len() > start);
    assert forall|i: int| 0 <= i < stem.len() implies #[trigger] stem[i] == end[i] by {}
    assert forall|i: int| start <= i < changed.len() implies #[trigger] changed[i]
        != SEPARATOR by {
        if i < stem.len() {
            assert(changed[i] == end[i]);
        } else if i > stem.len() {
            assert(changed[i] == extension[i - stem.len() - 1]);
        }
    }
    assert(changed.last() == extension.last());
    assert(extension[extension.len() - 1] != SEPARATOR);
    if start > 0 {
        assert(changed[start - 1] == end[start - 1]);
        assert(end[start - 1] == before.last());
    }
    lemma_last_piece_starts(changed, start);
    assert(changed.take(start) =~= before);
    assert(trimmed(changed) == changed);
}

/// Whether bytes can stand as one name in a path.
pub open spec fn is_name(name: Seq<u8>) -> bool {
    &&& name.len() > 0
    &&& name != seq![46u8]
    &&& name != seq![46u8, 46u8]
    &&& forall|i: int| 0 <= i < name.len() ==> #[trigger] name[i] != 47
}

/// How a path ends that a name was joined to.
proof fn lemma_joined_name(base: Seq<u8>, name: Seq<u8>)
    requires
        is_name(name),
        base.len() > 0,
    ensures
        ({
            let path = joined_path(base, name);
            &&& components_of(path) == components_of(base).push(name)
            &&& is_absolute_path(path) == is_absolute_path(base)
            &&& path == base + name || path == base + seq![47u8] + name
            &&& trimmed(path) == path
            &&& without_last_piece(path) == path.take(path.len() - name.len())
            &&& path.skip(path.len() - name.len()) == name
        }),
{
    let path = joined_path(base, name);
    assert(!is_absolute_path(name)) by {
        assert(name[0] != 47);
    }
    let stem = if base.last() == SEPARATOR {
        base.drop_last()
    } else {
        base
    };
    assert(path =~= stem.push(SEPARATOR) + name);
    assert(path =~= base + name || path =~= base + seq![47u8] + name);
    lemma_components_extend(stem, name);
    lemma_pieces_not_empty(stem);
    let pieces = split_on(path, SEPARATOR);
    assert(pieces.drop_last() =~= split_on(stem, SEPARATOR));
    assert(components_of(path) == components_of(stem).push(name));
    if base.last() == SEPARATOR {
        assert(base =~= stem.push(SEPARATOR));
        lemma_trim_step(base);
    }
    assert(path.last() == name.last());
    assert(name[name.len() - 1] != 47);
    assert(path[path.len() - 2] == SEPARATOR && path.last() == 46 ==> name =~= seq![46u8]) by {
        if name.len() >= 2 {
            assert(path[path.len() - 2] == name[name.len() - 2]);
        }
    }
    assert(trimmed(path) == path);
    let start = path.len() - name.len();
    assert(path[start - 1] == SEPARATOR);
    assert forall|i: int| start <= i < path.len() implies #[trigger] path[i] != SEPARATOR by {
        assert(path[i] == name[i - start]);
    }
    lemma_last_piece_starts(path, start);
    assert(path.skip(start) =~= name);
}

/// A name that is joined to a path is its last component, behind those of the path; the path is
/// what contains it. A separator at the end of the path makes no difference.
pub proof fn names_are_joined_behind(base: Seq<u8>, name: Seq<u8>)
    requires
        is_name(name),
        base.len() > 0,
    ensures
        ({
            let path = joined_path(base, name);
            &&& components_of(path) == components_of(base).push(name)
            &&& is_absolute_path(path) == is_absolute_path(base)
            &&& file_name_of(path) == Some(name)
            &&& parent_of(path) is Some
            &&& same_path(parent_of(path)->0, base)
            &&& beneath(path, base)
            &&& !beneath(base, path)
            &&& path == base + name || path == base + seq![47u8] + name
        }),
{
    let path = joined_path(base, name);
    lemma_joined_name(base, name);
    parent_drops_the_last_component(path);
    assert(components_of(base).push(name).drop_last() =~= components_of(base));
    assert(components_of(base) =~= components_of(path).subrange(
        0,
        components_of(base).len() as int,
    ));
    assert(!components_of(path).is_prefix_of(components_of(base)));
}

/// An absolute path stays what it is, whatever it is joined to.
pub proof fn absolute_paths_are_not_joined(base: Seq<u8>, path: Seq<u8>)
    requires
        path.len() > 0,
        path[0] == 47,
    ensures
        is_absolute_path(path),
        joined_path(base, path) == path,
{
}

/// A path is the same with a separator at its end, or with a separator and a dot.
pub proof fn trailing_separators_do_not_count(path: Seq<u8>)
    requires
        path.len() > 0,
    ensures
        same_path(path, path.push(47)),
        same_path(path, path.push(47).push(46)),
{
    assert(path.push(47).drop_last() =~= path);
    lemma_trim_step(path.push(47));
    assert(path.push(47).push(46).drop_last() =~= path.push(47));
    lemma_trim_step(path.push(47).push(46));
}

/// To lie beneath is an order: every path lies beneath itself, what lies beneath a path lies
/// beneath all that the path lies beneath, and paths that lie beneath each other are the same.
pub proof fn lying_beneath_is_an_order(inner: Seq<u8>, middle: Seq<u8>, outer: Seq<u8>)
    ensures
        beneath(inner, inner),
        beneath(inner, middle) && beneath(middle, outer) && is_absolute_path(outer) ==> beneath(
            inner,
            outer,
        ),
        beneath(inner, middle) && beneath(middle, inner) && is_absolute_path(inner)
            && is_absolute_path(middle) ==> same_path(inner, middle),
{
    let first = components_of(inner);
    let second = components_of(middle);
    let third = components_of(outer);
    assert(first =~= first.subrange(0, first.len() as int));
    if beneath(inner, middle) && beneath(middle, outer) && is_absolute_path(outer) {
        assert(is_absolute_path(middle));
        assert(third =~= first.subrange(0, third.len() as int)) by {
            assert(second == first.subrange(0, second.len() as int));
            assert(third == second.subrange(0, third.len() as int));
            assert forall|i: int| 0 <= i < third.len() implies third[i] == first[i] by {
                assert(third[i] == second[i]);
            }
        }
    }
    if beneath(inner, middle) && beneath(middle, inner) && is_absolute_path(inner)
        && is_absolute_path(middle) {
        assert(first =~= second) by {
            assert(second == first.subrange(0, second.len() as int));
            assert(first == second.subrange(0, first.len() as int));
        }
    }
}

proof fn lemma_dot(stem: Seq<u8>, extension: Seq<u8>)
    requires
        stem.len() > 0,
        !extension.contains(46),
    ensures
        extension_dot(stem.push(46) + extension) == stem.len(),
    decreases extension.len(),
{
    let name = stem.push(46) + extension;
    if extension.len() > 0 {
        let shorter = extension.drop_last();
        assert(extension[extension.len() - 1] != 46);
        assert(name.drop_last() =~= stem.push(46) + shorter);
        assert(!shorter.contains(46)) by {
            if shorter.contains(46) {
                let i = choose|i: int| 0 <= i < shorter.len() && shorter[i] == 46;
                assert(extension[i] == 46);
            }
        }
        lemma_dot(stem, shorter);
    } else {
        assert(name =~= stem.push(46));
    }
}

/// A path as it stands before a name that is joined to it.
spec fn directory_form(base: Seq<u8>) -> Seq<u8> {
    if base.last() == SEPARATOR {
        base
    } else {
        base.push(SEPARATOR)
    }
}

proof fn lemma_named_parts(base: Seq<u8>, name: Seq<u8>)
    requires
        is_name(name),
        base.len() > 0,
    ensures
        joined_path(base, name) == directory_form(base) + name,
        trimmed(joined_path(base, name)) == joined_path(base, name),
        name_start(joined_path(base, name)) == directory_form(base).len(),
        file_name_of(joined_path(base, name)) == Some(name),
{
    assert(name[0] != 47);
    lemma_joined_name(base, name);
    names_are_joined_behind(base, name);
}

proof fn lemma_stem(before: Seq<u8>, stem: Seq<u8>, extension: Seq<u8>, other: Seq<u8>)
    ensures
        (before + (stem.push(46) + extension)).take((before.len() + stem.len()) as int).push(46)
            + other == before + (stem.push(46) + other),
{
    assert((before + (stem.push(46) + extension)).take((before.len() + stem.len()) as int).push(46)
        + other =~= before + (stem.push(46) + other));
}

/// What follows the last dot of a name is its extension, and only that is replaced: the file lies
/// where it did, under the same stem.
pub proof fn extensions_follow_the_last_dot(
    base: Seq<u8>,
    stem: Seq<u8>,
    extension: Seq<u8>,
    other: Seq<u8>,
)
    requires
        base.len() > 0,
        stem.len() > 0,
        !extension.contains(46),
        is_name(stem.push(46) + extension),
        is_name(stem.push(46) + other),
    ensures
        extension_of(joined_path(base, stem.push(46) + extension)) == Some(extension),
        replaced_extension(joined_path(base, stem.push(46) + extension), other) == joined_path(
            base,
            stem.push(46) + other,
        ),
{
    let name = stem.push(46) + extension;
    let path = joined_path(base, name);
    let before = directory_form(base);
    lemma_dot(stem, extension);
    lemma_named_parts(base, name);
    lemma_named_parts(base, stem.push(46) + other);
    assert(name.skip(stem.len() as int + 1) =~= extension);
    lemma_stem(before, stem, extension, other);
}

} // verus!
