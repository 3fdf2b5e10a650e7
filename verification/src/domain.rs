//! Strongly-typed domain structures for file handling.
//!
//! `RelativePath` and `FileName` are validated value types: their
//! constructors reject parent-directory markers, so a value of either type
//! can never steer a resolved path outside a tenant's storage root.
//! `HubStorage` resolves validated values to absolute path strings and
//! performs no checking of its own.
use vstd::prelude::*;

verus! {

use vstd::string::StrSliceExecFns;
use vstd::string::StringExecFns;

use crate::decimal::{dec_str, i32_dec_string, lemma_dec_str_chars, lemma_dec_str_injective};
use crate::pathtext::{filter_dots, find_parent, has_parent_piece, is_dot_seg, is_normal_seg,
    is_parent_seg, join_one, lemma_norm_segs_wf, lemma_pieces_wf, lemma_drop_dots_elem,
    lemma_render_concat, norm_segs, pieces, render_segments, render_segs, seg_is_dot,
    seg_is_parent, split_pieces, views_of};

/// Rejection reasons of the validating constructors.
#[derive(Debug)]
pub enum TypeConstraintError {
    InvalidPath,
    InvalidFileName,
}

/// Identifier of a hub owning a storage root.
#[derive(Debug)]
pub struct HubId(i32);

impl HubId {
    /// The identifier as a mathematical integer.
    pub closed spec fn spec_value(&self) -> int {
        self.0 as int
    }

    pub fn new(id: i32) -> (r: Self)
        ensures
            r.spec_value() == id as int,
    {
        Self(id)
    }

    pub fn value(&self) -> (r: i32)
        ensures
            r as int == self.spec_value(),
    {
        self.0
    }
}

impl Clone for HubId {
    fn clone(&self) -> (r: Self)
        ensures
            r.spec_value() == self.spec_value(),
    {
        Self(self.0)
    }
}

/// Path to the shared upload root (e.g. `./upload`).
#[derive(Debug)]
pub struct UploadRoot(String);

impl View for UploadRoot {
    type V = Seq<char>;

    closed spec fn view(&self) -> Seq<char> {
        self.0@
    }
}

impl UploadRoot {
    pub fn new(path: String) -> (r: Self)
        ensures
            r@ == path@,
    {
        Self(path)
    }

    pub fn as_path(&self) -> (r: &str)
        ensures
            r@ == self@,
    {
        self.0.as_str()
    }
}

impl Clone for UploadRoot {
    fn clone(&self) -> (r: Self)
        ensures
            r@ == self@,
    {
        Self(self.0.clone())
    }
}

/// Path relative to a hub's storage root, held in canonical form: the
/// normal segments, free of separators and of `.` and `..` markers.
#[derive(Debug)]
pub struct RelativePath {
    segments: Vec<String>,
}

impl View for RelativePath {
    type V = Seq<Seq<char>>;

    closed spec fn view(&self) -> Seq<Seq<char>> {
        views_of(self.segments@)
    }
}

impl RelativePath {
    /// Every segment is a normal one.
    pub open spec fn wf(&self) -> bool {
        forall|k: int| 0 <= k < self@.len() ==> is_normal_seg(#[trigger] self@[k])
    }

    /// Validates a path string: fails exactly when some component is a
    /// parent-directory marker; otherwise keeps the canonical segments.
    pub fn try_new(path: String) -> (r: Result<Self, TypeConstraintError>)
        ensures
            r is Ok <==> !has_parent_piece(path@),
            r matches Err(e) ==> e is InvalidPath,
            r matches Ok(p) ==> p@ == norm_segs(path@) && p.wf(),
    {
        let ps = split_pieces(path.as_str());
        if find_parent(&ps) {
            return Err(TypeConstraintError::InvalidPath);
        }
        let segs = filter_dots(ps);
        proof {
            lemma_norm_segs_wf(path@);
        }
        Ok(RelativePath { segments: segs })
    }

    /// Validates a path string; leading separators are ignored.
    pub fn try_from_str(input: &str) -> (r: Result<Self, TypeConstraintError>)
        ensures
            r is Ok <==> !has_parent_piece(input@),
            r matches Err(e) ==> e is InvalidPath,
            r matches Ok(p) ==> p@ == norm_segs(input@) && p.wf(),
    {
        Self::try_new(input.to_owned())
    }

    /// The empty path: the hub root itself, and the identity of `join`.
    pub fn root() -> (r: Self)
        ensures
            r@ == Seq::<Seq<char>>::empty(),
            r.wf(),
    {
        let r = RelativePath { segments: Vec::new() };
        proof {
            assert(r@ =~= Seq::<Seq<char>>::empty());
        }
        r
    }

    /// The canonical string form, segments joined by `'/'`.
    pub fn as_path(&self) -> (r: String)
        ensures
            r@ == render_segs(self@),
    {
        render_segments(&self.segments)
    }

    /// Ordered concatenation; total, and cannot introduce a traversal.
    pub fn join(&self, child: &RelativePath) -> (r: RelativePath)
        ensures
            r@ == self@ + child@,
    {
        let mut segs: Vec<String> = Vec::new();
        let mut i: usize = 0;
        while i < self.segments.len()
            invariant
                i <= self.segments@.len(),
                views_of(segs@) =~= self@.subrange(0, i as int),
            decreases self.segments@.len() - i,
        {
            let owned = self.segments[i].clone();
            proof {
                assert(views_of(segs@.push(owned)) =~= views_of(segs@).push(owned@));
                assert(self@.subrange(0, i as int).push(self@[i as int]) =~= self@.subrange(
                    0,
                    i + 1,
                ));
            }
            segs.push(owned);
            i = i + 1;
        }
        proof {
            assert(self@.subrange(0, self.segments@.len() as int) =~= self@);
        }
        let mut k: usize = 0;
        while k < child.segments.len()
            invariant
                k <= child.segments@.len(),
                views_of(segs@) =~= self@ + child@.subrange(0, k as int),
            decreases child.segments@.len() - k,
        {
            let owned = child.segments[k].clone();
            proof {
                assert(views_of(segs@.push(owned)) =~= views_of(segs@).push(owned@));
                assert((self@ + child@.subrange(0, k as int)).push(child@[k as int]) =~= self@
                    + child@.subrange(0, k + 1));
            }
            segs.push(owned);
            k = k + 1;
        }
        proof {
            assert(child@.subrange(0, child.segments@.len() as int) =~= child@);
        }
        RelativePath { segments: segs }
    }
}

impl Clone for RelativePath {
    fn clone(&self) -> (r: Self)
        ensures
            r@ == self@,
    {
        let root = Self::root();
        root.join(self)
    }
}

/// Acceptance condition of `FileName`: the string reads as exactly one
/// normal path component, with no root, current-directory or
/// parent-directory component.
pub open spec fn file_name_accepts(s: Seq<char>) -> bool {
    &&& !(s.len() > 0 && s[0] == '/')
    &&& pieces(s).len() > 0
    &&& !is_dot_seg(pieces(s)[0])
    &&& norm_segs(s).len() == 1
    &&& !is_parent_seg(norm_segs(s)[0])
}

/// Sanitized file name: a single normal path component.
#[derive(Debug)]
pub struct FileName(String);

impl View for FileName {
    type V = Seq<char>;

    closed spec fn view(&self) -> Seq<char> {
        self.0@
    }
}

impl FileName {
    /// Validates a file name: succeeds exactly when the string is one
    /// normal path component.
    pub fn try_new(value: String) -> (r: Result<Self, TypeConstraintError>)
        ensures
            r is Ok <==> file_name_accepts(value@),
            r matches Err(e) ==> e is InvalidFileName,
            r matches Ok(f) ==> f@ == norm_segs(value@)[0] && is_normal_seg(f@),
    {
        let n = value.as_str().unicode_len();
        if n > 0 && value.as_str().get_char(0) == '/' {
            return Err(TypeConstraintError::InvalidFileName);
        }
        let ps = split_pieces(value.as_str());
        if ps.len() == 0 {
            return Err(TypeConstraintError::InvalidFileName);
        }
        if seg_is_dot(ps[0].as_str()) {
            return Err(TypeConstraintError::InvalidFileName);
        }
        let mut segs = filter_dots(ps);
        if segs.len() != 1 {
            return Err(TypeConstraintError::InvalidFileName);
        }
        if seg_is_parent(segs[0].as_str()) {
            return Err(TypeConstraintError::InvalidFileName);
        }
        proof {
            lemma_pieces_wf(value@);
            lemma_drop_dots_elem(pieces(value@), 0);
        }
        match segs.pop() {
            Some(f) => Ok(FileName(f)),
            None => Err(TypeConstraintError::InvalidFileName),
        }
    }

    /// Validates a file name given as a slice.
    pub fn try_from_str(value: &str) -> (r: Result<Self, TypeConstraintError>)
        ensures
            r is Ok <==> file_name_accepts(value@),
            r matches Err(e) ==> e is InvalidFileName,
            r matches Ok(f) ==> f@ == norm_segs(value@)[0] && is_normal_seg(f@),
    {
        Self::try_new(value.to_owned())
    }

    pub fn as_str(&self) -> (r: &str)
        ensures
            r@ == self@,
    {
        self.0.as_str()
    }

    /// The stored string, for value-level reasoning about moves.
    pub closed spec fn spec_inner(&self) -> String {
        self.0
    }

    /// The stored string's characters are the name's view.
    pub proof fn lemma_inner_view(&self)
        ensures
            self.spec_inner()@ == self@,
    {
    }

    pub fn into_string(self) -> (r: String)
        ensures
            r == self.spec_inner(),
            r@ == self@,
    {
        self.0
    }

    /// The name as an owned path string.
    pub fn to_path_buf(&self) -> (r: String)
        ensures
            r@ == self@,
    {
        self.0.clone()
    }

    /// Whether the name carries one of the recognized image extensions.
    pub fn is_image(&self) -> (r: bool)
        ensures
            r == is_image_name(self@),
    {
        is_image_seg(self.0.as_str())
    }
}

impl Clone for FileName {
    fn clone(&self) -> (r: Self)
        ensures
            r@ == self@,
    {
        Self(self.0.clone())
    }
}

/// ASCII lowercasing of one character.
pub open spec fn lower_char(c: char) -> char {
    if c == 'A' {
        'a'
    } else if c == 'B' {
        'b'
    } else if c == 'C' {
        'c'
    } else if c == 'D' {
        'd'
    } else if c == 'E' {
        'e'
    } else if c == 'F' {
        'f'
    } else if c == 'G' {
        'g'
    } else if c == 'H' {
        'h'
    } else if c == 'I' {
        'i'
    } else if c == 'J' {
        'j'
    } else if c == 'K' {
        'k'
    } else if c == 'L' {
        'l'
    } else if c == 'M' {
        'm'
    } else if c == 'N' {
        'n'
    } else if c == 'O' {
        'o'
    } else if c == 'P' {
        'p'
    } else if c == 'Q' {
        'q'
    } else if c == 'R' {
        'r'
    } else if c == 'S' {
        's'
    } else if c == 'T' {
        't'
    } else if c == 'U' {
        'u'
    } else if c == 'V' {
        'v'
    } else if c == 'W' {
        'w'
    } else if c == 'X' {
        'x'
    } else if c == 'Y' {
        'y'
    } else if c == 'Z' {
        'z'
    } else {
        c
    }
}

/// ASCII lowercasing of a character sequence.
pub open spec fn lower_ascii(s: Seq<char>) -> Seq<char> {
    s.map_values(|c: char| lower_char(c))
}

/// The index of the last `'.'` in `f`, or `-1` if there is none.
pub open spec fn last_dot(f: Seq<char>) -> int
    decreases f.len(),
{
    if f.len() == 0 {
        -1
    } else if f.last() == '.' {
        f.len() - 1
    } else {
        last_dot(f.drop_last())
    }
}

/// The fixed, case-insensitive set of image extensions.
pub open spec fn image_ext(e: Seq<char>) -> bool {
    ||| lower_ascii(e) == seq!['p', 'n', 'g']
    ||| lower_ascii(e) == seq!['j', 'p', 'g']
    ||| lower_ascii(e) == seq!['j', 'p', 'e', 'g']
    ||| lower_ascii(e) == seq!['g', 'i', 'f']
    ||| lower_ascii(e) == seq!['w', 'e', 'b', 'p']
    ||| lower_ascii(e) == seq!['b', 'm', 'p']
    ||| lower_ascii(e) == seq!['s', 'v', 'g']
}

/// Whether a single file name has an image extension: there is a `'.'`
/// after the first character, and what follows the last one is in the set.
pub open spec fn is_image_name(f: Seq<char>) -> bool {
    last_dot(f) >= 1 && image_ext(f.subrange(last_dot(f) + 1, f.len() as int))
}

/// `last_dot` marks a dot with no later dot.
proof fn lemma_last_dot_bounds(f: Seq<char>)
    ensures
        -1 <= last_dot(f) < f.len(),
        last_dot(f) >= 0 ==> f[last_dot(f)] == '.',
        forall|j: int| last_dot(f) < j < f.len() ==> f[j] != '.',
    decreases f.len(),
{
    if f.len() == 0 {
    } else if f.last() == '.' {
    } else {
        lemma_last_dot_bounds(f.drop_last());
        assert forall|j: int| last_dot(f) < j < f.len() implies f[j] != '.' by {
            if j < f.len() - 1 {
                assert(f.drop_last()[j] == f[j]);
            }
        }
        if last_dot(f) >= 0 {
            assert(f.drop_last()[last_dot(f)] == f[last_dot(f)]);
        }
    }
}

/// Any dot with no later dot is the one `last_dot` marks.
proof fn lemma_last_dot_pin(f: Seq<char>, i: int)
    requires
        0 <= i < f.len(),
        f[i] == '.',
        forall|j: int| i < j < f.len() ==> f[j] != '.',
    ensures
        last_dot(f) == i,
    decreases f.len(),
{
    if f.last() == '.' {
        assert(i == f.len() - 1);
    } else {
        assert(i < f.len() - 1);
        assert(f.drop_last()[i] == f[i]);
        assert forall|j: int| i < j < f.drop_last().len() implies f.drop_last()[j] != '.' by {
            assert(f.drop_last()[j] == f[j]);
        }
        lemma_last_dot_pin(f.drop_last(), i);
    }
}

/// A string with no dot at all has no `last_dot`.
proof fn lemma_no_dot(f: Seq<char>)
    requires
        forall|j: int| 0 <= j < f.len() ==> f[j] != '.',
    ensures
        last_dot(f) == -1,
    decreases f.len(),
{
    if f.len() > 0 {
        assert forall|j: int| 0 <= j < f.drop_last().len() implies f.drop_last()[j] != '.' by {
            assert(f.drop_last()[j] == f[j]);
        }
        lemma_no_dot(f.drop_last());
    }
}

/// ASCII lowercasing of one character.
fn char_lower(c: char) -> (r: char)
    ensures
        r == lower_char(c),
{
    if c == 'A' {
        'a'
    } else if c == 'B' {
        'b'
    } else if c == 'C' {
        'c'
    } else if c == 'D' {
        'd'
    } else if c == 'E' {
        'e'
    } else if c == 'F' {
        'f'
    } else if c == 'G' {
        'g'
    } else if c == 'H' {
        'h'
    } else if c == 'I' {
        'i'
    } else if c == 'J' {
        'j'
    } else if c == 'K' {
        'k'
    } else if c == 'L' {
        'l'
    } else if c == 'M' {
        'm'
    } else if c == 'N' {
        'n'
    } else if c == 'O' {
        'o'
    } else if c == 'P' {
        'p'
    } else if c == 'Q' {
        'q'
    } else if c == 'R' {
        'r'
    } else if c == 'S' {
        's'
    } else if c == 'T' {
        't'
    } else if c == 'U' {
        'u'
    } else if c == 'V' {
        'v'
    } else if c == 'W' {
        'w'
    } else if c == 'X' {
        'x'
    } else if c == 'Y' {
        'y'
    } else if c == 'Z' {
        'z'
    } else {
        c
    }
}

/// Case-insensitive comparison of `e` against a fixed lowercase pattern.
fn ascii_ci_eq(e: &str, pat: &str) -> (r: bool)
    ensures
        r == (lower_ascii(e@) == pat@),
{
    let ne = e.unicode_len();
    let np = pat.unicode_len();
    if ne != np {
        return false;
    }
    let mut k: usize = 0;
    while k < ne
        invariant
            k <= ne,
            ne == e@.len(),
            ne == pat@.len(),
            forall|m: int| 0 <= m < k ==> lower_char(e@[m]) == pat@[m],
        decreases ne - k,
    {
        if char_lower(e.get_char(k)) != pat.get_char(k) {
            assert(lower_ascii(e@)[k as int] != pat@[k as int]);
            return false;
        }
        k = k + 1;
    }
    proof {
        assert(lower_ascii(e@) =~= pat@);
    }
    true
}

/// Whether a single path component carries an image extension.
pub fn is_image_seg(f: &str) -> (r: bool)
    ensures
        r == is_image_name(f@),
{
    let n = f.unicode_len();
    let mut dot: usize = 0;
    let mut found = false;
    let mut k: usize = 0;
    while k < n
        invariant
            k <= n,
            n == f@.len(),
            found ==> 0 <= dot < k && f@[dot as int] == '.' && forall|j: int|
                dot < j < k ==> f@[j] != '.',
            !found ==> forall|j: int| 0 <= j < k ==> f@[j] != '.',
        decreases n - k,
    {
        if f.get_char(k) == '.' {
            dot = k;
            found = true;
        }
        k = k + 1;
    }
    proof {
        if found {
            lemma_last_dot_pin(f@, dot as int);
        } else {
            lemma_no_dot(f@);
        }
    }
    if !found || dot == 0 {
        return false;
    }
    let ext = f.substring_char(dot + 1, n);
    proof {
        reveal_strlit("png");
        reveal_strlit("jpg");
        reveal_strlit("jpeg");
        reveal_strlit("gif");
        reveal_strlit("webp");
        reveal_strlit("bmp");
        reveal_strlit("svg");
        assert("png"@ =~= seq!['p', 'n', 'g']);
        assert("jpg"@ =~= seq!['j', 'p', 'g']);
        assert("jpeg"@ =~= seq!['j', 'p', 'e', 'g']);
        assert("gif"@ =~= seq!['g', 'i', 'f']);
        assert("webp"@ =~= seq!['w', 'e', 'b', 'p']);
        assert("bmp"@ =~= seq!['b', 'm', 'p']);
        assert("svg"@ =~= seq!['s', 'v', 'g']);
    }
    ascii_ci_eq(ext, "png") || ascii_ci_eq(ext, "jpg") || ascii_ci_eq(ext, "jpeg") || ascii_ci_eq(
        ext,
        "gif",
    ) || ascii_ci_eq(ext, "webp") || ascii_ci_eq(ext, "bmp") || ascii_ci_eq(ext, "svg")
}

/// Entry type found on disk.
#[derive(Debug, PartialEq, Eq)]
pub enum EntryKind {
    Directory,
    File { is_image: bool },
}

impl Clone for EntryKind {
    fn clone(&self) -> (r: Self)
        ensures
            r == *self,
    {
        match self {
            EntryKind::Directory => EntryKind::Directory,
            EntryKind::File { is_image } => EntryKind::File { is_image: *is_image },
        }
    }
}

/// File system entry recorded for a hub's storage.
#[derive(Debug)]
pub struct StorageEntry {
    name: FileName,
    kind: EntryKind,
}

impl StorageEntry {
    /// The characters of the entry's name.
    pub closed spec fn spec_name(&self) -> Seq<char> {
        self.name@
    }

    /// Whether the entry is a directory.
    pub closed spec fn spec_is_directory(&self) -> bool {
        self.kind is Directory
    }

    /// Whether the entry is a file with an image extension.
    pub closed spec fn spec_is_image(&self) -> bool {
        self.kind matches EntryKind::File { is_image: true }
    }

    pub fn new(name: FileName, kind: EntryKind) -> (r: Self)
        ensures
            r.spec_name() == name@,
            r.spec_is_directory() == (kind is Directory),
            r.spec_is_image() == (kind matches EntryKind::File { is_image: true }),
    {
        Self { name, kind }
    }

    pub fn name(&self) -> (r: &FileName)
        ensures
            r@ == self.spec_name(),
    {
        &self.name
    }

    /// The stored name, for value-level reasoning about moves.
    pub closed spec fn spec_name_value(&self) -> FileName {
        self.name
    }

    /// The stored name's characters are the entry's name view.
    pub proof fn lemma_name_value_view(&self)
        ensures
            self.spec_name_value()@ == self.spec_name(),
    {
    }

    pub fn into_name(self) -> (r: FileName)
        ensures
            r == self.spec_name_value(),
            r@ == self.spec_name(),
    {
        self.name
    }

    pub fn is_directory(&self) -> (r: bool)
        ensures
            r == self.spec_is_directory(),
    {
        matches!(self.kind, EntryKind::Directory)
    }

    pub fn is_image(&self) -> (r: bool)
        ensures
            r == self.spec_is_image(),
    {
        matches!(self.kind, EntryKind::File { is_image: true })
    }
}

impl Clone for StorageEntry {
    fn clone(&self) -> (r: Self)
        ensures
            r.spec_name() == self.spec_name(),
            r.spec_is_directory() == self.spec_is_directory(),
            r.spec_is_image() == self.spec_is_image(),
    {
        Self { name: self.name.clone(), kind: self.kind.clone() }
    }
}

/// One string is a path-prefix of another: a textual prefix that ends at
/// the end of the longer string or at a separator.
pub open spec fn is_path_prefix(p: Seq<char>, q: Seq<char>) -> bool {
    &&& p.len() <= q.len()
    &&& q.subrange(0, p.len() as int) == p
    &&& (q.len() == p.len() || q[p.len() as int] == '/')
}

/// The absolute path of a hub's root: the upload root plus the hub id.
pub open spec fn hub_root_path(root: Seq<char>, hub: int) -> Seq<char> {
    join_one(root, dec_str(hub))
}

/// The absolute path of a relative location inside a hub's root.
pub open spec fn dir_path(root: Seq<char>, hub: int, rel: Seq<Seq<char>>) -> Seq<char> {
    if rel.len() == 0 {
        hub_root_path(root, hub)
    } else {
        hub_root_path(root, hub) + seq!['/'] + render_segs(rel)
    }
}

/// The absolute path of a file name inside a relative location.
pub open spec fn entry_path(root: Seq<char>, hub: int, rel: Seq<Seq<char>>, name: Seq<char>)
    -> Seq<char> {
    dir_path(root, hub, rel) + seq!['/'] + name
}

/// Hub-scoped access to storage paths.
#[derive(Debug)]
pub struct HubStorage {
    root: UploadRoot,
    hub_id: HubId,
}

impl HubStorage {
    /// The shared upload root this resolver was built over.
    pub closed spec fn spec_root(&self) -> Seq<char> {
        self.root@
    }

    /// The hub this resolver is scoped to.
    pub closed spec fn spec_hub(&self) -> int {
        self.hub_id.spec_value()
    }

    /// The absolute path of the hub root: the upload root plus the hub id.
    pub open spec fn hub_root_spec(&self) -> Seq<char> {
        hub_root_path(self.spec_root(), self.spec_hub())
    }

    /// The absolute path of a relative location inside the hub root.
    pub open spec fn resolve_dir_spec(&self, rel: Seq<Seq<char>>) -> Seq<char> {
        dir_path(self.spec_root(), self.spec_hub(), rel)
    }

    /// The absolute path of a file name inside a relative location.
    pub open spec fn resolve_file_spec(&self, rel: Seq<Seq<char>>, name: Seq<char>) -> Seq<char> {
        entry_path(self.spec_root(), self.spec_hub(), rel, name)
    }

    pub fn new(root: UploadRoot, hub_id: HubId) -> (r: Self)
        ensures
            r.spec_root() == root@,
            r.spec_hub() == hub_id.spec_value(),
    {
        Self { root, hub_id }
    }

    /// Absolute path to the hub root (root + hub id).
    pub fn hub_root(&self) -> (r: String)
        ensures
            r@ == self.hub_root_spec(),
    {
        let dec = i32_dec_string(self.hub_id.value());
        crate::pathtext::join_one_str(self.root.as_path(), dec.as_str())
    }

    /// Resolve a relative path within the hub root.
    pub fn resolve_dir(&self, relative: &RelativePath) -> (r: String)
        ensures
            r@ == self.resolve_dir_spec(relative@),
    {
        let mut out = self.hub_root();
        if relative.is_root() {
            return out;
        }
        out.append("/");
        let rendered = relative.as_path();
        out.append(rendered.as_str());
        proof {
            reveal_strlit("/");
            assert(out@ =~= self.hub_root_spec() + seq!['/'] + render_segs(relative@));
        }
        out
    }

    /// Resolve a file name inside the given relative path.
    pub fn resolve_file(&self, relative: &RelativePath, name: &FileName) -> (r: String)
        ensures
            r@ == self.resolve_file_spec(relative@, name@),
    {
        let mut out = self.resolve_dir(relative);
        out.append("/");
        out.append(name.as_str());
        proof {
            reveal_strlit("/");
            assert(out@ =~= self.resolve_dir_spec(relative@) + seq!['/'] + name@);
        }
        out
    }
}

impl Clone for HubStorage {
    fn clone(&self) -> (r: Self)
        ensures
            r.spec_root() == self.spec_root(),
            r.spec_hub() == self.spec_hub(),
    {
        Self { root: self.root.clone(), hub_id: self.hub_id.clone() }
    }
}

impl RelativePath {
    /// Whether this is the empty path.
    pub fn is_root(&self) -> (r: bool)
        ensures
            r == (self@.len() == 0),
    {
        self.segments.len() == 0
    }
}

/// Identity and associativity of `join` at the level of segment lists:
/// the root is the identity element, and grouping does not matter.
pub proof fn lemma_join_monoid(a: Seq<Seq<char>>, b: Seq<Seq<char>>, c: Seq<Seq<char>>)
    ensures
        Seq::<Seq<char>>::empty() + a == a,
        a + Seq::<Seq<char>>::empty() == a,
        (a + b) + c == a + (b + c),
{
    assert(Seq::<Seq<char>>::empty() + a =~= a);
    assert(a + Seq::<Seq<char>>::empty() =~= a);
    assert((a + b) + c =~= a + (b + c));
}

/// Containment law: every constructible relative path resolves to a
/// location at or below the hub root; no construction can escape it.
pub proof fn lemma_resolution_contained(hs: HubStorage, rel: Seq<Seq<char>>)
    ensures
        is_path_prefix(hs.hub_root_spec(), hs.resolve_dir_spec(rel)),
{
    lemma_join_resolves_within(hs, Seq::empty(), rel);
    assert(Seq::<Seq<char>>::empty() + rel =~= rel);
}

/// A resolved file always lies directly below its resolved directory.
pub proof fn lemma_file_under_dir(hs: HubStorage, rel: Seq<Seq<char>>, name: Seq<char>)
    ensures
        is_path_prefix(hs.resolve_dir_spec(rel), hs.resolve_file_spec(rel, name)),
{
    let p = hs.resolve_dir_spec(rel);
    let q = hs.resolve_file_spec(rel, name);
    assert(q.subrange(0, p.len() as int) =~= p);
    assert(q[p.len() as int] == '/');
}

/// Containment law: resolving `a.join(b)` always lands at or below the
/// resolution of `a`, for any hub; joining never escapes a directory.
pub proof fn lemma_join_resolves_within(hs: HubStorage, a: Seq<Seq<char>>, b: Seq<Seq<char>>)
    ensures
        is_path_prefix(hs.resolve_dir_spec(a), hs.resolve_dir_spec(a + b)),
{
    let p = hs.resolve_dir_spec(a);
    let q = hs.resolve_dir_spec(a + b);
    if b.len() == 0 {
        assert(a + b =~= a);
        assert(q.subrange(0, p.len() as int) =~= p);
    } else if a.len() == 0 {
        assert(a + b =~= b);
        assert(q =~= p + seq!['/'] + render_segs(b));
        assert(q.subrange(0, p.len() as int) =~= p);
        assert(q[p.len() as int] == '/');
    } else {
        lemma_render_concat(a, b);
        assert(q == hs.hub_root_spec() + seq!['/'] + (render_segs(a) + seq!['/'] + render_segs(
            b,
        )));
        assert(q.subrange(0, p.len() as int) =~= p);
        assert(q[p.len() as int] == '/');
    }
}

/// Tenant isolation law: two hubs with the same upload root but different
/// ids never resolve to overlapping absolute paths, whatever the relative
/// location.
pub proof fn lemma_tenants_disjoint(h1: HubStorage, h2: HubStorage, rel: Seq<Seq<char>>)
    requires
        h1.spec_root() == h2.spec_root(),
        h1.spec_hub() != h2.spec_hub(),
    ensures
        !is_path_prefix(h1.resolve_dir_spec(rel), h2.resolve_dir_spec(rel)),
{
    let d1 = dec_str(h1.spec_hub());
    let d2 = dec_str(h2.spec_hub());
    lemma_dec_str_chars(h1.spec_hub());
    lemma_dec_str_chars(h2.spec_hub());
    lemma_dec_str_injective(h1.spec_hub(), h2.spec_hub());
    let root = h1.spec_root();
    let pre = if root.len() == 0 {
        Seq::<char>::empty()
    } else if root.last() == '/' {
        root
    } else {
        root + seq!['/']
    };
    let tail = if rel.len() == 0 {
        Seq::<char>::empty()
    } else {
        seq!['/'] + render_segs(rel)
    };
    let r1 = h1.resolve_dir_spec(rel);
    let r2 = h2.resolve_dir_spec(rel);
    assert(r1 =~= pre + d1 + tail);
    assert(r2 =~= pre + d2 + tail);
    if is_path_prefix(r1, r2) {
        if d1.len() == d2.len() {
            assert(r1.len() == r2.len());
            assert(r2.subrange(0, r1.len() as int) =~= r2);
            assert forall|i: int| 0 <= i < d1.len() implies d1[i] == d2[i] by {
                assert(r1[pre.len() + i] == d1[i]);
                assert(r2[pre.len() + i] == d2[i]);
            }
            assert(d1 =~= d2);
        } else if d1.len() < d2.len() {
            let i0 = pre.len() + d1.len();
            if tail.len() == 0 {
                assert(r2[i0 as int] == '/');
                assert(r2[i0 as int] == d2[d1.len() as int]);
            } else {
                assert(i0 < r1.len());
                assert(r1[i0 as int] == tail[0]);
                assert(tail[0] == '/');
                assert(r2.subrange(0, r1.len() as int)[i0 as int] == r1[i0 as int]);
                assert(r2[i0 as int] == d2[d1.len() as int]);
            }
        } else {
            let i1 = pre.len() + d2.len();
            assert(i1 < r1.len());
            assert(r1[i1 as int] == d1[d2.len() as int]);
            assert(r2[i1 as int] == tail[0]);
            assert(tail.len() > 0) by {
                assert(r1.len() <= r2.len());
            }
            assert(tail[0] == '/');
            assert(r2.subrange(0, r1.len() as int)[i1 as int] == r1[i1 as int]);
        }
    }
}

} // verus!
