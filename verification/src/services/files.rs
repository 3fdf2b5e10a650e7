//! The file service: authorization, validation and path resolution for
//! listing, folder creation and upload, plus listing collation.
//!
//! Every operation is split into a pure, fully specified part that lives
//! here and the filesystem step that a caller performs afterwards.  The
//! preparation functions authorize the identity, validate the untrusted
//! strings into domain values and resolve the absolute paths to act on;
//! `finish_listing` turns a directory scan into the sorted listing.
use vstd::prelude::*;

verus! {

use vstd::string::StrSliceExecFns;
use vstd::string::StringExecFns;

use crate::SERVICE_ACCESS_ROLE;
use crate::domain::{FileName, HubId, HubStorage, RelativePath, UploadRoot, dir_path,
    entry_path, file_name_accepts, hub_root_path};
use crate::models::auth::AuthenticatedUser;
use crate::forms::main::CreateFolderForm;
use crate::pathtext::{has_parent_piece, is_normal_seg, lemma_single_piece, norm_segs, str_eq};
use crate::services::{ServiceError, ServiceResult};
use crate::dto::FileEntryDto;
use crate::textorder::{lex_le, lemma_lex_le_total, lemma_lex_le_trans, lower_of, lowercase,
    str_lex_le};

/// Whether the identity carries the role every operation requires.
pub open spec fn role_ok(user: AuthenticatedUser) -> bool {
    exists|k: int| 0 <= k < user.roles@.len() && (#[trigger] user.roles@[k])@ == SERVICE_ACCESS_ROLE@
}

/// The relative location named by an optional raw path parameter.
pub open spec fn rel_of(path: Option<&str>) -> Seq<Seq<char>> {
    match path {
        Some(s) => norm_segs(s@),
        None => Seq::empty(),
    }
}

/// Whether an optional raw path parameter passes validation.
pub open spec fn path_param_ok(path: Option<&str>) -> bool {
    match path {
        Some(s) => !has_parent_piece(s@),
        None => true,
    }
}

/// Whether the identity holds the given role.
fn check_role(role: &str, roles: &Vec<String>) -> (r: bool)
    ensures
        r == exists|k: int| 0 <= k < roles@.len() && (#[trigger] roles@[k])@ == role@,
{
    let mut k: usize = 0;
    while k < roles.len()
        invariant
            k <= roles@.len(),
            forall|m: int| 0 <= m < k ==> (#[trigger] roles@[m])@ != role@,
        decreases roles@.len() - k,
    {
        if str_eq(roles[k].as_str(), role) {
            return true;
        }
        k = k + 1;
    }
    false
}

/// A character the hyphenated identifier form can hold: a lowercase
/// hexadecimal digit or a hyphen.
pub open spec fn is_uuid_char(c: char) -> bool {
    ||| c == '-'
    ||| ('0' as u32) <= (c as u32) && (c as u32) <= ('9' as u32)
    ||| ('a' as u32) <= (c as u32) && (c as u32) <= ('f' as u32)
}

/// Relies on `uuid::Uuid::new_v4` and its `Display` form: a fresh random
/// identifier rendered as 36 lowercase hexadecimal digits and hyphens.
#[verifier::external_body]
fn fresh_uuid_string() -> (r: String)
    ensures
        r@.len() == 36,
        forall|i: int| 0 <= i < r@.len() ==> is_uuid_char(#[trigger] r@[i]),
{
    uuid::Uuid::new_v4().to_string()
}

/// A generated upload name: `upload-` followed by a fresh identifier.
fn generated_upload_name() -> (r: String)
    ensures
        file_name_accepts(r@),
        norm_segs(r@) == seq![r@],
        is_normal_seg(r@),
{
    let u = fresh_uuid_string();
    let mut c = String::new();
    c.append("upload-");
    c.append(u.as_str());
    proof {
        reveal_strlit("upload-");
        assert(c@.len() == 43);
        assert forall|i: int| 0 <= i < c@.len() implies #[trigger] c@[i] != '/' by {
            vstd::utf8::char_u32_cast(c@[i], c@[i] as u32);
            if i < 7 {
                assert("upload-"@[i] != '/');
            } else {
                assert(is_uuid_char(u@[i - 7]));
            }
        }
        assert(!c@.contains('/'));
        assert(c@[0] == 'u');
        lemma_single_piece(c@);
        assert(!crate::pathtext::is_dot_seg(c@));
        assert(seq![c@].drop_first() =~= Seq::<Seq<char>>::empty());
        assert(crate::pathtext::drop_dots(seq![c@]) == seq![c@] + crate::pathtext::drop_dots(
            Seq::<Seq<char>>::empty(),
        ));
        assert(seq![c@] + Seq::<Seq<char>>::empty() =~= seq![c@]);
        assert(norm_segs(c@) =~= seq![c@]);
        assert(norm_segs(c@)[0] == c@);
    }
    c
}

/// What a prepared listing or folder creation acts on: the hub root that
/// must exist, and the directory the operation targets.
#[derive(Debug)]
pub struct StoragePlan {
    /// Absolute path of the tenant's root directory.
    pub hub_root: String,
    /// Absolute path of the directory the operation targets.
    pub directory: String,
}

/// What a prepared upload acts on.
#[derive(Debug)]
pub struct UploadPlan {
    /// Absolute path of the tenant's root directory.
    pub hub_root: String,
    /// Absolute path of the directory receiving the file.
    pub directory: String,
    /// The validated name the file will be stored under.
    pub file_name: FileName,
    /// Absolute path of the file itself.
    pub file_path: String,
}

/// Service responsible for file system operations inside a hub's storage.
#[derive(Debug)]
pub struct FileService {
    upload_root: UploadRoot,
}

impl Clone for FileService {
    fn clone(&self) -> (r: Self)
        ensures
            r.spec_root() == self.spec_root(),
    {
        FileService { upload_root: self.upload_root.clone() }
    }
}

impl FileService {
    /// The shared upload root all hub storages hang under.
    pub closed spec fn spec_root(&self) -> Seq<char> {
        self.upload_root@
    }

    pub fn new(upload_root: UploadRoot) -> (r: Self)
        ensures
            r.spec_root() == upload_root@,
    {
        Self { upload_root }
    }

    /// Validates an optional raw path parameter into a relative location;
    /// an absent parameter means the hub root.
    fn sanitize_path_param(path: Option<&str>) -> (r: ServiceResult<RelativePath>)
        ensures
            r is Ok <==> path_param_ok(path),
            r matches Err(e) ==> e is InvalidPath,
            r matches Ok(p) ==> p@ == rel_of(path) && p.wf(),
    {
        match path {
            Some(p) => match RelativePath::try_from_str(p) {
                Ok(rp) => Ok(rp),
                Err(_) => Err(ServiceError::InvalidPath),
            },
            None => Ok(RelativePath::root()),
        }
    }

    /// Validates a client-supplied file name, or generates a fresh one
    /// when none was supplied.
    fn sanitize_file_name(raw: Option<String>) -> (r: ServiceResult<FileName>)
        ensures
            r is Ok <==> (raw matches Some(s) ==> file_name_accepts(s@)),
            r matches Err(e) ==> e is InvalidFileName,
            raw matches Some(s) ==> (r matches Ok(f) ==> f@ == norm_segs(s@)[0]),
            r matches Ok(f) ==> is_normal_seg(f@),
    {
        let candidate = match raw {
            Some(s) => s,
            None => generated_upload_name(),
        };
        match FileName::try_new(candidate) {
            Ok(f) => Ok(f),
            Err(_) => Err(ServiceError::InvalidFileName),
        }
    }

    /// The storage resolver scoped to one hub.
    pub fn storage_for_hub(&self, hub_id: HubId) -> (r: HubStorage)
        ensures
            r.spec_root() == self.spec_root(),
            r.spec_hub() == hub_id.spec_value(),
    {
        HubStorage::new(self.upload_root.clone(), hub_id)
    }

    /// Authorizes the identity, yielding its hub's storage resolver.
    fn authorize(&self, user: &AuthenticatedUser) -> (r: ServiceResult<HubStorage>)
        ensures
            r is Ok <==> role_ok(*user),
            r matches Err(e) ==> e is Unauthorized,
            r matches Ok(hs) ==> hs.spec_root() == self.spec_root() && hs.spec_hub()
                == user.hub_id as int,
    {
        if check_role(SERVICE_ACCESS_ROLE, &user.roles) {
            Ok(self.storage_for_hub(HubId::new(user.hub_id)))
        } else {
            Err(ServiceError::Unauthorized)
        }
    }

    /// Authorizes and resolves a listing: which hub root must exist and
    /// which directory is to be scanned.  Performs no I/O; rejects every
    /// invalid input before any I/O could happen.
    pub fn prepare_listing(&self, user: &AuthenticatedUser, relative: Option<&str>) -> (r:
        ServiceResult<StoragePlan>)
        ensures
            r is Ok <==> role_ok(*user) && path_param_ok(relative),
            !role_ok(*user) ==> (r matches Err(e) && e is Unauthorized),
            role_ok(*user) && !path_param_ok(relative) ==> (r matches Err(e) && e is InvalidPath),
            r matches Ok(plan) ==> plan.hub_root@ == hub_root_path(
                self.spec_root(),
                user.hub_id as int,
            ) && plan.directory@ == dir_path(
                self.spec_root(),
                user.hub_id as int,
                rel_of(relative),
            ),
    {
        let storage = match self.authorize(user) {
            Ok(s) => s,
            Err(e) => {
                return Err(e);
            },
        };
        let rel = match Self::sanitize_path_param(relative) {
            Ok(p) => p,
            Err(e) => {
                return Err(e);
            },
        };
        Ok(StoragePlan { hub_root: storage.hub_root(), directory: storage.resolve_dir(&rel) })
    }

    /// Authorizes and resolves a folder creation: validates the form
    /// name, the current location, and the requested (possibly nested)
    /// folder path, and resolves the directory to create.
    pub fn prepare_folder_creation(
        &self,
        user: &AuthenticatedUser,
        current_path: Option<&str>,
        form: &CreateFolderForm,
    ) -> (r: ServiceResult<StoragePlan>)
        ensures
            r is Ok <==> form.name@.len() > 0 && role_ok(*user) && path_param_ok(current_path)
                && !has_parent_piece(form.name@),
            form.name@.len() == 0 ==> (r matches Err(e) && e is Validation),
            form.name@.len() > 0 && !role_ok(*user) ==> (r matches Err(e) && e is Unauthorized),
            form.name@.len() > 0 && role_ok(*user) && !path_param_ok(current_path) ==> (r
                matches Err(e) && e is InvalidPath),
            form.name@.len() > 0 && role_ok(*user) && path_param_ok(current_path)
                && has_parent_piece(form.name@) ==> (r matches Err(e) && e is Validation),
            r matches Ok(plan) ==> plan.hub_root@ == hub_root_path(
                self.spec_root(),
                user.hub_id as int,
            ) && plan.directory@ == dir_path(
                self.spec_root(),
                user.hub_id as int,
                rel_of(current_path) + norm_segs(form.name@),
            ),
    {
        if form.name.as_str().unicode_len() == 0 {
            return Err(ServiceError::Validation("folder name must not be empty".to_owned()));
        }
        let storage = match self.authorize(user) {
            Ok(s) => s,
            Err(e) => {
                return Err(e);
            },
        };
        let current = match Self::sanitize_path_param(current_path) {
            Ok(p) => p,
            Err(e) => {
                return Err(e);
            },
        };
        let requested = match RelativePath::try_from_str(form.name.as_str()) {
            Ok(p) => p,
            Err(_) => {
                return Err(ServiceError::Validation("invalid folder name".to_owned()));
            },
        };
        let combined = current.join(&requested);
        Ok(StoragePlan {
            hub_root: storage.hub_root(),
            directory: storage.resolve_dir(&combined),
        })
    }

    /// Authorizes and resolves an upload: validates the location and the
    /// file name (generating one when absent), and resolves the directory
    /// and the file path to write.
    pub fn prepare_upload(
        &self,
        user: &AuthenticatedUser,
        relative: Option<&str>,
        raw_file_name: Option<String>,
    ) -> (r: ServiceResult<UploadPlan>)
        ensures
            r is Ok <==> role_ok(*user) && path_param_ok(relative) && (raw_file_name matches Some(
                s,
            ) ==> file_name_accepts(s@)),
            !role_ok(*user) ==> (r matches Err(e) && e is Unauthorized),
            role_ok(*user) && !path_param_ok(relative) ==> (r matches Err(e) && e is InvalidPath),
            role_ok(*user) && path_param_ok(relative) && r is Err ==> (r matches Err(e) && e
                is InvalidFileName),
            r matches Ok(plan) ==> {
                &&& plan.hub_root@ == hub_root_path(self.spec_root(), user.hub_id as int)
                &&& plan.directory@ == dir_path(
                    self.spec_root(),
                    user.hub_id as int,
                    rel_of(relative),
                )
                &&& plan.file_path@ == entry_path(
                    self.spec_root(),
                    user.hub_id as int,
                    rel_of(relative),
                    plan.file_name@,
                )
                &&& is_normal_seg(plan.file_name@)
                &&& raw_file_name matches Some(s) ==> plan.file_name@ == norm_segs(s@)[0]
            },
    {
        let storage = match self.authorize(user) {
            Ok(s) => s,
            Err(e) => {
                return Err(e);
            },
        };
        let rel = match Self::sanitize_path_param(relative) {
            Ok(p) => p,
            Err(e) => {
                return Err(e);
            },
        };
        let file_name = match Self::sanitize_file_name(raw_file_name) {
            Ok(f) => f,
            Err(e) => {
                return Err(e);
            },
        };
        let directory = storage.resolve_dir(&rel);
        let file_path = storage.resolve_file(&rel, &file_name);
        Ok(UploadPlan { hub_root: storage.hub_root(), directory, file_name, file_path })
    }

    /// Turns the outcome of scanning the prepared directory into the
    /// listing.  A directory that does not exist yet is a valid, empty
    /// state; a non-directory at the resolved path is an invalid path.
    /// Children whose names fail validation are silently skipped; the
    /// rest are classified and sorted, directories first, then
    /// case-insensitively by name.
    pub fn finish_listing(scan: DirScan) -> (r: ServiceResult<Vec<FileEntryDto>>)
        ensures
            scan is Missing ==> r is Ok && r->Ok_0@.len() == 0,
            scan is NotDirectory ==> (r matches Err(e) && e is InvalidPath),
            scan matches DirScan::Children(cs) ==> (r matches Ok(out) && dto_keys(out@).to_multiset()
                == expected_keys(cs@).to_multiset() && entries_sorted(out@)),
    {
        match scan {
            DirScan::Missing => Ok(Vec::new()),
            DirScan::NotDirectory => Err(ServiceError::InvalidPath),
            DirScan::Children(cs) => {
                let built = collate_children(&cs);
                Ok(sort_entries(built))
            },
        }
    }
}

/// One child of a scanned directory, as the filesystem reports it.
#[derive(Debug)]
pub struct ChildRecord {
    /// The child's own name.
    pub name: String,
    /// Whether the child is a directory.
    pub is_directory: bool,
}

/// The outcome of looking up and scanning the prepared directory.
#[derive(Debug)]
pub enum DirScan {
    /// The directory does not exist.
    Missing,
    /// The path exists but is not a directory.
    NotDirectory,
    /// The directory's immediate children.
    Children(Vec<ChildRecord>),
}

/// The visible content of a listing entry: name, directory flag, image
/// flag.
pub open spec fn dto_key(d: FileEntryDto) -> (Seq<char>, bool, bool) {
    (d.name@, d.is_directory, d.is_image)
}

/// The visible contents of a listing.
pub open spec fn dto_keys(s: Seq<FileEntryDto>) -> Seq<(Seq<char>, bool, bool)> {
    s.map_values(|d: FileEntryDto| dto_key(d))
}

/// Mapping to keys commutes with appending.
proof fn lemma_dto_keys_push(s: Seq<FileEntryDto>, x: FileEntryDto)
    ensures
        dto_keys(s.push(x)) =~= dto_keys(s).push(dto_key(x)),
{
}

/// Whether a scanned child is kept in the listing.
pub open spec fn child_accepted(c: ChildRecord) -> bool {
    file_name_accepts(c.name@)
}

/// The listing entry a kept child produces.
pub open spec fn child_dto_key(c: ChildRecord) -> (Seq<char>, bool, bool) {
    let nm = norm_segs(c.name@)[0];
    (nm, c.is_directory, !c.is_directory && crate::domain::is_image_name(nm))
}

/// The kept children of a scan, in scan order.
pub open spec fn kept_children(cs: Seq<ChildRecord>) -> Seq<ChildRecord> {
    cs.filter(|c: ChildRecord| child_accepted(c))
}

/// The listing entries of a scan, before sorting.
pub open spec fn expected_keys(cs: Seq<ChildRecord>) -> Seq<(Seq<char>, bool, bool)> {
    kept_children(cs).map_values(|c: ChildRecord| child_dto_key(c))
}

/// One scan step extends the expected listing by the child's entry when
/// the child is kept, and not otherwise.
proof fn lemma_expected_keys_step(cs: Seq<ChildRecord>, k: int)
    requires
        0 <= k < cs.len(),
    ensures
        child_accepted(cs[k]) ==> expected_keys(cs.take(k + 1)) =~= expected_keys(
            cs.take(k),
        ).push(child_dto_key(cs[k])),
        !child_accepted(cs[k]) ==> expected_keys(cs.take(k + 1)) =~= expected_keys(cs.take(k)),
{
    let t = cs.take(k + 1);
    assert(t.drop_last() =~= cs.take(k));
    assert(t.last() == cs[k]);
    reveal_with_fuel(Seq::filter, 2);
    if child_accepted(cs[k]) {
        assert(kept_children(t) == kept_children(t.drop_last()).push(t.last()));
        assert(kept_children(t.drop_last()) == kept_children(cs.take(k)));
    } else {
        assert(kept_children(t) == kept_children(t.drop_last()));
    }
}

/// Listing order: directories before files; within a group,
/// case-insensitive lexicographic by name.
pub open spec fn dto_le(x: FileEntryDto, y: FileEntryDto) -> bool {
    ||| (x.is_directory && !y.is_directory)
    ||| (x.is_directory == y.is_directory && lex_le(lower_of(x.name@), lower_of(y.name@)))
}

/// Whether a listing is in listing order.
pub open spec fn entries_sorted(s: Seq<FileEntryDto>) -> bool {
    forall|i: int, j: int| 0 <= i < j < s.len() ==> #[trigger] dto_le(s[i], s[j])
}

/// The listing order relates every pair.
proof fn lemma_dto_le_total(x: FileEntryDto, y: FileEntryDto)
    ensures
        dto_le(x, y) || dto_le(y, x),
{
    lemma_lex_le_total(lower_of(x.name@), lower_of(y.name@));
}

/// The listing order is transitive.
proof fn lemma_dto_le_trans(x: FileEntryDto, y: FileEntryDto, z: FileEntryDto)
    requires
        dto_le(x, y),
        dto_le(y, z),
    ensures
        dto_le(x, z),
{
    if x.is_directory == y.is_directory && y.is_directory == z.is_directory {
        lemma_lex_le_trans(lower_of(x.name@), lower_of(y.name@), lower_of(z.name@));
    }
}

/// Compares two listing entries in listing order.
fn entry_le(a: &FileEntryDto, b: &FileEntryDto) -> (r: bool)
    ensures
        r == dto_le(*a, *b),
{
    if a.is_directory && !b.is_directory {
        true
    } else if !a.is_directory && b.is_directory {
        false
    } else {
        let la = lowercase(a.name.as_str());
        let lb = lowercase(b.name.as_str());
        str_lex_le(la.as_str(), lb.as_str())
    }
}

/// Filters, classifies and maps the scanned children, in scan order.
fn collate_children(children: &Vec<ChildRecord>) -> (r: Vec<FileEntryDto>)
    ensures
        dto_keys(r@) == expected_keys(children@),
{
    let mut out: Vec<FileEntryDto> = Vec::new();
    let mut k: usize = 0;
    proof {
        assert(children@.take(0) =~= Seq::<ChildRecord>::empty());
        assert(dto_keys(out@) =~= expected_keys(children@.take(0)));
    }
    while k < children.len()
        invariant
            k <= children@.len(),
            dto_keys(out@) == expected_keys(children@.take(k as int)),
        decreases children@.len() - k,
    {
        let ghost prefix = children@.take(k as int);
        let ghost prefix2 = children@.take(k + 1);
        proof {
            assert(prefix2.drop_last() =~= prefix);
            assert(prefix2.last() == children@[k as int]);
        }
        let child = &children[k];
        match FileName::try_from_str(child.name.as_str()) {
            Ok(name) => {
                let is_directory = child.is_directory;
                let kind = if is_directory {
                    crate::domain::EntryKind::Directory
                } else {
                    crate::domain::EntryKind::File { is_image: name.is_image() }
                };
                let entry = crate::domain::StorageEntry::new(name, kind);
                proof {
                    entry.lemma_name_value_view();
                    let ghost fnv = entry.spec_name_value();
                    fnv.lemma_inner_view();
                }
                let dto = FileEntryDto::from(entry);
                proof {
                    assert(dto_key(dto) == child_dto_key(children@[k as int]));
                    lemma_dto_keys_push(out@, dto);
                    lemma_expected_keys_step(children@, k as int);
                }
                out.push(dto);
            },
            Err(_) => {
                proof {
                    lemma_expected_keys_step(children@, k as int);
                }
            },
        }
        k = k + 1;
    }
    proof {
        assert(children@.take(children@.len() as int) =~= children@);
    }
    out
}

/// Mapping to keys commutes with insertion.
proof fn lemma_dto_keys_insert(s: Seq<FileEntryDto>, i: int, x: FileEntryDto)
    requires
        0 <= i <= s.len(),
    ensures
        dto_keys(s.insert(i, x)) =~= dto_keys(s).insert(i, dto_key(x)),
{
}

/// Sorts the listing entries into listing order, keeping exactly the
/// same entries.
fn sort_entries(v: Vec<FileEntryDto>) -> (r: Vec<FileEntryDto>)
    ensures
        dto_keys(r@).to_multiset() == dto_keys(v@).to_multiset(),
        entries_sorted(r@),
{
    broadcast use vstd::seq_lib::group_to_multiset_ensures;

    let mut out: Vec<FileEntryDto> = Vec::new();
    let mut i: usize = 0;
    proof {
        assert(v@.take(0) =~= Seq::<FileEntryDto>::empty());
        assert(dto_keys(out@) =~= dto_keys(v@.take(0)));
    }
    while i < v.len()
        invariant
            i <= v@.len(),
            entries_sorted(out@),
            dto_keys(out@).to_multiset() == dto_keys(v@.take(i as int)).to_multiset(),
        decreases v@.len() - i,
    {
        let x = v[i].clone();
        let mut pos: usize = 0;
        while pos < out.len() && entry_le(&out[pos], &x)
            invariant
                pos <= out@.len(),
                forall|m: int| 0 <= m < pos ==> dto_le(#[trigger] out@[m], x),
            decreases out@.len() - pos,
        {
            pos = pos + 1;
        }
        proof {
            if pos < out@.len() {
                lemma_dto_le_total(out@[pos as int], x);
            }
            let updated = out@.insert(pos as int, x);
            assert forall|a: int, b: int| 0 <= a < b < updated.len() implies #[trigger] dto_le(
                updated[a],
                updated[b],
            ) by {
                if a < pos && b == pos {
                } else if a == pos && b > pos {
                    assert(updated[b] == out@[b - 1]);
                    if pos < out@.len() && b - 1 > pos {
                        assert(dto_le(out@[pos as int], out@[b - 1]));
                        lemma_dto_le_trans(x, out@[pos as int], out@[b - 1]);
                    }
                } else if a < pos && b > pos {
                    assert(updated[a] == out@[a]);
                    assert(updated[b] == out@[b - 1]);
                    if b - 1 == pos {
                        assert(dto_le(out@[a], x));
                    }
                } else if a > pos && b > pos {
                    assert(updated[a] == out@[a - 1]);
                    assert(updated[b] == out@[b - 1]);
                } else if a < pos && b < pos {
                    assert(updated[a] == out@[a]);
                    assert(updated[b] == out@[b]);
                }
            }
            lemma_dto_keys_insert(out@, pos as int, x);
            vstd::seq_lib::to_multiset_insert(dto_keys(out@), pos as int, dto_key(x));
            assert(v@.take(i + 1) =~= v@.take(i as int).push(v@[i as int]));
            lemma_dto_keys_push(v@.take(i as int), v@[i as int]);
            vstd::seq_lib::to_multiset_build(dto_keys(v@.take(i as int)), dto_key(v@[i as int]));
        }
        out.insert(pos, x);
        i = i + 1;
    }
    proof {
        assert(v@.take(v@.len() as int) =~= v@);
    }
    out
}

} // verus!
